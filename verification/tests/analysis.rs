use mclib::trajectory::TrajectoryProfile;
use mclib::FrequencyCharacteristics;

#[test]
fn frequency_characteristics_new_is_zero() {
    let c: FrequencyCharacteristics<f64> = FrequencyCharacteristics::new();
    assert_eq!((c.frequency, c.gain, c.phase), (0.0, 0.0, 0.0));
}

#[test]
fn trajectory_profile_holds_values() {
    let p = TrajectoryProfile { s: 1.0, v: 2.0, a: 3.0 };
    let q = p;
    assert_eq!((q.s, q.v, q.a), (1.0, 2.0, 3.0));
}
