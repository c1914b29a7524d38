use mclib::Motion;

fn motion(x: f64, v: f64, a: f64, f: f64) -> Motion<f64> {
    let mut m = Motion::new();
    m.x = x;
    m.v = v;
    m.a = a;
    m.f = f;
    m
}

#[test]
fn motion_new_is_at_rest() {
    let m: Motion<f64> = Motion::new();
    assert_eq!((m.x, m.v, m.a, m.f), (0.0, 0.0, 0.0, 0.0));
    let n: Motion<i32> = Motion::new();
    assert_eq!((n.x, n.v, n.a, n.f), (0, 0, 0, 0));
}

#[test]
fn motion_add_is_componentwise() {
    let s = motion(1.0, 2.0, 3.0, 4.0) + motion(0.5, -1.0, 2.0, 10.0);
    assert_eq!((s.x, s.v, s.a, s.f), (1.5, 1.0, 5.0, 14.0));
}

#[test]
fn motion_sub_is_componentwise() {
    let d = motion(1.0, 2.0, 3.0, 4.0) - motion(0.5, -1.0, 2.0, 10.0);
    assert_eq!((d.x, d.v, d.a, d.f), (0.5, 3.0, 1.0, -6.0));
}

#[test]
fn motion_add_assign_and_sub_assign() {
    let mut m = motion(1.0, 1.0, 1.0, 1.0);
    m += motion(1.0, 2.0, 3.0, 4.0);
    assert_eq!((m.x, m.v, m.a, m.f), (2.0, 3.0, 4.0, 5.0));
    m -= motion(2.0, 2.0, 2.0, 2.0);
    assert_eq!((m.x, m.v, m.a, m.f), (0.0, 1.0, 2.0, 3.0));
}

#[test]
fn motion_sub_undoes_add() {
    let a = motion(3.25, -7.5, 0.125, 42.0);
    let b = motion(1.0, 2.0, 4.0, 8.0);
    let back = (a + b) - b;
    assert_eq!((back.x, back.v, back.a, back.f), (a.x, a.v, a.a, a.f));
}
