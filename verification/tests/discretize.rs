use mclib::discretize::bilinear_transform::DiscretizedSystem;
use mclib::TransferFunction;

#[test]
fn discretized_system_first_order_recursion() {
    // y[k] = 0.5 x[k] + 0.5 x[k-1] - (-0.5) y[k-1]
    let tf = TransferFunction::new(&[0.5, 0.5], &[1.0, -0.5]);
    let mut sys = DiscretizedSystem::from_tf_z(&tf);
    assert_eq!(sys.output, 0.0);
    assert_eq!(sys.update(1.0), 0.5);
    assert_eq!(sys.update(1.0), 1.25);
    assert_eq!(sys.update(1.0), 1.625);
    assert_eq!(sys.output, 1.625);
}

#[test]
fn discretized_system_pads_numerator_with_zeros() {
    // y[k] = x[k-1]: a one-sample delay
    let tf = TransferFunction::new(&[1i64], &[1, 0]);
    let mut sys = DiscretizedSystem::from_tf_z(&tf);
    let outs: Vec<i64> = [5, 6, 7, 8].iter().map(|&x| sys.update(x)).collect();
    assert_eq!(outs, vec![0, 5, 6, 7]);
}

#[test]
fn discretized_system_second_order_integer_recursion() {
    // numerator padded to [0, 0, 1]: y[k] = x[k-2] + y[k-1] + y[k-2],
    // Fibonacci numbers from a unit impulse, two samples late
    let tf = TransferFunction::new(&[1i64], &[1, -1, -1]);
    let mut sys = DiscretizedSystem::from_tf_z(&tf);
    let mut outs = vec![sys.update(1)];
    for _ in 0..9 {
        outs.push(sys.update(0));
    }
    assert_eq!(outs, vec![0, 0, 1, 1, 2, 3, 5, 8, 13, 21]);
}

#[test]
fn discretized_system_static_gain() {
    let tf = TransferFunction::new(&[3i64], &[1]);
    let mut sys = DiscretizedSystem::from_tf_z(&tf);
    assert_eq!(sys.update(2), 6);
    assert_eq!(sys.update(-4), -12);
}
