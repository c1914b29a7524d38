use mclib::signal::Delayer;

#[test]
fn test_delayer() {
    let mut delayer = Delayer::new(5);
    for i in 0..20 {
        let out = delayer.output(i);
        println!("{:?}, {:?}", i, out);
    }
}

#[test]
fn delayer_outputs_inputs_after_the_delay() {
    let mut delayer = Delayer::new(5);
    let mut outputs = Vec::new();
    for i in 1..=20 {
        outputs.push(delayer.output(i));
    }
    assert_eq!(&outputs[..5], &[0, 0, 0, 0, 0]);
    assert_eq!(outputs[5..].to_vec(), (1..=15).collect::<Vec<i32>>());
}

#[test]
fn delayer_of_one_sample() {
    let mut delayer = Delayer::new(1);
    assert_eq!(delayer.output(7.5f64), 0.0);
    assert_eq!(delayer.output(-1.0), 7.5);
    assert_eq!(delayer.output(2.0), -1.0);
}

#[test]
fn delayer_reset_refills_with_defaults() {
    let mut delayer = Delayer::new(3);
    for i in 1..=4 {
        delayer.output(i);
    }
    delayer.reset();
    assert_eq!(delayer.output(9), 0);
    assert_eq!(delayer.output(9), 0);
    assert_eq!(delayer.output(9), 0);
    assert_eq!(delayer.output(9), 9);
}
