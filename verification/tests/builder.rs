use backoff_sequence::BackoffSequence;
use std::time::Duration;

#[allow(dead_code)]
fn double(x: u64) -> u64 {
    x * 2
}

fn base_2_exp_calculator(x: u64) -> u64 {
    2u64.pow(x as u32) - 1
}

#[test]
fn new_builder_with_function_ptr() {
    let f = &base_2_exp_calculator;
    let mut _x = BackoffSequence::new(f);
}

#[test]
fn new_builder_with_closure_ptr() {
    let f = &|x| 2u64.pow(x as u32);
    let mut _x = BackoffSequence::new(&f);
}

#[test]
fn new_builder_one_opt() {
    let f = &base_2_exp_calculator;
    let mut x = BackoffSequence::new(f);
    x.min(5);
}

#[test]
fn new_builder_all_opt() {
    let f = &base_2_exp_calculator;
    let mut x = BackoffSequence::new(f);
    x.min(5).max(1500).max_iterations(500);
}

#[test]
fn new_builder_duration() {
    let f = &|x| Duration::new(0, 2u32.pow(x as u32));

    let mut x = BackoffSequence::new(f);
    x.min(Duration::new(0, 5)).max(Duration::new(0, 1500)).max_iterations(500);
}

#[test]
fn max_iters_0() {
    let f = &|_| 0;
    let mut x = BackoffSequence::new(f);
    x.max_iterations(0);
    assert_eq!(0, x.into_iter().collect().len());
}

#[test]
fn max_iters_1() {
    let f = &|_| 0;
    let mut x = BackoffSequence::new(f);
    x.max_iterations(1);
    assert_eq!(1, x.into_iter().collect().len());
}

#[test]
fn max_iters_1000() {
    let f = &|_| 0;
    let mut x = BackoffSequence::new(f);
    x.max_iterations(1000);
    assert_eq!(1000, x.into_iter().collect().len());
}

#[test]
fn exponential() {
    let f = &base_2_exp_calculator;
    let v = BackoffSequence::new(f).max_iterations(15).into_iter().collect();
    assert_eq!(v,
               vec![1, 3, 7, 15, 31, 63, 127, 255, 511, 1023, 2047, 4095, 8191, 16383, 32767]);
}

#[test]
fn clamped() {
    let f = &|x| 10u64.pow(x as u32) - 1;
    let v = BackoffSequence::new(f)
        .max_iterations(4)
        .max(150)
        .into_iter()
        .collect();
    assert_eq!(v, vec![9, 99, 150, 150]);
}

#[test]
fn min_value() {
    let f = &|x| 10u64.pow(x as u32) - 1;
    let v = BackoffSequence::new(f)
        .max_iterations(4)
        .min(10)
        .into_iter()
        .collect();
    assert_eq!(v, vec![99, 999, 9999, 99999]);
}

#[test]
fn min_and_max_value() {
    let f = &|x| 10u64.pow(x as u32) - 1;
    let v = BackoffSequence::new(f)
        .max_iterations(4)
        .min(10)
        .max(10000)
        .into_iter()
        .collect();
    assert_eq!(v, vec![99, 999, 9999, 10000]);
}

#[test]
fn min_greater_than_max() {
    let f = &|x| 10u64.pow(x as u32) - 1;
    let v = BackoffSequence::new(f)
        .max_iterations(4)
        .min(10000)
        .max(100)
        .into_iter()
        .collect();
    assert_eq!(v, vec![100, 100, 100, 100]);
}
