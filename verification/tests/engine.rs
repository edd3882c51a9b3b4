use backoff_sequence::{BackoffSequence, Bounds, EngineState};

fn powers_of_ten(x: u64) -> u64 {
    10u64.pow(x as u32) - 1
}

fn triple(x: u64) -> u64 {
    3 * x
}

fn small_only(x: u64) -> u64 {
    if x > 3 {
        panic!("called beyond the third attempt");
    }
    powers_of_ten(x)
}

#[test]
fn yields_as_many_values_as_configured() {
    for n in [0u64, 1, 2, 7, 64] {
        let mut plain = BackoffSequence::new(&triple);
        plain.max_iterations(n);
        assert_eq!(plain.iter().collect().len() as u64, n);

        let mut floored = BackoffSequence::new(&triple);
        floored.max_iterations(n).min(100);
        assert_eq!(floored.iter().collect().len() as u64, n);

        let mut both = BackoffSequence::new(&triple);
        both.max_iterations(n).min(100).max(120);
        assert_eq!(both.iter().collect().len() as u64, n);
    }
}

#[test]
fn pulls_one_value_at_a_time() {
    let mut config = BackoffSequence::new(&triple);
    config.max_iterations(3);
    let mut pass = config.iter();
    assert_eq!(pass.next(), Some(3));
    assert_eq!(pass.next(), Some(6));
    assert_eq!(pass.next(), Some(9));
    assert_eq!(pass.next(), None);
    assert_eq!(pass.next(), None);
}

#[test]
fn exhausted_engine_stays_as_it_is() {
    let mut config = BackoffSequence::new(&triple);
    config.max_iterations(1);
    let mut pass = config.iter();
    assert_eq!(pass.next(), Some(3));
    assert_eq!(pass.next(), None);
    let state = pass.state();
    assert_eq!(state.iteration, 1);
    assert_eq!(state.max_iterations, Some(1));
    assert_eq!(state.current_value, Some(3));
    assert_eq!(pass.next(), None);
    assert_eq!(pass.state().iteration, 1);
}

#[test]
fn unbounded_engine_keeps_going() {
    let config = BackoffSequence::new(&triple);
    let mut pass = config.iter();
    for i in 1..=500u64 {
        assert_eq!(pass.next(), Some(3 * i));
    }
    assert_eq!(pass.state().iteration, 500);
    assert_eq!(pass.state().max_iterations, None);
}

#[test]
fn floor_skips_attempts_and_extends_the_bound() {
    let mut config = BackoffSequence::new(&powers_of_ten);
    config.max_iterations(4).min(1000);
    let mut pass = config.iter();
    assert_eq!(pass.state().iteration, 0);
    assert_eq!(pass.state().min_value, Some(1000));
    assert_eq!(pass.next(), Some(9999));
    let state = pass.state();
    assert_eq!(state.iteration, 4);
    assert_eq!(state.max_iterations, Some(7));
    assert_eq!(state.min_value, None);
    assert_eq!(state.current_value, Some(9999));
    assert_eq!(pass.collect(), vec![99999, 999999, 9999999]);
}

#[test]
fn floor_that_the_first_value_meets_skips_nothing() {
    let mut config = BackoffSequence::new(&powers_of_ten);
    config.max_iterations(2).min(9);
    let mut pass = config.iter();
    assert_eq!(pass.next(), Some(9));
    assert_eq!(pass.state().iteration, 1);
    assert_eq!(pass.state().max_iterations, Some(2));
    assert_eq!(pass.state().min_value, None);
    assert_eq!(pass.next(), Some(99));
    assert_eq!(pass.next(), None);
}

#[test]
fn floor_is_applied_only_once() {
    let wave = |x: u64| if x % 2 == 0 { 50u64 } else { 5u64 };
    let mut config = BackoffSequence::new(&wave);
    config.max_iterations(4).min(10);
    assert_eq!(config.iter().collect(), vec![50, 5, 50, 5]);
}

#[test]
fn floor_without_a_bound() {
    let mut config = BackoffSequence::new(&triple);
    config.min(10);
    let mut pass = config.iter();
    assert_eq!(pass.next(), Some(12));
    assert_eq!(pass.state().iteration, 4);
    assert_eq!(pass.state().max_iterations, None);
    assert_eq!(pass.next(), Some(15));
}

#[test]
fn value_equal_to_the_ceiling_is_kept_and_saturates() {
    let mut config = BackoffSequence::new(&powers_of_ten);
    config.max_iterations(4).max(99);
    assert_eq!(config.iter().collect(), vec![9, 99, 99, 99]);
}

#[test]
fn saturated_engine_calls_the_growth_function_no_more() {
    let mut config = BackoffSequence::new(&small_only);
    config.max_iterations(10).max(150);
    assert_eq!(
        config.iter().collect(),
        vec![9, 99, 150, 150, 150, 150, 150, 150, 150, 150]
    );
}

#[test]
fn saturated_engine_still_counts_attempts() {
    let mut config = BackoffSequence::new(&small_only);
    config.max_iterations(5).max(50);
    let mut pass = config.iter();
    assert_eq!(pass.next(), Some(9));
    assert_eq!(pass.next(), Some(50));
    assert_eq!(pass.state().current_value, Some(50));
    assert_eq!(pass.next(), Some(50));
    assert_eq!(pass.next(), Some(50));
    assert_eq!(pass.state().iteration, 4);
    assert_eq!(pass.next(), Some(50));
    assert_eq!(pass.next(), None);
}

#[test]
fn floor_above_ceiling_pins_every_value() {
    let mut config = BackoffSequence::new(&small_only);
    config.max_iterations(3).min(500).max(7);
    let mut pass = config.iter();
    assert_eq!(pass.next(), Some(7));
    assert_eq!(pass.state().iteration, 3);
    assert_eq!(pass.state().max_iterations, Some(5));
    assert_eq!(pass.collect(), vec![7, 7]);
}

#[test]
fn two_passes_of_one_configuration_agree() {
    let mut config = BackoffSequence::new(&powers_of_ten);
    config.max_iterations(4).min(10).max(10000);
    let first = config.iter().collect();
    let second = config.iter().collect();
    assert_eq!(first, vec![99, 999, 9999, 10000]);
    assert_eq!(first, second);
}

#[test]
fn two_passes_do_not_disturb_each_other() {
    let mut config = BackoffSequence::new(&triple);
    config.max_iterations(3);
    let mut first = config.iter();
    let mut second = config.iter();
    assert_eq!(first.next(), Some(3));
    assert_eq!(first.next(), Some(6));
    assert_eq!(second.next(), Some(3));
    assert_eq!(first.next(), Some(9));
    assert_eq!(second.next(), Some(6));
    assert_eq!(first.next(), None);
    assert_eq!(second.next(), Some(9));
    assert_eq!(second.next(), None);
    let bounds = config.bounds();
    assert_eq!(bounds.max_iterations, Some(3));
    assert_eq!(bounds.min_value, None);
    assert_eq!(bounds.max_value, None);
}

#[test]
fn later_setting_replaces_the_earlier_one() {
    let mut config = BackoffSequence::new(&triple);
    config.max_iterations(9).min(1).max(2);
    config.max_iterations(2).min(4).max(7);
    let Bounds { max_iterations, min_value, max_value } = config.bounds();
    assert_eq!(max_iterations, Some(2));
    assert_eq!(min_value, Some(4));
    assert_eq!(max_value, Some(7));
    assert_eq!(config.iter().collect(), vec![6, 7]);
}

#[test]
fn fresh_engine_has_the_bounds_of_its_configuration() {
    let mut config = BackoffSequence::new(&triple);
    config.max_iterations(8).min(4).max(70);
    let EngineState { iteration, max_iterations, current_value, min_value, max_value } =
        config.iter().state();
    assert_eq!(iteration, 0);
    assert_eq!(max_iterations, Some(8));
    assert_eq!(current_value, None);
    assert_eq!(min_value, Some(4));
    assert_eq!(max_value, Some(70));
}

#[test]
fn collects_what_is_left_of_a_pass() {
    let mut config = BackoffSequence::new(&triple);
    config.max_iterations(5);
    let mut pass = config.iter();
    assert_eq!(pass.next(), Some(3));
    assert_eq!(pass.next(), Some(6));
    assert_eq!(pass.collect(), vec![9, 12, 15]);
}

#[test]
fn clone_of_a_configuration_is_its_own() {
    let mut config = BackoffSequence::new(&triple);
    config.max_iterations(2);
    let mut copy = config.clone();
    copy.max_iterations(3).max(7);
    assert_eq!(config.iter().collect(), vec![3, 6]);
    assert_eq!(copy.iter().collect(), vec![3, 6, 7]);
}
