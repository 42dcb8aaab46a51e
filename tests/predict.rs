use symreg::guess::{guess, guess_number, probabilistic_guess, step_toward};

#[test]
fn predict_hidden_number_binary() {
    let target = 23;
    let result = guess(target);
    assert_eq!(result, target);
}

#[test]
fn guess_out_of_range_targets() {
    assert_eq!(guess(0), 0);
    assert_eq!(guess(99), 99);
    assert_eq!(guess(-7), 0);
    assert_eq!(guess(150), 100);
    assert_eq!(guess_number(|n| n.cmp(&42)), 42);
}

#[test]
fn probabilistic_prediction_close() {
    let target = 23;
    let result = probabilistic_guess(target, 42);
    assert!((result - target).abs() <= 5, "не попал в диапазон");
}

#[test]
fn probabilistic_guess_stays_in_range() {
    for seed in 0..50u64 {
        let r = probabilistic_guess(150, seed);
        assert!((0..=99).contains(&r));
        assert_eq!(probabilistic_guess(7, seed), probabilistic_guess(7, seed));
    }
    assert_eq!(step_toward(95, 120, 10), 99);
    assert_eq!(step_toward(3, -5, 10), 0);
    assert_eq!(step_toward(40, 23, 5), 35);
    assert_eq!(step_toward(20, 23, 2), 22);
}
