use spread_sim_rocket::{calc_independent_ticks, check_padding};

#[test]
fn ind_ticks_7() {
    let ticks = calc_independent_ticks(7, 3, 5);
    assert_eq!(ticks, 1);
}

#[test]
fn ind_ticks_10() {
    let ticks = calc_independent_ticks(10, 3, 5);
    assert_eq!(ticks, 2);
}

#[test]
fn ind_ticks_15() {
    let ticks = calc_independent_ticks(15, 3, 5);
    assert_eq!(ticks, 3);
}

#[test]
fn ind_ticks_16() {
    let ticks = calc_independent_ticks(28, 2, 6);
    println!("{}", ticks);
    assert_eq!(ticks, 5);
}

#[test]
fn minimum_padding_gives_one_tick() {
    assert_eq!(calc_independent_ticks(5 + 2, 1, 5), 1);
    assert_eq!(calc_independent_ticks(0 + 2, 3, 0), 1);
}

#[test]
fn padding_gate_rejects_narrow_halo() {
    let err = check_padding(6, 5).unwrap_err();
    assert_eq!(err.padding, 6);
    let err = check_padding(0, 0).unwrap_err();
    assert_eq!(err.padding, 0);
    assert!(check_padding(7, 5).is_ok());
    assert!(check_padding(2, 0).is_ok());
}
