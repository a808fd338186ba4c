use rdbg::rpncalc::{eval, parse, Tok};

#[test]
fn evaluates_expressions() {
    // "10 3 - 2 * 1 +"  ==  (10 - 3) * 2 + 1  ==  15
    assert_eq!(rdbg::rpncalc::calc("10 3 - 2 * 1 +"), 15);
    // "100 5 / 3 -"     ==  (100 / 5) - 3     ==  17
    assert_eq!(rdbg::rpncalc::calc("100 5 / 3 -"), 17);
}

#[test]
fn division_rounds_towards_zero() {
    assert_eq!(rdbg::rpncalc::calc("7 2 /"), 3);
    assert_eq!(rdbg::rpncalc::calc("-7 2 /"), -3);
    assert_eq!(rdbg::rpncalc::calc("7 -2 /"), -3);
    assert_eq!(rdbg::rpncalc::calc("-7 -2 /"), 3);
    assert_eq!(rdbg::rpncalc::calc("-9223372036854775808 1 /"), i64::MIN);
    assert_eq!(rdbg::rpncalc::calc("-9223372036854775808 2 /"), -4611686018427387904);
}

#[test]
fn the_number_on_top_is_the_value() {
    assert_eq!(rdbg::rpncalc::calc("1 2 3"), 3);
    assert_eq!(rdbg::rpncalc::calc("  4   5  +  "), 9);
    assert_eq!(eval(&[Tok::Num(6), Tok::Num(2), Tok::Sub]), 4);
    assert_eq!(parse("1 + - * /").len(), 5);
}

#[test]
fn an_operator_takes_the_two_values_before_it() {
    // (3 * 4) - (10 / 5)
    assert_eq!(rdbg::rpncalc::calc("3 4 * 10 5 / -"), 12 - 2);
    assert_eq!(rdbg::rpncalc::calc("3 4 * 10 5 / +"), 12 + 2);
}
