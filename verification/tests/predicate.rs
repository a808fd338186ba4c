use rdbg::decimal::{read_double, Double};
use rdbg::predicate::{parse_predicate, predicate_holds, value_part, Predicate};

fn pred(path: &str, op: &'static str, rhs: &str) -> Predicate {
    Predicate { path: path.into(), op, rhs: rhs.into() }
}

#[test]
fn predicates_parse_paths_ops_and_values() {
    assert_eq!(parse_predicate("sum >= 100").unwrap(), pred("sum", ">=", "100"));
    assert_eq!(parse_predicate("i==5").unwrap(), pred("i", "==", "5"));
    assert_eq!(parse_predicate("items[0].qty != 3").unwrap(), pred("items[0].qty", "!=", "3"));
    assert_eq!(parse_predicate("x <= -2").unwrap(), pred("x", "<=", "-2"));
    assert_eq!(parse_predicate("x < 2").unwrap(), pred("x", "<", "2"));
    assert_eq!(parse_predicate("done == true").unwrap(), pred("done", "==", "true"));
    assert_eq!(parse_predicate("name == \"bob\"").unwrap(), pred("name", "==", "\"bob\""));
}

#[test]
fn bad_predicates_are_rejected_with_the_expected_shape() {
    for bad in ["sum", "", ">= 100", "sum >=", "sum = 100", "a > > b"] {
        let e = parse_predicate(bad).unwrap_err();
        assert!(e.contains("<path> <op> <value>"), "{bad:?} -> {e}");
    }
}

#[test]
fn holds_compares_numbers_numerically_and_strings_by_equality() {
    // observed values come rendered as `type = value`
    assert!(predicate_holds("i64 = 5", ">=", "5"));
    assert!(predicate_holds("i64 = 5", "==", "5"));
    assert!(!predicate_holds("i64 = 4", ">=", "5"));
    assert!(predicate_holds("u32 = 10", ">", "9.5"));
    assert!(predicate_holds("i32 = -3", "<", "0"));
    assert!(predicate_holds("f64 = 2.5", "!=", "2"));
    // a bare value (no `type = ` prefix) works too
    assert!(predicate_holds("7", "<=", "7"));
    // bools and strings: equality, quotes stripped
    assert!(predicate_holds("bool = true", "==", "true"));
    assert!(predicate_holds("String = \"bob\"", "==", "bob"));
    assert!(predicate_holds("String = \"bob\"", "==", "\"bob\""));
    assert!(!predicate_holds("String = \"bob\"", "!=", "bob"));
    // ordering two non-numbers is never true
    assert!(!predicate_holds("String = \"b\"", ">", "a"));
    // evaluation failures never hold
    assert!(!predicate_holds("(cannot evaluate \"i\": error)", "==", "5"));
    assert!(!predicate_holds("(not stopped)", "!=", "5"));
}

#[test]
fn a_condition_shown_reads_as_itself() {
    for text in ["sum>=100", "a.b[3]   !=   \"x y\"", "x<-2", "  p == q  "] {
        let p = parse_predicate(text).unwrap();
        assert_eq!(parse_predicate(&p.show()).unwrap(), p);
    }
    assert_eq!(parse_predicate("sum>=100").unwrap().show(), "sum >= 100");
}

#[test]
fn values_are_what_follows_the_type() {
    assert_eq!(value_part("i64 = 5"), "5");
    assert_eq!(value_part("A = B = 7"), "B = 7");
    assert_eq!(value_part("plain"), "plain");
    assert_eq!(value_part("String = \"a = b\""), "\"a = b\"");
    assert_eq!(value_part("Iterator<Item = u32> = 3"), "3");
    assert_eq!(value_part("Iterator<Item = u32>"), "Iterator<Item = u32>");
    assert_eq!(value_part("Box<dyn Fn(u8) -> Vec<u8>> = 0x1 = 2"), "0x1 = 2");
    let cut = format!("{}<Item = ", "T".repeat(72));
    assert_eq!(cut.len(), 80);
    assert_eq!(value_part(&format!("{cut} = 4 = 5")), "4 = 5");
}

#[test]
fn a_value_is_compared_whole() {
    assert!(predicate_holds("String = \"a = b\"", "==", "a = b"));
    assert!(predicate_holds("String = \"a = b\"", "==", "\"a = b\""));
    assert!(predicate_holds("String = \"a = b\"", "!=", "b"));
    assert!(predicate_holds("Iterator<Item = u32> = 3", "<", "4"));
}

fn place(text: &str) -> i64 {
    match read_double(text) {
        Some(Double::Place(p)) => p,
        _ => panic!("{text} is no number"),
    }
}

#[test]
fn numbers_order_as_doubles_do() {
    let texts = [
        "-inf", "-1e308", "-2.5", "-1", "-0.1", "-5e-324", "0", "5e-324", "0.1", "0.3", "1", "9.5",
        "10", "9007199254740992", "9007199254740994", "1e308", "inf",
    ];
    for a in texts {
        for b in texts {
            let (x, y): (f64, f64) = (a.parse().unwrap(), b.parse().unwrap());
            assert_eq!(place(a) < place(b), x < y, "{a} < {b}");
            assert_eq!(place(a) == place(b), x == y, "{a} == {b}");
        }
    }
}

#[test]
fn numbers_round_to_the_nearest_double() {
    // between two doubles, ties to even
    assert_eq!(place("9007199254740993"), place("9007199254740992"));
    assert_eq!(place("9007199254740995"), place("9007199254740996"));
    assert_eq!(place("0.1"), place("0.1000000000000000055511151231257827"));
    assert_eq!(place("1e400"), place("inf"));
    assert_eq!(place("1e-400"), place("0"));
    assert_eq!(place("-0"), place("0"));
    assert_eq!(place("+3"), place("3.0"));
    assert_eq!(place(".5"), place("5e-1"));
    for bad in ["", ".", "e5", "1e", "0x10", "1_000", "1 ", "--1", "1e+", "in", "nano"] {
        assert!(read_double(bad).is_none(), "{bad:?}");
        assert!(bad.parse::<f64>().is_err(), "{bad:?}");
    }
    assert!(matches!(read_double("nan"), Some(Double::Nan)));
    assert!(predicate_holds("f64 = NaN", "!=", "NaN"));
    assert!(!predicate_holds("f64 = NaN", "==", "NaN"));
}
