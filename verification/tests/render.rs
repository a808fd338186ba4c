use rdbg::render::{is_leaf_type, is_leaf_value, short_fn, short_type};

#[test]
fn shortens_module_paths() {
    assert_eq!(short_type("alloc::vec::Vec<demo::Item, alloc::alloc::Global>"), "Vec<Item>");
    assert_eq!(short_type("&str"), "&str");
    assert_eq!(short_type("core::option::Option<u32>"), "Option<u32>");
}

#[test]
fn type_names_are_kept() {
    assert_eq!(short_type("demo::GlobalState"), "GlobalState");
    assert_eq!(short_type("demo::Global"), "Global");
    assert_eq!(short_type("demo::Pair<demo::Global, u8>"), "Pair<Global, u8>");
    assert_eq!(
        short_type("alloc::vec::Vec<demo::GlobalState, alloc::alloc::Global>"),
        "Vec<GlobalState>"
    );
    assert_eq!(short_type("alloc::raw_vec::RawVecInner<alloc::alloc::Global>"), "RawVecInner<>");
    assert_eq!(short_type("é"), "é");
    assert_eq!(short_type("demo::Größe<demo::日本>"), "Größe<日本>");
    assert_eq!(short_type("é::B<größe::straße::C>"), "B<C>");
    assert_eq!(short_type("É::B"), "É::B");
    assert_eq!(short_type(&format!("demo::{}", "T".repeat(100))), "T".repeat(80));
}

#[test]
fn shortening_twice_is_shortening_once() {
    for t in [
        "alloc::vec::Vec<demo::Item>",
        " &core::option::Option<demo::a_b::C> ",
        "demo::Outer::Inner<demo::x::Y, u8>",
        "Result<(), core::fmt::Error>",
        "[u8; 3]",
        "",
    ] {
        let once = short_type(t);
        assert_eq!(short_type(&once), once);
    }
    assert_eq!(short_type(" &core::option::Option<demo::a_b::C> "), "&Option<C>");
    assert_eq!(short_type("demo::Outer::Inner<demo::x::Y, u8>"), "Outer::Inner<Y, u8>");
}

#[test]
fn demangles_symbols() {
    assert_eq!(short_fn("demo::total::h71bcff9653903dac"), "demo::total");
    assert_eq!(short_fn("main"), "main");
    assert!(short_fn("core::ops::FnMut$LT$Args$GT$").contains('<'));
}

#[test]
fn detects_leaves() {
    assert!(is_leaf_value("\"apple\""));
    assert!(is_leaf_value("3"));
    assert!(is_leaf_type("String"));
    assert!(is_leaf_type("u32"));
    assert!(!is_leaf_type("Item"));
}
