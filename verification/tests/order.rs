use hal::order::{compare, Position};

#[test]
fn equal_strings_are_the_same() {
    assert_eq!(compare("", ""), Position::Same);
    assert_eq!(compare("self", "self"), Position::Same);
}

#[test]
fn a_prefix_comes_before() {
    assert_eq!(compare("", "a"), Position::Before);
    assert_eq!(compare("item", "items"), Position::Before);
    assert_eq!(compare("items", "item"), Position::After);
}

#[test]
fn the_first_difference_decides() {
    assert_eq!(compare("alpha", "zeta"), Position::Before);
    assert_eq!(compare("zeta", "alpha"), Position::After);
    assert_eq!(compare("abd", "abcz"), Position::After);
}

#[test]
fn capitals_come_before_small_letters() {
    assert_eq!(compare("Self", "self"), Position::Before);
    assert_eq!(compare("self", "Self"), Position::After);
}

#[test]
fn the_order_is_that_of_the_code_charts() {
    assert_eq!(compare("z", "\u{e9}"), Position::Before);
    assert_eq!(compare("\u{e9}", "\u{1f600}"), Position::Before);
    assert_eq!(compare("\u{ffff}", "\u{10000}"), Position::Before);
}

#[test]
fn agrees_with_the_order_of_str() {
    let samples = ["", "a", "A", "ab", "b", "self", "collection", "\u{e9}", "\u{1f600}", "~"];
    for a in samples {
        for b in samples {
            let expected = if a < b {
                Position::Before
            } else if a == b {
                Position::Same
            } else {
                Position::After
            };
            assert_eq!(compare(a, b), expected, "{:?} against {:?}", a, b);
        }
    }
}
