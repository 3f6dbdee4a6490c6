use async_basics::parser::the_letter_a;

#[test]
fn it_works() {
    assert_eq!(2 + 2, 4);
}

#[test]
fn the_letter_a_takes_one_letter() {
    assert_eq!(the_letter_a("abc"), Ok(("bc", ())));
    assert_eq!(the_letter_a("a"), Ok(("", ())));
    assert_eq!(the_letter_a("aa"), Ok(("a", ())));
}

#[test]
fn the_letter_a_refuses_other_input() {
    assert_eq!(the_letter_a("bcd"), Err("bcd"));
    assert_eq!(the_letter_a(""), Err(""));
    assert_eq!(the_letter_a("A"), Err("A"));
    assert_eq!(the_letter_a("\u{e9}a"), Err("\u{e9}a"));
}

#[test]
fn the_letter_a_keeps_wide_letters_behind_it() {
    assert_eq!(the_letter_a("a\u{e9}\u{4e2d}"), Ok(("\u{e9}\u{4e2d}", ())));
}
