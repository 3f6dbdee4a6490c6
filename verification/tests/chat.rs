use async_basics::chat::{is_white_space, line_for, parse_line, split_names, trim, Broker};

fn s(x: &str) -> String {
    x.to_string()
}

#[test]
fn white_space_is_what_a_trim_takes_off() {
    let mut u: u32 = 0;
    while u <= 0x10ffff {
        if let Some(c) = char::from_u32(u) {
            assert_eq!(is_white_space(c), c.is_whitespace(), "U+{:04X}", u);
        }
        u += 1;
    }
}

#[test]
fn trim_takes_white_space_off_both_ends() {
    assert_eq!(trim("  a b  "), "a b");
    assert_eq!(trim("a"), "a");
    assert_eq!(trim(""), "");
    assert_eq!(trim(" \t\r\n"), "");
    assert_eq!(trim("\u{a0}x\u{3000}"), "x");
    assert_eq!(trim("\u{2003}caf\u{e9} \u{4e2d}\u{2028}"), "caf\u{e9} \u{4e2d}");
    assert_eq!(trim("x "), "x");
    assert_eq!(trim(" x"), "x");
    assert_eq!(trim("\u{200b}x"), "\u{200b}x");
}

#[test]
fn trim_agrees_with_the_standard_trim() {
    let alphabet = [' ', 'a', '\t', '\u{e9}', '\n', ':', '\u{2009}', ','];
    let mut seed: u64 = 7;
    for _ in 0..300 {
        let mut text = String::new();
        seed = seed.wrapping_mul(6364136223846793005).wrapping_add(1442695040888963407);
        let len = (seed >> 60) as usize;
        for _ in 0..len {
            seed = seed.wrapping_mul(6364136223846793005).wrapping_add(1442695040888963407);
            text.push(alphabet[(seed >> 61) as usize]);
        }
        assert_eq!(trim(&text), text.trim(), "{:?}", text);
    }
}

#[test]
fn split_names_parts_at_commas_and_trims() {
    assert_eq!(split_names("alice, bob ,carol"), vec![s("alice"), s("bob"), s("carol")]);
    assert_eq!(split_names("alice"), vec![s("alice")]);
    assert_eq!(split_names(""), vec![s("")]);
    assert_eq!(split_names(","), vec![s(""), s("")]);
    assert_eq!(split_names("a,,b,"), vec![s("a"), s(""), s("b"), s("")]);
    assert_eq!(split_names(" , "), vec![s(""), s("")]);
    assert_eq!(split_names("\u{e9}l\u{e9}a , \u{4e2d}"), vec![s("\u{e9}l\u{e9}a"), s("\u{4e2d}")]);
}

#[test]
fn parse_line_reads_names_and_text() {
    assert_eq!(
        parse_line("alice, bob: hello there "),
        Some((vec![s("alice"), s("bob")], s("hello there")))
    );
    assert_eq!(parse_line("bob:hi"), Some((vec![s("bob")], s("hi"))));
    assert_eq!(parse_line("bob: a: b"), Some((vec![s("bob")], s("a: b"))));
    assert_eq!(parse_line(":"), Some((vec![s("")], s(""))));
    assert_eq!(parse_line(" : x"), Some((vec![s("")], s("x"))));
    assert_eq!(parse_line("a,b:"), Some((vec![s("a"), s("b")], s(""))));
    assert_eq!(parse_line("a:b,c"), Some((vec![s("a")], s("b,c"))));
}

#[test]
fn parse_line_without_a_colon_says_nothing() {
    assert_eq!(parse_line("hello"), None);
    assert_eq!(parse_line(""), None);
    assert_eq!(parse_line("alice, bob"), None);
    assert_eq!(parse_line("\u{ff1a}"), None);
}

#[test]
fn parse_line_agrees_with_find_split_and_trim() {
    let lines = ["a,b: c", "x", " p , q ,r :  text with, commas : and colons ", ",:,", "::"];
    for line in lines.iter() {
        let expected = line.find(':').map(|idx| {
            let dest: Vec<String> =
                line[..idx].split(',').map(|name| name.trim().to_string()).collect();
            (dest, line[idx + 1..].trim().to_string())
        });
        assert_eq!(parse_line(line), expected, "{:?}", line);
    }
}

#[test]
fn line_for_formats_a_message() {
    assert_eq!(line_for(&s("alice"), &s("hi bob")), "from alice: hi bob\n");
    assert_eq!(line_for(&s(""), &s("")), "from : \n");
}

#[test]
fn a_name_joins_once() {
    let mut b = Broker::new();
    assert_eq!(b.len(), 0);
    assert_eq!(b.new_peer(s("alice")), Some(0));
    assert_eq!(b.new_peer(s("bob")), Some(1));
    assert_eq!(b.new_peer(s("alice")), None);
    assert_eq!(b.new_peer(s("")), Some(2));
    assert_eq!(b.new_peer(s("")), None);
    assert_eq!(b.len(), 3);
    assert_eq!(b.find(&s("bob")), Some(1));
    assert_eq!(b.find(&s("carol")), None);
    assert_eq!(b.find(&s("Bob")), None);
}

#[test]
fn a_message_goes_to_the_named_peers_that_have_joined() {
    let mut b = Broker::new();
    b.new_peer(s("alice"));
    b.new_peer(s("bob"));
    b.new_peer(s("carol"));
    let out = b.message(&s("alice"), &vec![s("carol"), s("dave"), s("bob")], &s("hi"));
    assert_eq!(out, vec![(2, s("from alice: hi\n")), (1, s("from alice: hi\n"))]);
    let out = b.message(&s("bob"), &vec![s("dave")], &s("anyone?"));
    assert_eq!(out, Vec::<(usize, String)>::new());
    let out = b.message(&s("bob"), &vec![], &s("nobody"));
    assert_eq!(out, Vec::<(usize, String)>::new());
    let out = b.message(&s("carol"), &vec![s("bob"), s("bob")], &s("twice"));
    assert_eq!(out, vec![(1, s("from carol: twice\n")), (1, s("from carol: twice\n"))]);
    let out = b.message(&s("x"), &vec![s("alice")], &s("from a stranger"));
    assert_eq!(out, vec![(0, s("from x: from a stranger\n"))]);
}

#[test]
fn a_broker_without_peers_passes_nothing_on() {
    let b = Broker::new();
    assert_eq!(b.message(&s("a"), &vec![s("a"), s("b")], &s("m")), Vec::<(usize, String)>::new());
}
