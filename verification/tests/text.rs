use perfectionist::text::{
    chars_of, compare_chars, join_parts, push_decimal, split_path, string_of, trim_bounds, white_space, Order,
};

fn chars(s: &str) -> Vec<char> {
    s.chars().collect()
}

fn text(chars: &[char]) -> String {
    chars.iter().collect()
}

#[test]
fn split_then_join_gives_the_path_back() {
    for path in ["a::b::c", "::serde::prelude", "a", "", "a::::b", "a:b::", ":::x"] {
        let parts = split_path(&chars(path));
        let std_parts: Vec<String> = path.split("::").map(str::to_owned).collect();
        assert_eq!(parts.iter().map(|p| text(p)).collect::<Vec<_>>(), std_parts, "{path}");
        assert_eq!(text(&join_parts(&parts, &chars("::"))), path);
    }
}

#[test]
fn trimming_drops_white_space_at_both_ends() {
    for s in ["  a b  ", "\n\t,\u{a0}", "", "   ", "x"] {
        let c = chars(s);
        let (lo, hi) = trim_bounds(&c);
        assert_eq!(text(&c[lo..hi]), s.trim(), "{s:?}");
    }
    assert!(white_space('\u{3000}'));
    assert!(!white_space('\u{200b}'));
}

#[test]
fn decimals_are_written_in_full() {
    for n in [0usize, 7, 10, 501, 18446744073709551615] {
        let mut out = chars("n=");
        push_decimal(&mut out, n);
        assert_eq!(text(&out), format!("n={n}"));
    }
}

#[test]
fn texts_compare_as_str_does() {
    let pairs = [("a", "b"), ("ab", "a"), ("", ""), ("Z", "a"), ("abc", "abd"), ("é", "z")];
    for (a, b) in pairs {
        let expected = match a.cmp(b) {
            std::cmp::Ordering::Less => Order::Less,
            std::cmp::Ordering::Equal => Order::Equal,
            std::cmp::Ordering::Greater => Order::Greater,
        };
        assert_eq!(compare_chars(&chars(a), &chars(b)), expected, "{a} {b}");
    }
}

#[test]
fn characters_round_trip_through_a_string() {
    assert_eq!(chars_of("héllo"), chars("héllo"));
    assert!(chars_of("").is_empty());
    assert_eq!(string_of(&chars("héllo")), "héllo");
    assert_eq!(string_of(&[]), "");
    // Text built from characters comes back whole.
    let rooted = perfectionist::rules::named_prelude_imports::canonical::root_as_written("dép::ßx", true);
    assert_eq!(rooted, "::dép::ßx");
    assert_eq!(perfectionist::rules::named_prelude_imports::canonical_key(""), "");
}
