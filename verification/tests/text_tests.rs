use macrokid_graphics::text::{parse_u32, split, string_of, to_lower, to_upper, trim};

fn chars(s: &str) -> Vec<char> {
    s.chars().collect()
}

#[test]
fn trim_and_case() {
    assert_eq!(trim(&chars("\t a b \n")), chars("a b"));
    assert_eq!(trim(&chars("   ")), chars(""));
    assert_eq!(to_lower('Q'), 'q');
    assert_eq!(to_upper('q'), 'Q');
    assert_eq!(to_lower('é'), 'é');
}

#[test]
fn split_keeps_empty_pieces() {
    let p = split(&chars("a,,b"), &[',']);
    assert_eq!(p, vec![chars("a"), chars(""), chars("b")]);
    assert_eq!(split(&chars(""), &[',']), vec![chars("")]);
}

#[test]
fn u32_parsing_matches_from_str() {
    for s in ["0", "42", "+7", "4294967295", "4294967296", "-1", "", "+", "1_0", " 1"] {
        assert_eq!(parse_u32(&chars(s)), s.parse::<u32>().ok(), "{}", s);
    }
    assert_eq!(string_of(&chars("héllo")), "héllo");
}
