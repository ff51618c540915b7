use macrokid_graphics::attr_parse::{parse_string_entries, Tok};
use macrokid_graphics::schedule::{job_method_from_tokens, stage_decl_from_tokens};

fn id(s: &str) -> Tok {
    Tok::Ident(s.to_string())
}
fn eq() -> Tok {
    Tok::Punct('=')
}
fn comma() -> Tok {
    Tok::Punct(',')
}
fn lit(s: &str) -> Tok {
    Tok::Literal(s.to_string())
}

#[test]
fn string_entries_are_read_in_order() {
    let ts = vec![id("name"), eq(), lit("\"draw\""), comma(), id("after"), eq(), lit("r\"a, b\"")];
    let r = parse_string_entries(&ts);
    assert_eq!(r.entries, vec![("name".to_string(), "draw".to_string()), ("after".to_string(), "a, b".to_string())]);
    assert!(r.stop.is_none());
}

#[test]
fn string_entries_resolve_escapes_and_allow_missing_commas() {
    let ts = vec![id("a"), eq(), lit("\"x\\\"y\""), id("b"), eq(), lit("\"z\"")];
    let r = parse_string_entries(&ts);
    assert_eq!(r.entries, vec![("a".to_string(), "x\"y".to_string()), ("b".to_string(), "z".to_string())]);
}

#[test]
fn string_entries_stop_at_the_first_bad_entry() {
    let r = parse_string_entries(&vec![id("a"), eq(), lit("\"x\""), comma(), lit("\"y\"")]);
    assert_eq!(r.entries.len(), 1);
    let stop = r.stop.unwrap();
    assert_eq!(stop.key, None);
    assert_eq!(stop.message, "expected identifier");
    let r = parse_string_entries(&vec![id("a"), lit("\"x\"")]);
    assert_eq!(r.stop.unwrap().message, "expected `=`");
    let r = parse_string_entries(&vec![id("a"), eq(), lit("5")]);
    let stop = r.stop.unwrap();
    assert_eq!(stop.key, Some("a".to_string()));
    assert_eq!(stop.message, "expected string literal");
}

#[test]
fn stages_read_from_tokens() {
    let attrs = vec![vec![id("after"), eq(), lit("\"input, physics\"")], vec![id("name"), eq(), lit("\"render\"")]];
    let d = stage_decl_from_tokens(&attrs, Some("draw"), 2).unwrap();
    assert_eq!(d.name, "render");
    assert_eq!(d.after, vec!["input".to_string(), "physics".to_string()]);
    assert!(d.before.is_empty());
    let d = stage_decl_from_tokens(&vec![vec![]], None, 3).unwrap();
    assert_eq!(d.name, "stage3");
}

#[test]
fn stage_errors_come_in_reading_order() {
    let unknown_then_bad = vec![vec![id("color"), eq(), lit("\"red\""), id("name"), lit("\"x\"")]];
    assert_eq!(stage_decl_from_tokens(&unknown_then_bad, None, 0).unwrap_err(), "unknown key in #[stage(...)]");
    let bad = vec![vec![id("name"), eq(), lit("\"x\""), comma(), lit("\"y\"")]];
    assert_eq!(stage_decl_from_tokens(&bad, None, 0).unwrap_err(), "expected identifier");
}

#[test]
fn job_method_reads_tokens() {
    assert_eq!(job_method_from_tokens(&vec![]).unwrap(), "run");
    let attrs = vec![vec![id("method"), eq(), lit("\"first\"")], vec![id("method"), eq(), lit("\"go\"")]];
    assert_eq!(job_method_from_tokens(&attrs).unwrap(), "go");
    let unknown_key_bad_value = vec![vec![id("threads"), eq(), lit("4")]];
    assert_eq!(job_method_from_tokens(&unknown_key_bad_value).unwrap_err(), "unknown key in #[job(...)]");
    let bad_value = vec![vec![id("method"), eq(), lit("4")]];
    assert_eq!(job_method_from_tokens(&bad_value).unwrap_err(), "expected string literal");
}
