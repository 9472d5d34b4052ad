use abbs_update_checksum_core::parse_from_str;
use abbs_update_checksum_core::Context;

#[test]
fn strict_pairs_become_the_context() {
    let strict = Ok(vec![
        ("VER".to_string(), "1.0".to_string()),
        ("SRCS".to_string(), "https://a.example/x.tar".to_string()),
    ]);
    let ctx = parse_from_str("irrelevant", strict, false).unwrap();
    assert_eq!(ctx.get(&"VER".to_string()), Some(&"1.0".to_string()));
    assert_eq!(
        ctx.get(&"SRCS".to_string()),
        Some(&"https://a.example/x.tar".to_string())
    );
    assert_eq!(ctx.get(&"CHKSUMS".to_string()), None);
}

#[test]
fn strict_failure_without_fallback_keeps_messages() {
    let strict = Err((
        Vec::new(),
        vec!["unexpected token".to_string(), "unclosed quote".to_string()],
    ));
    let errs = parse_from_str("A=1", strict, false).unwrap_err();
    assert_eq!(
        errs.messages(),
        &vec!["unexpected token".to_string(), "unclosed quote".to_string()]
    );
}

#[test]
fn fallback_splits_lines_and_strips_quotes() {
    let text = "VER=1.0\nSRCS=\"https://a.example/x.tar\"\nnot a field\nEMPTY=";
    let strict = Err((Vec::new(), vec!["parse failed".to_string()]));
    let ctx = parse_from_str(text, strict, true).unwrap();
    assert_eq!(ctx.get(&"VER".to_string()), Some(&"1.0".to_string()));
    assert_eq!(
        ctx.get(&"SRCS".to_string()),
        Some(&"https://a.example/x.tar".to_string())
    );
    assert_eq!(ctx.get(&"EMPTY".to_string()), Some(&"".to_string()));
    assert_eq!(ctx.get(&"not a field".to_string()), None);
}

#[test]
fn fallback_runs_on_top_of_partial_pairs() {
    let text = "B=2";
    let strict = Err((
        vec![("A".to_string(), "1".to_string())],
        vec!["parse failed".to_string()],
    ));
    let ctx = parse_from_str(text, strict, true).unwrap();
    assert_eq!(ctx.get(&"A".to_string()), Some(&"1".to_string()));
    assert_eq!(ctx.get(&"B".to_string()), Some(&"2".to_string()));
}

#[test]
fn fallback_later_lines_win() {
    let text = "A=1\nA=2";
    let strict = Err((Vec::new(), Vec::new()));
    let ctx = parse_from_str(text, strict, true).unwrap();
    assert_eq!(ctx.get(&"A".to_string()), Some(&"2".to_string()));
}

#[test]
fn context_insert_overwrites_in_place() {
    let mut ctx = Context::new();
    ctx.insert("A".to_string(), "1".to_string());
    ctx.insert("B".to_string(), "2".to_string());
    ctx.insert("A".to_string(), "3".to_string());
    assert_eq!(ctx.get(&"A".to_string()), Some(&"3".to_string()));
    assert_eq!(ctx.get(&"B".to_string()), Some(&"2".to_string()));
}
