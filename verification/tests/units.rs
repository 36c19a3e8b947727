use dwn::argparser::argparse;
use dwn::dwn::Environment;
use dwn::lexer::{Token, TokenTypes};
use dwn::numbers::{dec_string, parse_i64, parse_usize};
use dwn::Abort;

#[test]
fn removing_all_after() {
    let new = dwn::bytecode::remove_all_after("say \"Hello!\" ; abcdefghij...".to_string(), ';');
    assert_eq!(new, "say \"Hello!\" ".to_string());
}

#[test]
fn interpreter_removing_all_after() {
    let new =
        dwn::interpreter::remove_all_after("say \"Hello!\" ; abcdefghij...".to_string(), ';');
    assert_eq!(new, "say \"Hello!\" ".to_string());
}

#[test]
fn argument_parser() {
    let args = argparse(vec![
        "klein".to_string(),
        "--c-c-c".to_string(),
        "-dd".to_string(),
        "cey".to_string(),
        "--level=1".to_string(),
    ]);

    let variables_assert = vec![("level".to_string(), "1".to_string())];

    assert_eq!(args.command, "klein".to_string());
    assert_eq!(args.arguments, vec!["cey".to_string()]);
    assert_eq!(
        args.options,
        vec!["c".to_string(), "c".to_string(), "c".to_string()]
    );
    assert_eq!(args.flags, vec!["d".to_string(), "d".to_string()]);
    assert_eq!(args.variables, variables_assert);
}

#[test]
fn integer_parsing_matches_std() {
    for text in ["0", "42", "-7", "+13", "007", "9223372036854775807",
        "-9223372036854775808", "9223372036854775808", "12a", "", "-", "+", " 3"]
    {
        let chars: Vec<char> = text.chars().collect();
        assert_eq!(parse_i64(&chars), text.parse::<i64>().ok(), "on {:?}", text);
    }
    for text in ["0", "5", "+5", "-5", "x"] {
        let chars: Vec<char> = text.chars().collect();
        assert_eq!(parse_usize(&chars), text.parse::<usize>().ok(), "on {:?}", text);
    }
}

#[test]
fn decimal_printing_matches_std() {
    for n in [0usize, 7, 10, 12345, usize::MAX] {
        assert_eq!(dec_string(n), n.to_string());
    }
}

#[test]
fn encoded_token_bytes_are_exact() {
    let t = Token { ty: TokenTypes::INT, modifiers: vec![], val: "7".to_string() };
    let encoded = dwn::bytecode::encode_tokens(&vec![t]);
    let expect: Vec<char> = vec!['i', '\u{0}', '\u{0}', '7', '\u{2}'];
    assert_eq!(encoded, expect);
}

#[test]
fn decoding_a_bad_mnemonic_is_fatal() {
    let bad: Vec<char> = vec!['z', 'z', '\u{0}', '\u{0}', 'x', '\u{2}'];
    let r = dwn::bytecode::decode_tokens(&bad);
    assert!(matches!(r, Err(Abort::Fatal(_))));
}

#[test]
fn decoding_ignores_text_after_the_last_separator() {
    let bytes: Vec<char> = vec!['i', '\u{0}', '\u{0}', '7', '\u{2}', 'g', 'a', 'r', 'b'];
    let tokens = dwn::bytecode::decode_tokens(&bytes).unwrap();
    assert_eq!(tokens.len(), 1);
    assert_eq!((tokens[0].ty, tokens[0].val.as_str()), (TokenTypes::INT, "7"));
}

#[test]
fn bytecode_level_reads_the_header() {
    assert_eq!(dwn::bytecode::bytecode_level(&"1\u{4}\n".to_string()).unwrap(), 1);
    assert_eq!(dwn::bytecode::bytecode_level(&"12\u{4}".to_string()).unwrap(), 12);
    assert!(matches!(
        dwn::bytecode::bytecode_level(&"x\u{4}\n".to_string()),
        Err(Abort::Fatal(_))
    ));
}

#[test]
fn level_choice_accepts_latest() {
    assert_eq!(dwn::bytecode::choose_level(None).unwrap(), 1);
    assert_eq!(dwn::bytecode::choose_level(Some("LaTeSt".to_string())).unwrap(), 1);
    assert_eq!(dwn::bytecode::choose_level(Some("2".to_string())).unwrap(), 2);
    assert!(matches!(
        dwn::bytecode::choose_level(Some("two".to_string())),
        Err(Abort::Fatal(_))
    ));
}

#[test]
fn light_path_swaps_the_extension() {
    assert_eq!(dwn::bytecode::light_path(&"program.dwn".to_string()), "program.light");
    assert_eq!(dwn::bytecode::light_path(&"a.b.dwn".to_string()), "a.b.light");
    assert_eq!(dwn::bytecode::light_path(&"bare".to_string()), ".light");
}

#[test]
fn framework_listing_names_everything() {
    let env = Environment::new();
    let text = dwn::framework::framework_text(&env);
    assert!(text.starts_with("funcs:\nsay\nshort_say\n"));
    assert!(text.contains("\nexit\n;\nvars:\n$hello\n;\n"));
    assert!(text.ends_with("keywordOther:\nlet\n;\n"));
}

#[test]
fn environment_insert_and_sweep() {
    let mut env = Environment::new();
    env.set(
        "$a".to_string(),
        dwn::dwn::Variable {
            value: Token { ty: TokenTypes::INT, modifiers: vec![], val: "1".to_string() },
            scope: 1,
        },
    );
    env.set(
        "$b".to_string(),
        dwn::dwn::Variable {
            value: Token { ty: TokenTypes::INT, modifiers: vec![], val: "2".to_string() },
            scope: 2,
        },
    );
    assert!(env.contains(&"$a".to_string()));
    env.sweep(1);
    assert!(!env.contains(&"$a".to_string()));
    assert!(env.contains(&"$b".to_string()));
    assert!(env.contains(&"$hello".to_string()));
}
