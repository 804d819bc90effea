use blake2::{Blake2b512, Digest};
use eql_normalize::normalize::{normalize, Error, TokenizerFailure, TokenizerOutput, Variable};
use eql_normalize::scan::scan_vars;
use eql_normalize::serialize::serialize_tokens;
use eql_normalize::tokens::{Kind, Pos, Span, Token, Value};

fn pos(offset: u64) -> Pos {
    Pos {
        line: 1,
        column: offset + 1,
        offset,
    }
}

fn span_at(offset: u64) -> Span {
    Span {
        start: pos(offset),
        end: pos(offset + 1),
    }
}

fn tok_at(kind: Kind, text: &str, offset: u64) -> Token {
    Token {
        kind,
        text: text.to_string(),
        span: span_at(offset),
        value: None,
    }
}

fn tok(kind: Kind, text: &str) -> Token {
    tok_at(kind, text, 0)
}

fn kw(text: &str) -> Token {
    tok(Kind::Keyword, text)
}

fn ident(text: &str) -> Token {
    tok(Kind::Ident, text)
}

fn arg(text: &str) -> Token {
    tok(Kind::Argument, text)
}

fn int_tok(text: &str, v: i64) -> Token {
    Token {
        kind: Kind::IntConst,
        text: text.to_string(),
        span: span_at(0),
        value: Some(Value::Int(v)),
    }
}

/// The token sequence of `SELECT 1+1`.
fn select_1_plus_1() -> Vec<Token> {
    vec![
        kw("SELECT"),
        int_tok("1", 1),
        tok(Kind::Add, "+"),
        int_tok("1", 1),
    ]
}

fn ok_input(tokens: Vec<Token>) -> TokenizerOutput {
    TokenizerOutput {
        tokens: Ok(tokens),
        end_pos: pos(42),
    }
}

fn args(texts: &[&str]) -> Vec<Token> {
    texts.iter().map(|t| arg(t)).collect()
}

#[test]
fn none() {
    assert_eq!(scan_vars(&select_1_plus_1()).unwrap(), (false, 0));
}

#[test]
fn numeric() {
    assert_eq!(scan_vars(&args(&["$0", "$1", "$2"])).unwrap(), (false, 3));
    assert_eq!(scan_vars(&args(&["$2", "$3", "$2"])).unwrap(), (false, 4));
    assert_eq!(scan_vars(&args(&["$0", "$0", "$0"])).unwrap(), (false, 1));
    assert_eq!(scan_vars(&args(&["$10", "$100"])).unwrap(), (false, 101));
}

#[test]
fn named() {
    assert_eq!(scan_vars(&args(&["$a"])).unwrap(), (true, 1));
    assert_eq!(scan_vars(&args(&["$b", "$c", "$d"])).unwrap(), (true, 3));
    assert_eq!(scan_vars(&args(&["$b", "$c", "$b"])).unwrap(), (true, 2));
    assert_eq!(
        scan_vars(&args(&["$a", "$b", "$b", "$a", "$c", "$xx"])).unwrap(),
        (true, 4)
    );
}

#[test]
fn mixed() {
    assert_eq!(scan_vars(&args(&["$a", "$0"])), None);
    assert_eq!(scan_vars(&args(&["$0", "$a"])), None);
    assert_eq!(scan_vars(&args(&["$b", "$c", "$100"])), None);
    assert_eq!(scan_vars(&args(&["$10", "$xx", "$yy"])), None);
}

#[test]
fn end_to_end_select_1_plus_1() {
    let entry = normalize(ok_input(select_1_plus_1())).unwrap();
    assert_eq!(
        entry.processed_source,
        "SELECT(<__std__::int64>$0)+(<__std__::int64>$1)"
    );
    assert_eq!(
        entry.variables,
        vec![vec![
            Variable {
                value: Value::Int(1)
            },
            Variable {
                value: Value::Int(1)
            },
        ]]
    );
    assert!(!entry.named_args);
    assert_eq!(entry.first_arg, Some(0));
    assert_eq!(entry.end_pos, pos(42));
}

#[test]
fn digest_matches_blake2b512_of_processed_source() {
    let entry = normalize(ok_input(select_1_plus_1())).unwrap();
    let mut expected = [0u8; 64];
    expected.copy_from_slice(
        &Blake2b512::new_with_prefix(entry.processed_source.as_bytes()).finalize(),
    );
    assert_eq!(entry.hash, expected);
    let other = normalize(ok_input(vec![kw("SELECT"), int_tok("2", 2)])).unwrap();
    assert_ne!(entry.hash, other.hash);
}

#[test]
fn determinism() {
    let e1 = normalize(ok_input(select_1_plus_1())).unwrap();
    let e2 = normalize(ok_input(select_1_plus_1())).unwrap();
    assert_eq!(e1.hash, e2.hash);
    assert_eq!(e1.processed_source, e2.processed_source);
    assert_eq!(e1.variables, e2.variables);
}

#[test]
fn digest_stable_across_spans() {
    // The same tokens lexed from differently-spaced source: only the spans
    // differ, and the canonical text and digest agree.
    let spaced = vec![
        tok_at(Kind::Keyword, "SELECT", 0),
        tok_at(Kind::IntConst, "1", 9),
        tok_at(Kind::Add, "+", 12),
        tok_at(Kind::IntConst, "1", 15),
    ];
    let mut spaced = spaced;
    spaced[1].value = Some(Value::Int(1));
    spaced[3].value = Some(Value::Int(1));
    let e1 = normalize(ok_input(spaced)).unwrap();
    let e2 = normalize(ok_input(select_1_plus_1())).unwrap();
    assert_eq!(e1.processed_source, e2.processed_source);
    assert_eq!(e1.hash, e2.hash);
    assert_eq!(e1.variables, e2.variables);
}

#[test]
fn bypass_create() {
    let entry = normalize(ok_input(vec![kw("CREATE"), kw("TYPE"), ident("Foo")])).unwrap();
    assert_eq!(entry.processed_source, "CREATE TYPE Foo");
    assert!(entry.variables.is_empty());
    assert!(!entry.named_args);
    assert_eq!(entry.first_arg, None);
}

#[test]
fn bypass_is_case_insensitive() {
    let entry = normalize(ok_input(vec![kw("create"), ident("x")])).unwrap();
    assert!(entry.variables.is_empty());
    assert_eq!(entry.processed_source, "create x");
}

#[test]
fn bypass_set_global() {
    let entry = normalize(ok_input(vec![
        kw("SET"),
        kw("GLOBAL"),
        ident("conf"),
        tok(Kind::Assign, ":="),
        int_tok("5", 5),
    ]))
    .unwrap();
    assert_eq!(entry.processed_source, "SET GLOBAL conf:=5");
    assert!(entry.variables.is_empty());
    assert_eq!(entry.first_arg, None);
}

#[test]
fn set_without_global_still_extracts() {
    let entry = normalize(ok_input(vec![kw("SET"), ident("x"), int_tok("3", 3)])).unwrap();
    assert_eq!(entry.processed_source, "SET x(<__std__::int64>$0)");
    assert_eq!(
        entry.variables,
        vec![vec![Variable {
            value: Value::Int(3)
        }]]
    );
    assert_eq!(entry.first_arg, Some(0));
}

#[test]
fn tuple_access_is_kept() {
    let entry = normalize(ok_input(vec![
        ident("a"),
        tok(Kind::Dot, "."),
        int_tok("1", 1),
    ]))
    .unwrap();
    assert_eq!(entry.processed_source, "a.1");
    assert_eq!(entry.variables, vec![Vec::<Variable>::new()]);
    assert_eq!(entry.first_arg, None);
}

#[test]
fn limit_one_is_kept_but_limit_two_is_extracted() {
    let kept = normalize(ok_input(vec![
        kw("SELECT"),
        ident("foo"),
        kw("LIMIT"),
        int_tok("1", 1),
    ]))
    .unwrap();
    assert_eq!(kept.processed_source, "SELECT foo LIMIT 1");
    assert_eq!(kept.variables, vec![Vec::<Variable>::new()]);
    assert_eq!(kept.first_arg, None);

    let extracted = normalize(ok_input(vec![
        kw("SELECT"),
        ident("foo"),
        kw("lImIt"),
        int_tok("2", 2),
    ]))
    .unwrap();
    assert_eq!(
        extracted.processed_source,
        "SELECT foo lImIt(<__std__::int64>$0)"
    );
    assert_eq!(
        extracted.variables,
        vec![vec![Variable {
            value: Value::Int(2)
        }]]
    );
    assert_eq!(extracted.first_arg, Some(0));
}

#[test]
fn int64_boundary_literal_is_kept() {
    let entry = normalize(ok_input(vec![
        kw("SELECT"),
        tok(Kind::Sub, "-"),
        int_tok("9223372036854775808", 0),
    ]))
    .unwrap();
    assert_eq!(entry.processed_source, "SELECT-9223372036854775808");
    assert_eq!(entry.variables, vec![Vec::<Variable>::new()]);
    assert_eq!(entry.first_arg, None);
}

#[test]
fn statement_splitting_counts_nonfinal_separators() {
    let entry = normalize(ok_input(vec![
        kw("SELECT"),
        int_tok("1", 1),
        tok(Kind::Semicolon, ";"),
        kw("SELECT"),
        int_tok("2", 2),
        tok(Kind::Semicolon, ";"),
    ]))
    .unwrap();
    assert_eq!(entry.variables.len(), 2);
    assert_eq!(
        entry.variables[0],
        vec![Variable {
            value: Value::Int(1)
        }]
    );
    assert_eq!(
        entry.variables[1],
        vec![Variable {
            value: Value::Int(2)
        }]
    );
    assert_eq!(
        entry.processed_source,
        "SELECT(<__std__::int64>$0);SELECT(<__std__::int64>$1);"
    );
}

#[test]
fn named_style_synthesizes_named_parameters() {
    let entry = normalize(ok_input(vec![arg("$a"), int_tok("7", 7)])).unwrap();
    assert!(entry.named_args);
    assert_eq!(
        entry.processed_source,
        "$a(<__std__::int64>$__edb_arg_1)"
    );
    assert_eq!(entry.first_arg, Some(1));
    assert_eq!(
        entry.variables,
        vec![vec![Variable {
            value: Value::Int(7)
        }]]
    );
}

#[test]
fn mixed_styles_pass_through() {
    let entry = normalize(ok_input(vec![arg("$a"), arg("$0"), int_tok("5", 5)])).unwrap();
    assert_eq!(entry.processed_source, "$a$0 5");
    assert!(entry.variables.is_empty());
    assert!(!entry.named_args);
    assert_eq!(entry.first_arg, None);
}

#[test]
fn every_literal_kind_gets_its_type() {
    let entry = normalize(ok_input(vec![
        Token {
            kind: Kind::FloatConst,
            text: "1.5".to_string(),
            span: span_at(0),
            value: Some(Value::FloatBits(1.5f64.to_bits())),
        },
        tok(Kind::Comma, ","),
        Token {
            kind: Kind::BigIntConst,
            text: "10n".to_string(),
            span: span_at(4),
            value: Some(Value::BigInt("10".to_string())),
        },
        tok(Kind::Comma, ","),
        Token {
            kind: Kind::DecimalConst,
            text: "2.0n".to_string(),
            span: span_at(8),
            value: Some(Value::Decimal("2.0".to_string())),
        },
        tok(Kind::Comma, ","),
        Token {
            kind: Kind::Str,
            text: "'x'".to_string(),
            span: span_at(12),
            value: Some(Value::Str("x".to_string())),
        },
    ]))
    .unwrap();
    assert_eq!(
        entry.processed_source,
        "(<__std__::float64>$0),(<__std__::bigint>$1),(<__std__::decimal>$2),(<__std__::str>$3)"
    );
    assert_eq!(entry.variables.len(), 1);
    assert_eq!(entry.variables[0].len(), 4);
    assert_eq!(entry.first_arg, Some(0));
}

#[test]
fn tokenizer_failure_is_propagated() {
    let result = normalize(TokenizerOutput {
        tokens: Err(TokenizerFailure {
            message: "unexpected character".to_string(),
            span: span_at(7),
        }),
        end_pos: pos(7),
    });
    match result {
        Err(Error::Tokenizer(message, at)) => {
            assert_eq!(message, "unexpected character");
            assert_eq!(at, pos(7));
        }
        _ => panic!("expected a tokenizer error"),
    }
}

#[test]
fn serializer_spaces_only_between_words() {
    let text = serialize_tokens(&vec![
        ident("a"),
        tok(Kind::Comma, ","),
        ident("b"),
        ident("c"),
        tok(Kind::OpenParen, "("),
        ident("d"),
        tok(Kind::CloseParen, ")"),
    ]);
    assert_eq!(text, "a,b c(d)");
}

#[test]
fn scan_accepts_a_leading_plus_and_leading_zeros() {
    // The index parse follows the unsigned-integer grammar: an optional
    // `+`, then digits.
    assert_eq!(scan_vars(&args(&["$+5"])).unwrap(), (false, 6));
    assert_eq!(scan_vars(&args(&["$001"])).unwrap(), (false, 2));
}

#[test]
fn scan_treats_an_overflowing_index_as_a_name() {
    assert_eq!(
        scan_vars(&args(&["$99999999999999999999999999"])).unwrap(),
        (true, 1)
    );
}

#[test]
fn empty_input_yields_one_empty_statement() {
    let entry = normalize(ok_input(Vec::new())).unwrap();
    assert_eq!(entry.processed_source, "");
    assert_eq!(entry.variables, vec![Vec::<Variable>::new()]);
    assert_eq!(entry.first_arg, None);
    assert!(!entry.named_args);
}

#[test]
fn trailing_separator_adds_no_statement() {
    let entry = normalize(ok_input(vec![
        kw("SELECT"),
        int_tok("1", 1),
        tok(Kind::Semicolon, ";"),
    ]))
    .unwrap();
    assert_eq!(entry.variables.len(), 1);
}

#[test]
fn extraction_indices_start_after_existing_positionals() {
    let entry = normalize(ok_input(vec![arg("$0"), int_tok("5", 5)])).unwrap();
    assert_eq!(entry.processed_source, "$0(<__std__::int64>$1)");
    assert_eq!(entry.first_arg, Some(1));
}

#[test]
fn global_without_set_does_not_bypass() {
    let entry = normalize(ok_input(vec![kw("GLOBAL"), int_tok("5", 5)])).unwrap();
    assert_eq!(entry.processed_source, "GLOBAL(<__std__::int64>$0)");
    assert_eq!(entry.variables.len(), 1);
}

#[test]
fn set_lookback_survives_an_extracted_literal() {
    // The lookback flag is not cleared by an extracted token, so the
    // `GLOBAL` here still completes the `SET GLOBAL` idiom.
    let entry = normalize(ok_input(vec![kw("SET"), int_tok("5", 5), kw("GLOBAL")])).unwrap();
    assert_eq!(entry.processed_source, "SET 5 GLOBAL");
    assert!(entry.variables.is_empty());
    assert_eq!(entry.first_arg, None);
}

#[test]
fn all_admin_keywords_bypass() {
    for word in ["CONFIGURE", "CREATE", "ALTER", "DROP", "START", "ANALYZE"] {
        let entry = normalize(ok_input(vec![kw(word), int_tok("5", 5)])).unwrap();
        assert!(entry.variables.is_empty(), "{word} must bypass");
        assert_eq!(entry.first_arg, None);
    }
}
