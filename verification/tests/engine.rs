use dwn::dwn::{get_funcs, get_variables, Environment, Metadata};
use dwn::lexer::{tokenize, Token, TokenModifiers, TokenTypes};
use dwn::numbers::{ArithOp, CmpOp, Numerics};
use dwn::runner::{run, run_tokens};
use dwn::Abort;

struct Doubles;

impl Numerics for Doubles {
    fn is_number(&self, s: &str) -> bool {
        s.parse::<f64>().is_ok()
    }

    fn binop(&self, op: ArithOp, a: &str, b: &str) -> (bool, String) {
        let x: f64 = a.parse().unwrap();
        let y: f64 = b.parse().unwrap();
        let r = match op {
            ArithOp::Add => x + y,
            ArithOp::Sub => x - y,
            ArithOp::Mul => x * y,
            ArithOp::Div => x / y,
        };
        if r.fract() == 0.0 {
            (true, (r as i64).to_string())
        } else {
            (false, r.to_string())
        }
    }

    fn compare(&self, op: CmpOp, a: &str, b: &str) -> bool {
        let x: f64 = a.parse().unwrap();
        let y: f64 = b.parse().unwrap();
        match op {
            CmpOp::Gt => x > y,
            CmpOp::Lt => x < y,
        }
    }
}

const FUEL: u32 = 10_000;

fn fresh() -> (Metadata, Environment) {
    (Metadata::new(0), Environment::new())
}

fn run_line(line: &str, meta: &mut Metadata, env: &mut Environment) -> Token {
    run(line.to_string(), meta, env, &Doubles, FUEL).expect("line should run")
}

fn arg_token(ty: TokenTypes, val: &str) -> Token {
    Token { ty, modifiers: vec![TokenModifiers::ARGS], val: val.to_string() }
}

#[test]
fn line_runner() {
    let (mut meta, mut env) = fresh();
    let none = run_line("say \"Hello World!\"", &mut meta, &mut env);
    assert_eq!(none.val, "None".to_string());
}

#[test]
fn tokenizer() {
    let (mut meta, env) = fresh();
    let tokens =
        tokenize("say \"Hello World\"".to_string(), &mut meta, &env, &Doubles, FUEL).unwrap();
    assert_eq!(
        tokens,
        vec![
            Token { ty: TokenTypes::FUNC, modifiers: vec![], val: "say".to_string() },
            Token {
                ty: TokenTypes::STRING,
                modifiers: vec![TokenModifiers::ARGS],
                val: "Hello World".to_string()
            },
        ]
    )
}

#[test]
fn sum_of_ints_is_int() {
    let (mut meta, mut env) = fresh();
    let tokens = vec![arg_token(TokenTypes::INT, "1"), arg_token(TokenTypes::INT, "2")];
    let r = dwn::dwn::sum(tokens, &mut meta, &mut env, &Doubles, FUEL).unwrap();
    assert_eq!(r.ty, TokenTypes::INT);
    assert_eq!(r.val, "3");
}

#[test]
fn sum_of_floats_with_whole_result_is_int() {
    let (mut meta, mut env) = fresh();
    let tokens = vec![arg_token(TokenTypes::FLOAT, "1.5"), arg_token(TokenTypes::FLOAT, "2.5")];
    let r = dwn::dwn::sum(tokens, &mut meta, &mut env, &Doubles, FUEL).unwrap();
    assert_eq!(r.ty, TokenTypes::INT);
    assert_eq!(r.val, "4");
}

#[test]
fn sum_with_fractional_result_is_float() {
    let (mut meta, mut env) = fresh();
    let tokens = vec![arg_token(TokenTypes::FLOAT, "1.5"), arg_token(TokenTypes::INT, "1")];
    let r = dwn::dwn::sum(tokens, &mut meta, &mut env, &Doubles, FUEL).unwrap();
    assert_eq!(r.ty, TokenTypes::FLOAT);
    assert_eq!(r.val, "2.5");
}

#[test]
fn quotient_follows_the_fractional_part() {
    let (mut meta, mut env) = fresh();
    let whole = vec![arg_token(TokenTypes::INT, "4"), arg_token(TokenTypes::INT, "2")];
    let r = dwn::dwn::quotient(whole, &mut meta, &mut env, &Doubles, FUEL).unwrap();
    assert_eq!((r.ty, r.val.as_str()), (TokenTypes::INT, "2"));
    let thirds = vec![arg_token(TokenTypes::INT, "1"), arg_token(TokenTypes::INT, "3")];
    let r = dwn::dwn::quotient(thirds, &mut meta, &mut env, &Doubles, FUEL).unwrap();
    assert_eq!(r.ty, TokenTypes::FLOAT);
}

#[test]
fn sum_rejects_strings() {
    let (mut meta, mut env) = fresh();
    let tokens = vec![arg_token(TokenTypes::STRING, "a"), arg_token(TokenTypes::INT, "2")];
    let r = dwn::dwn::sum(tokens, &mut meta, &mut env, &Doubles, FUEL);
    assert!(matches!(r, Err(Abort::Fatal(_))));
}

#[test]
fn infix_equality_of_ints() {
    let (mut meta, mut env) = fresh();
    let r = run_line("1 == 1", &mut meta, &mut env);
    assert_eq!((r.ty, r.val.as_str()), (TokenTypes::BOOL, "true"));
    let r = run_line("1 == 2", &mut meta, &mut env);
    assert_eq!((r.ty, r.val.as_str()), (TokenTypes::BOOL, "false"));
}

#[test]
fn strict_equality_needs_equal_kinds() {
    let (mut meta, mut env) = fresh();
    let tokens = vec![arg_token(TokenTypes::INT, "1"), arg_token(TokenTypes::STRING, "1")];
    let r = dwn::dwn::eq(tokens, &mut meta, &mut env, &Doubles, FUEL).unwrap();
    assert_eq!((r.ty, r.val.as_str()), (TokenTypes::BOOL, "false"));
    let tokens = vec![arg_token(TokenTypes::INT, "1"), arg_token(TokenTypes::STRING, "1")];
    let r = dwn::dwn::lazy_eq(tokens, &mut meta, &mut env, &Doubles, FUEL).unwrap();
    assert_eq!((r.ty, r.val.as_str()), (TokenTypes::BOOL, "true"));
}

#[test]
fn loop_re_evaluates_its_condition() {
    let (mut meta, mut env) = fresh();
    run_line("let $i = 0", &mut meta, &mut env);
    meta.line_count = 1;
    run_line("while ($i < 3) {", &mut meta, &mut env);
    meta.line_count = 2;
    run_line("\tsay $i", &mut meta, &mut env);
    meta.line_count = 3;
    run_line("\t$i += 1", &mut meta, &mut env);
    meta.line_count = 4;
    let r = run_line("}", &mut meta, &mut env);
    assert_eq!((r.ty, r.val.as_str()), (TokenTypes::NONE, "None"));
    let printed: Vec<&str> = meta.out.iter().map(|s| s.as_str()).collect();
    assert_eq!(printed, vec!["0 ", "\n", "1 ", "\n", "2 ", "\n"]);
}

#[test]
fn scope_sweeps_its_variables() {
    let (mut meta, mut env) = fresh();
    run_line("let $g = 7", &mut meta, &mut env);
    meta.line_count = 1;
    run_line("scope {", &mut meta, &mut env);
    meta.line_count = 2;
    run_line("\tlet $x = 1", &mut meta, &mut env);
    meta.line_count = 3;
    run_line("}", &mut meta, &mut env);
    assert!(!env.contains(&"$x".to_string()));
    // The global survives any number of nested scope cycles.
    meta.line_count = 4;
    run_line("scope {", &mut meta, &mut env);
    meta.line_count = 5;
    run_line("\tscope {", &mut meta, &mut env);
    meta.line_count = 6;
    run_line("\t\tlet $y = 2", &mut meta, &mut env);
    meta.line_count = 7;
    run_line("\t}", &mut meta, &mut env);
    meta.line_count = 8;
    run_line("}", &mut meta, &mut env);
    let g = env.lookup(&"$g".to_string()).expect("global must survive");
    assert_eq!(g.value.val, "7");
    assert_eq!(g.scope, 0);
    assert!(!env.contains(&"$y".to_string()));
}

#[test]
fn break_ends_only_the_innermost_loop() {
    let (mut meta, mut env) = fresh();
    run_line("let $i = 0", &mut meta, &mut env);
    meta.line_count = 1;
    run_line("while ($i < 2) {", &mut meta, &mut env);
    meta.line_count = 2;
    run_line("\tforever {", &mut meta, &mut env);
    meta.line_count = 3;
    run_line("\t\tbreak", &mut meta, &mut env);
    meta.line_count = 4;
    run_line("\t}", &mut meta, &mut env);
    meta.line_count = 5;
    run_line("\t$i += 1", &mut meta, &mut env);
    meta.line_count = 6;
    let r = run_line("}", &mut meta, &mut env);
    // The outer loop ran to completion: the inner break did not escape it.
    assert_eq!((r.ty, r.val.as_str()), (TokenTypes::NONE, "None"));
    let i = env.lookup(&"$i".to_string()).unwrap();
    assert_eq!(i.value.val, "2");
}

#[test]
fn array_indexing_and_bounds() {
    let (mut meta, mut env) = fresh();
    run_line("let $a = [1, 2, 3]", &mut meta, &mut env);
    meta.line_count = 1;
    let r = run_line("$a[1]", &mut meta, &mut env);
    assert_eq!((r.ty, r.val.as_str()), (TokenTypes::INT, "2"));
    meta.line_count = 2;
    let bad = run("$a[5]".to_string(), &mut meta, &mut env, &Doubles, FUEL);
    assert!(matches!(bad, Err(Abort::Fatal(_))));
}

#[test]
fn string_indexing_picks_a_character() {
    let (mut meta, mut env) = fresh();
    let r = run_line("$hello[1]", &mut meta, &mut env);
    assert_eq!((r.ty, r.val.as_str()), (TokenTypes::STRING, "e"));
}

#[test]
fn int_builtin_checks_the_text() {
    let (mut meta, mut env) = fresh();
    let ok = dwn::dwn::int_(
        vec![arg_token(TokenTypes::STRING, "12")],
        &mut meta,
        &mut env,
        &Doubles,
        FUEL,
    )
    .unwrap();
    assert_eq!((ok.ty, ok.val.as_str()), (TokenTypes::INT, "12"));
    let bad = dwn::dwn::int_(
        vec![arg_token(TokenTypes::STRING, "twelve")],
        &mut meta,
        &mut env,
        &Doubles,
        FUEL,
    );
    assert!(matches!(bad, Err(Abort::Fatal(_))));
}

#[test]
fn float_builtin_checks_the_text() {
    let (mut meta, mut env) = fresh();
    let ok = dwn::dwn::float(
        vec![arg_token(TokenTypes::STRING, "1.25")],
        &mut meta,
        &mut env,
        &Doubles,
        FUEL,
    )
    .unwrap();
    assert_eq!((ok.ty, ok.val.as_str()), (TokenTypes::FLOAT, "1.25"));
    let bad = dwn::dwn::float(
        vec![arg_token(TokenTypes::STRING, "one")],
        &mut meta,
        &mut env,
        &Doubles,
        FUEL,
    );
    assert!(matches!(bad, Err(Abort::Fatal(_))));
}

#[test]
fn quit_carries_the_exit_code() {
    let (mut meta, mut env) = fresh();
    let r = run("quit 3".to_string(), &mut meta, &mut env, &Doubles, FUEL);
    assert!(matches!(r, Err(Abort::Exit(3))));
    meta.line_count = 1;
    let r = run("exit".to_string(), &mut meta, &mut env, &Doubles, FUEL);
    assert!(matches!(r, Err(Abort::Exit(0))));
}

#[test]
fn unknown_function_is_fatal() {
    let (mut meta, mut env) = fresh();
    let head = Token { ty: TokenTypes::FUNC, modifiers: vec![], val: "frobnicate".to_string() };
    let r = run_tokens(vec![head], &mut meta, &mut env, &Doubles, FUEL);
    assert!(matches!(r, Err(Abort::Fatal(_))));
}

#[test]
fn unbound_variable_argument_is_fatal() {
    let (mut meta, mut env) = fresh();
    let tokens = vec![arg_token(TokenTypes::VARIABLE, "$missing")];
    let r = dwn::dwn::say(tokens, &mut meta, &mut env, &Doubles, FUEL);
    assert!(matches!(r, Err(Abort::Fatal(_))));
}

#[test]
fn nested_literal_evaluates_lazily() {
    let (mut meta, mut env) = fresh();
    let r = run_line("say (sum 1 2)", &mut meta, &mut env);
    assert_eq!(r.val, "None");
    let printed: Vec<&str> = meta.out.iter().map(|s| s.as_str()).collect();
    assert_eq!(printed, vec!["3 ", "\n"]);
}

#[test]
fn bytecode_round_trip_evaluates_alike() {
    let (mut meta, env) = fresh();
    let tokens =
        tokenize("say \"Hello World\"".to_string(), &mut meta, &env, &Doubles, FUEL).unwrap();
    let encoded = dwn::bytecode::encode_tokens(&tokens);
    let decoded = dwn::bytecode::decode_tokens(&encoded).unwrap();
    assert_eq!(tokens, decoded);
    let (mut meta_a, mut env_a) = fresh();
    let direct = run_tokens(tokens, &mut meta_a, &mut env_a, &Doubles, FUEL).unwrap();
    let (mut meta_b, mut env_b) = fresh();
    let via_codec = run_tokens(decoded, &mut meta_b, &mut env_b, &Doubles, FUEL).unwrap();
    assert_eq!(direct, via_codec);
    assert_eq!(meta_a.out, meta_b.out);
}

#[test]
fn bytecode_compile_registers_forward_names() {
    let mut env = Environment::new();
    let lines = vec!["let $n = 7".to_string(), "say $n".to_string()];
    let compiled = dwn::bytecode::bytec_lvl1(&lines, &mut env, &Doubles, FUEL).unwrap();
    let header: Vec<char> = compiled.chars().take(3).collect();
    assert_eq!(header, vec!['1', '\u{4}', '\n']);
    // The second line saw $n as a bound variable while compiling.
    let body: Vec<char> = compiled.chars().skip(3).collect();
    let chunks: Vec<Vec<char>> = body
        .split(|c| *c == '\u{3}')
        .map(|p| p.to_vec())
        .collect();
    let second = dwn::bytecode::decode_tokens(&chunks[1].to_vec()).unwrap();
    assert_eq!(second[1].ty, TokenTypes::VARIABLE);
    assert_eq!(second[1].val, "$n");
    // Running the compiled body prints the bound value.
    let mut env2 = Environment::new();
    dwn::bytecode::byterun_lvl1(&body.iter().collect::<String>(), &mut env2, &Doubles, FUEL)
        .unwrap();
}

#[test]
fn interpret_lines_runs_a_program() {
    let mut env = Environment::new();
    let lines = vec![
        "let $x = 2 ; a comment".to_string(),
        "$x += 3".to_string(),
        "say $x".to_string(),
    ];
    dwn::interpreter::interpret_lines(&lines, &mut env, &Doubles, FUEL).unwrap();
    let x = env.lookup(&"$x".to_string()).unwrap();
    assert_eq!((x.value.ty, x.value.val.as_str()), (TokenTypes::INT, "5"));
}

#[test]
fn preloaded_greeting_is_bound() {
    let env = Environment::new();
    let hello = env.lookup(&"$hello".to_string()).unwrap();
    assert_eq!(hello.value.val, "Hello, World!");
    assert_eq!(hello.value.ty, TokenTypes::STRING);
    assert_eq!(hello.scope, 0);
}

#[test]
fn function_table_lists_the_builtins() {
    let funcs = get_funcs();
    assert_eq!(funcs.len(), 30);
    assert!(funcs.contains(&"say".to_string()));
    assert!(funcs.contains(&"exit".to_string()));
    let env = Environment::new();
    let vars = get_variables(&env);
    assert_eq!(vars.len(), 1);
    assert_eq!(vars[0].0, "$hello");
}

#[test]
fn compound_assignment_keeps_the_depth() {
    let (mut meta, mut env) = fresh();
    run_line("let $n = 1", &mut meta, &mut env);
    let before = env.lookup(&"$n".to_string()).unwrap().scope;
    meta.line_count = 1;
    run_line("$n *= 6", &mut meta, &mut env);
    let var = env.lookup(&"$n".to_string()).unwrap();
    assert_eq!(var.value.val, "6");
    assert_eq!(var.scope, before);
}

#[test]
fn short_say_keeps_the_line_open() {
    let (mut meta, mut env) = fresh();
    let r = dwn::dwn::short_say(
        vec![arg_token(TokenTypes::STRING, "hi")],
        &mut meta,
        &mut env,
        &Doubles,
        FUEL,
    )
    .unwrap();
    assert_eq!(r.val, "None");
    let printed: Vec<&str> = meta.out.iter().map(|s| s.as_str()).collect();
    assert_eq!(printed, vec!["hi "]);
}

#[test]
fn numeric_comparisons_order_as_doubles() {
    let (mut meta, mut env) = fresh();
    let r = run_line("3 > 2", &mut meta, &mut env);
    assert_eq!((r.ty, r.val.as_str()), (TokenTypes::BOOL, "true"));
    let r = run_line("3 < 2", &mut meta, &mut env);
    assert_eq!((r.ty, r.val.as_str()), (TokenTypes::BOOL, "false"));
    let r = run_line("2.5 < 2.75", &mut meta, &mut env);
    assert_eq!((r.ty, r.val.as_str()), (TokenTypes::BOOL, "true"));
    let bad = vec![arg_token(TokenTypes::STRING, "a"), arg_token(TokenTypes::INT, "1")];
    let r = dwn::dwn::gt(bad, &mut meta, &mut env, &Doubles, FUEL);
    assert!(matches!(r, Err(Abort::Fatal(_))));
}

#[test]
fn until_runs_until_the_condition_holds() {
    let (mut meta, mut env) = fresh();
    run_line("let $i = 0", &mut meta, &mut env);
    meta.line_count = 1;
    run_line("until ($i == 3) {", &mut meta, &mut env);
    meta.line_count = 2;
    run_line("\t$i += 1", &mut meta, &mut env);
    meta.line_count = 3;
    let r = run_line("}", &mut meta, &mut env);
    assert_eq!((r.ty, r.val.as_str()), (TokenTypes::NONE, "None"));
    let i = env.lookup(&"$i".to_string()).unwrap();
    assert_eq!(i.value.val, "3");
}

#[test]
fn scope_forwards_the_blocks_result() {
    let (mut meta, mut env) = fresh();
    run_line("scope {", &mut meta, &mut env);
    meta.line_count = 1;
    run_line("\t5", &mut meta, &mut env);
    meta.line_count = 2;
    let r = run_line("}", &mut meta, &mut env);
    assert_eq!((r.ty, r.val.as_str()), (TokenTypes::INT, "5"));
}

#[test]
fn if_respects_its_condition() {
    let (mut meta, mut env) = fresh();
    run_line("if false {", &mut meta, &mut env);
    meta.line_count = 1;
    run_line("\tsay \"skipped\"", &mut meta, &mut env);
    meta.line_count = 2;
    let r = run_line("}", &mut meta, &mut env);
    assert_eq!((r.ty, r.val.as_str()), (TokenTypes::NONE, "None"));
    assert!(meta.out.is_empty());
    meta.line_count = 3;
    run_line("if true {", &mut meta, &mut env);
    meta.line_count = 4;
    run_line("\tsay \"ran\"", &mut meta, &mut env);
    meta.line_count = 5;
    run_line("}", &mut meta, &mut env);
    assert_eq!(meta.out[0], "ran ");
}

#[test]
fn create_var_rejects_none_as_a_name() {
    let (mut meta, mut env) = fresh();
    let tokens = vec![arg_token(TokenTypes::NONE, "None"), arg_token(TokenTypes::INT, "1")];
    let r = dwn::dwn::create_var(tokens, &mut meta, &mut env, &Doubles, FUEL);
    assert!(matches!(r, Err(Abort::Fatal(_))));
}

#[test]
fn loop_condition_must_be_bool() {
    let (mut meta, mut env) = fresh();
    let tokens = vec![arg_token(TokenTypes::INT, "1"), arg_token(TokenTypes::SCOPE, "")];
    let r = dwn::dwn::while_(tokens, &mut meta, &mut env, &Doubles, FUEL);
    assert!(matches!(r, Err(Abort::Fatal(_))));
}

#[test]
fn vars_lists_every_binding() {
    let (mut meta, mut env) = fresh();
    let r = dwn::dwn::vars(vec![], &mut meta, &mut env, &Doubles, FUEL).unwrap();
    assert_eq!(r.val, "None");
    let printed: Vec<&str> = meta.out.iter().map(|s| s.as_str()).collect();
    assert_eq!(printed, vec!["$hello: <STRING>Hello, World!\n"]);
}

#[test]
fn format_array_prints_each_item() {
    let (mut meta, mut env) = fresh();
    run_line("let $a = [1, 2]", &mut meta, &mut env);
    meta.line_count = 1;
    let r = run_line("format_array $a", &mut meta, &mut env);
    assert_eq!(r.val, "None");
    let n = meta.out.len();
    assert_eq!(meta.out[n - 2], "1\n");
    assert_eq!(meta.out[n - 1], "2\n");
}

#[test]
fn scope_body_must_be_indented_with_tabs() {
    let (mut meta, mut env) = fresh();
    run_line("scope {", &mut meta, &mut env);
    meta.line_count = 1;
    let r = run("say 1".to_string(), &mut meta, &mut env, &Doubles, FUEL);
    assert!(matches!(r, Err(Abort::Fatal(_))));
}

#[test]
fn closing_a_scope_needs_an_opening_call() {
    let (mut meta, mut env) = fresh();
    // A line holding only `{` snapshots an empty prefix: no function is
    // there to run the scope when it closes.
    run_line("{", &mut meta, &mut env);
    meta.line_count = 1;
    let r = run("}".to_string(), &mut meta, &mut env, &Doubles, FUEL);
    assert!(matches!(r, Err(Abort::Fatal(_))));
}

#[test]
fn an_endless_loop_exhausts_the_budget() {
    let (mut meta, mut env) = fresh();
    let tokens = vec![arg_token(TokenTypes::SCOPE, "")];
    let r = dwn::dwn::forever(tokens, &mut meta, &mut env, &Doubles, 3);
    assert!(matches!(r, Err(Abort::Budget)));
}

#[test]
fn an_operator_needs_a_left_operand() {
    let (mut meta, mut env) = fresh();
    let r = run("+ 1".to_string(), &mut meta, &mut env, &Doubles, FUEL);
    assert!(matches!(r, Err(Abort::Fatal(_))));
}

#[test]
fn an_unresolved_name_is_fatal() {
    let (mut meta, mut env) = fresh();
    let r = run("say bogus".to_string(), &mut meta, &mut env, &Doubles, FUEL);
    assert!(matches!(r, Err(Abort::Fatal(_))));
}

#[test]
fn a_bare_number_lexes_to_one_int_token() {
    let (mut meta, env) = fresh();
    let tokens = tokenize("-42".to_string(), &mut meta, &env, &Doubles, FUEL).unwrap();
    assert_eq!(
        tokens,
        vec![Token { ty: TokenTypes::INT, modifiers: vec![], val: "-42".to_string() }]
    );
}

#[test]
fn a_bare_variable_lexes_to_one_variable_token() {
    let (mut meta, env) = fresh();
    let tokens = tokenize("$hello".to_string(), &mut meta, &env, &Doubles, FUEL).unwrap();
    assert_eq!(
        tokens,
        vec![Token { ty: TokenTypes::VARIABLE, modifiers: vec![], val: "$hello".to_string() }]
    );
}

#[test]
fn division_by_zero_follows_double_semantics() {
    let (mut meta, mut env) = fresh();
    let tokens = vec![arg_token(TokenTypes::INT, "1"), arg_token(TokenTypes::INT, "0")];
    let r = dwn::dwn::quotient(tokens, &mut meta, &mut env, &Doubles, FUEL).unwrap();
    assert_eq!(r.ty, TokenTypes::FLOAT);
    assert_eq!(r.val, "inf");
}

#[test]
fn infix_arithmetic_runs_end_to_end() {
    let (mut meta, mut env) = fresh();
    let r = run_line("1 + 2", &mut meta, &mut env);
    assert_eq!((r.ty, r.val.as_str()), (TokenTypes::INT, "3"));
}

#[test]
fn an_operator_without_operands_is_fatal() {
    let (mut meta, mut env) = fresh();
    for op in ["==", "lazy!=", "<", "*", "/="] {
        let r = run(op.to_string(), &mut meta, &mut env, &Doubles, FUEL);
        assert!(matches!(r, Err(Abort::Fatal(_))), "on {:?}", op);
    }
}

#[test]
fn a_lone_break_yields_the_sentinel() {
    let (mut meta, mut env) = fresh();
    let r = run_line("break", &mut meta, &mut env);
    assert_eq!((r.ty, r.val.as_str()), (TokenTypes::FUNC, "break"));
    assert!(r.modifiers.is_empty());
}

#[test]
fn a_false_loop_condition_stops_at_once() {
    let (mut meta, mut env) = fresh();
    let cond = Token { ty: TokenTypes::BOOL, modifiers: vec![TokenModifiers::ARGS], val: "false".to_string() };
    let body = Token { ty: TokenTypes::SCOPE, modifiers: vec![TokenModifiers::ARGS], val: "say 1\n".to_string() };
    let r = dwn::dwn::while_(vec![cond, body], &mut meta, &mut env, &Doubles, FUEL).unwrap();
    assert_eq!((r.ty, r.val.as_str()), (TokenTypes::NONE, "None"));
    assert!(meta.out.is_empty());
}

#[test]
fn fatal_messages_carry_the_line_number() {
    let (mut meta, mut env) = fresh();
    meta.line_count = 4;
    let r = run("say bogus".to_string(), &mut meta, &mut env, &Doubles, FUEL);
    match r {
        Err(Abort::Fatal(m)) => assert_eq!(m, "Error on line 5: Name 'bogus' does not exist!"),
        other => panic!("expected a fatal abort, got {:?}", other),
    }
}
