//! The token data model shared by the lexer, the evaluator and the bytecode
//! codec, and the lexer itself: one logical source line in, an ordered token
//! list out.

use vstd::prelude::*;

use crate::Abort;
use crate::dwn::{Environment, Metadata, is_builtin};
use crate::numbers::{Numerics, parse_i64, parse_usize};
use crate::text::{
    chars_of, drop_first_char, drop_last_char, ends_with, push_all, split_chars, starts_with,
    string_of, sub_chars, trim_chars, word_is,
};

verus! {

/// The token types.
#[derive(Clone, Copy, Debug, PartialEq, Eq, Structural)]
pub enum TokenTypes {
    VARIABLE,
    FUNC,
    CUSTOMFUNC,
    STRING,
    LITERAL,
    INT,
    FLOAT,
    NAME,
    SCOPE,
    NONE,
    BOOL,
    ARRAY,
}

/// The token modifiers. `ARGS` marks a token as a consumed argument of the
/// function or operator token before it.
#[derive(Clone, Copy, Debug, PartialEq, Eq, Structural)]
pub enum TokenModifiers {
    ARGS,
}

/// The token struct: a kind, a modifier list, and the payload held as text.
#[derive(Debug, Clone, PartialEq)]
pub struct Token {
    pub ty: TokenTypes,
    pub modifiers: Vec<TokenModifiers>,
    pub val: String,
}

/// The mathematical value of a [`Token`].
#[verifier::ext_equal]
pub struct TokenV {
    pub ty: TokenTypes,
    pub modifiers: Seq<TokenModifiers>,
    pub val: Seq<char>,
}

impl View for Token {
    type V = TokenV;

    open spec fn view(&self) -> TokenV {
        TokenV { ty: self.ty, modifiers: self.modifiers@, val: self.val@ }
    }
}

/// The values of a list of tokens.
pub open spec fn views_of(ts: Seq<Token>) -> Seq<TokenV> {
    ts.map_values(|t: Token| t@)
}

/// The value of a token of kind `ty` holding the text `val`, marked as an
/// argument when `args` is set.
pub open spec fn token_v(ty: TokenTypes, args: bool, val: Seq<char>) -> TokenV {
    TokenV {
        ty,
        modifiers: if args {
            seq![TokenModifiers::ARGS]
        } else {
            Seq::empty()
        },
        val,
    }
}

/// The `None` result token.
pub open spec fn none_v() -> TokenV {
    token_v(TokenTypes::NONE, false, "None"@)
}

/// The break sentinel: the token the zero-argument `break` builtin returns,
/// which scope execution recognizes and loops consume.
pub open spec fn break_v() -> TokenV {
    token_v(TokenTypes::FUNC, false, "break"@)
}

/// Builds a token from a kind, an argument mark, and its text.
pub fn mk_token(ty: TokenTypes, args: bool, val: String) -> (r: Token)
    ensures
        r@ == token_v(ty, args, val@),
{
    let mut modifiers: Vec<TokenModifiers> = Vec::new();
    if args {
        modifiers.push(TokenModifiers::ARGS);
        assert(modifiers@ =~= seq![TokenModifiers::ARGS]);
    } else {
        assert(modifiers@ =~= Seq::<TokenModifiers>::empty());
    }
    Token { ty, modifiers, val }
}

/// The `None` result token.
pub fn none_token() -> (r: Token)
    ensures
        r@ == none_v(),
{
    mk_token(TokenTypes::NONE, false, "None".to_owned())
}

/// The break sentinel token.
pub fn break_token() -> (r: Token)
    ensures
        r@ == break_v(),
{
    mk_token(TokenTypes::FUNC, false, "break".to_owned())
}

/// Whether the token carries the `ARGS` modifier.
pub fn has_args(t: &Token) -> (r: bool)
    ensures
        r == t@.modifiers.contains(TokenModifiers::ARGS),
{
    let mut i: usize = 0;
    while i < t.modifiers.len()
        invariant
            i <= t.modifiers@.len(),
            forall|j: int| 0 <= j < i ==> t.modifiers@[j] != TokenModifiers::ARGS,
        decreases t.modifiers@.len() - i,
    {
        if t.modifiers[i] == TokenModifiers::ARGS {
            return true;
        }
        i += 1;
    }
    false
}

/// A copy of the token, equal in value.
pub fn copy_token(t: &Token) -> (r: Token)
    ensures
        r@ == t@,
{
    let mut modifiers: Vec<TokenModifiers> = Vec::new();
    let mut i: usize = 0;
    while i < t.modifiers.len()
        invariant
            i <= t.modifiers@.len(),
            modifiers@ == t.modifiers@.subrange(0, i as int),
        decreases t.modifiers@.len() - i,
    {
        modifiers.push(t.modifiers[i]);
        assert(modifiers@ =~= t.modifiers@.subrange(0, i as int + 1));
        i += 1;
    }
    assert(modifiers@ =~= t.modifiers@);
    let r = Token { ty: t.ty, modifiers, val: t.val.clone() };
    assert(r@ =~= t@);
    r
}

/// The same token re-marked as an argument, as operator rewriting does to a
/// popped left operand.
pub fn retag_args(t: &Token) -> (r: Token)
    ensures
        r@ == token_v(t@.ty, true, t@.val),
{
    mk_token(t.ty, true, t.val.clone())
}

/// Whether two tokens are equal in kind, modifiers and text.
pub fn token_eq(a: &Token, b: &Token) -> (r: bool)
    ensures
        r == (a@ == b@),
{
    if a.ty != b.ty {
        return false;
    }
    if !(a.val == b.val) {
        return false;
    }
    if a.modifiers.len() != b.modifiers.len() {
        return false;
    }
    let mut i: usize = 0;
    while i < a.modifiers.len()
        invariant
            i <= a.modifiers@.len(),
            a.modifiers@.len() == b.modifiers@.len(),
            forall|j: int| 0 <= j < i ==> a.modifiers@[j] == b.modifiers@[j],
        decreases a.modifiers@.len() - i,
    {
        if a.modifiers[i] != b.modifiers[i] {
            return false;
        }
        i += 1;
    }
    assert(a.modifiers@ =~= b.modifiers@);
    assert(a@ =~= b@);
    true
}

/// Whether the token equals the break sentinel.
pub fn is_break(t: &Token) -> (r: bool)
    ensures
        r == (t@ == break_v()),
{
    let b = break_token();
    token_eq(t, &b)
}

/// A copy of a token list, equal in value.
pub fn copy_tokens(ts: &Vec<Token>) -> (r: Vec<Token>)
    ensures
        views_of(r@) == views_of(ts@),
{
    let mut r: Vec<Token> = Vec::new();
    let mut i: usize = 0;
    while i < ts.len()
        invariant
            i <= ts@.len(),
            r@.len() == i,
            forall|j: int| 0 <= j < i ==> (#[trigger] r@[j])@ == ts@[j]@,
        decreases ts@.len() - i,
    {
        r.push(copy_token(&ts[i]));
        i += 1;
    }
    assert(views_of(r@) =~= views_of(ts@));
    r
}

/// The token list a closing `}` line produces: the snapshotted prefix, then
/// one SCOPE token holding the captured block text, marked as an argument.
pub open spec fn close_brace_tokens(cur: Seq<TokenV>, body: Seq<char>) -> Seq<TokenV> {
    cur + seq![token_v(TokenTypes::SCOPE, true, body)]
}

/// Which kind of left operand an operator rewrite demands: any kind for the
/// equality operators, an INT/FLOAT/VARIABLE for the arithmetic and the
/// numeric comparison operators, a VARIABLE for the compound assignments.
enum OperandCheck {
    Any,
    Numeric,
    NumericCmp,
    Var,
}

/// Operator rewriting: pops the token before the operator, validates its
/// kind, and re-emits it as an argument of the operator's builtin, unifying
/// infix syntax with ordinary calls.
fn op_rewrite(
    tokens: &mut Vec<Token>,
    line_count: usize,
    sym: &str,
    fname: &str,
    check: OperandCheck,
) -> (r: Result<(), crate::Abort>)
    ensures
        r is Err ==> r->Err_0 is Fatal,
        old(tokens)@.len() == 0 ==> r is Err,
        r is Err ==> final(tokens)@.len() <= old(tokens)@.len(),
        r is Ok ==> old(tokens)@.len() >= 1 && views_of(final(tokens)@) == views_of(
            old(tokens)@,
        ).drop_last().push(token_v(TokenTypes::FUNC, false, fname@)).push(
            token_v(
                old(tokens)@.last()@.ty,
                true,
                old(tokens)@.last()@.val,
            ),
        ),
        old(tokens)@.len() >= 1 && old(tokens)@.last()@.ty == TokenTypes::INT && !(
        check is Var) ==> r is Ok,
        old(tokens)@.len() >= 1 && old(tokens)@.last()@.ty == TokenTypes::INT && check is Var
            ==> r is Err,
{
    let first = match tokens.pop() {
        Some(t) => t,
        None => {
            return Err(crate::fatal_at(line_count, op_missing_msg(sym, &check).as_str()));
        },
    };
    let ok = match check {
        OperandCheck::Any => true,
        OperandCheck::Numeric | OperandCheck::NumericCmp => first.ty == TokenTypes::INT
            || first.ty == TokenTypes::FLOAT || first.ty == TokenTypes::VARIABLE,
        OperandCheck::Var => first.ty == TokenTypes::VARIABLE,
    };
    if !ok {
        return Err(crate::fatal_at(line_count, op_missing_msg(sym, &check).as_str()));
    }
    tokens.push(mk_token(TokenTypes::FUNC, false, fname.to_owned()));
    tokens.push(retag_args(&first));
    proof {
        assert(views_of(tokens@) =~= views_of(old(tokens)@).drop_last().push(
            token_v(TokenTypes::FUNC, false, fname@),
        ).push(token_v(old(tokens)@.last()@.ty, true, old(tokens)@.last()@.val)));
    }
    Ok(())
}

/// The message for a missing or ill-kinded left operand.
fn op_missing_msg(sym: &str, check: &OperandCheck) -> (r: String) {
    let mut m = match check {
        OperandCheck::Any | OperandCheck::NumericCmp => {
            "No first value for comparison operator '".to_owned()
        },
        OperandCheck::Numeric => "No first number for operator '".to_owned(),
        OperandCheck::Var => "No variable for operator '".to_owned(),
    };
    m.append(sym);
    m.append("' !");
    m
}

/// The printed name of a token kind, as diagnostics show it.
pub open spec fn kind_name_v(ty: TokenTypes) -> Seq<char> {
    match ty {
        TokenTypes::VARIABLE => "VARIABLE"@,
        TokenTypes::FUNC => "FUNC"@,
        TokenTypes::CUSTOMFUNC => "CUSTOMFUNC"@,
        TokenTypes::STRING => "STRING"@,
        TokenTypes::LITERAL => "LITERAL"@,
        TokenTypes::INT => "INT"@,
        TokenTypes::FLOAT => "FLOAT"@,
        TokenTypes::NAME => "NAME"@,
        TokenTypes::SCOPE => "SCOPE"@,
        TokenTypes::NONE => "NONE"@,
        TokenTypes::BOOL => "BOOL"@,
        TokenTypes::ARRAY => "ARRAY"@,
    }
}

/// The printed name of a token kind.
pub fn kind_name(ty: TokenTypes) -> (r: String)
    ensures
        r@ == kind_name_v(ty),
{
    match ty {
        TokenTypes::VARIABLE => "VARIABLE".to_owned(),
        TokenTypes::FUNC => "FUNC".to_owned(),
        TokenTypes::CUSTOMFUNC => "CUSTOMFUNC".to_owned(),
        TokenTypes::STRING => "STRING".to_owned(),
        TokenTypes::LITERAL => "LITERAL".to_owned(),
        TokenTypes::INT => "INT".to_owned(),
        TokenTypes::FLOAT => "FLOAT".to_owned(),
        TokenTypes::NAME => "NAME".to_owned(),
        TokenTypes::SCOPE => "SCOPE".to_owned(),
        TokenTypes::NONE => "NONE".to_owned(),
        TokenTypes::BOOL => "BOOL".to_owned(),
        TokenTypes::ARRAY => "ARRAY".to_owned(),
    }
}

/// A line that is nothing but one signed decimal number whose text is bound
/// to no variable. (The integer branch classifies such a word before the
/// custom-function and builtin tables are ever consulted.)
pub open spec fn bare_int_line(data: Seq<char>, env: Environment) -> bool {
    &&& crate::numbers::is_i64_text(data)
    &&& !env@.contains_key(data)
}

/// A line that is one space-free word opening with `$`, bound as a variable
/// in the environment.
pub open spec fn bare_variable_line(data: Seq<char>, env: Environment) -> bool {
    &&& data.len() > 0
    &&& data[0] == '$'
    &&& forall|j: int| 0 <= j < data.len() ==> #[trigger] data[j] != ' '
    &&& env@.contains_key(data)
}

/// The name part of an indexed access: the text before the `[`.
pub open spec fn index_name(data: Seq<char>) -> Seq<char> {
    crate::text::split_on(data, '[')[0]
}

/// The index part of an indexed access: the text after the `[`, with its
/// last character dropped.
pub open spec fn index_text(data: Seq<char>) -> Seq<char> {
    crate::text::split_on(data, '[')[1].drop_last()
}

/// A line that is one space-free word opening with `$` and holding one `[`,
/// whose whole text is bound to nothing but whose name part is: an indexed
/// access of the named variable.
pub open spec fn bare_index_line(data: Seq<char>, env: Environment) -> bool {
    &&& data.len() > 0
    &&& data[0] == '$'
    &&& (forall|j: int| 0 <= j < data.len() ==> #[trigger] data[j] != ' ')
    &&& crate::text::split_on(data, '[').len() == 2
    &&& crate::text::split_on(data, '[')[1].len() >= 1
    &&& !env@.contains_key(data)
    &&& env@.contains_key(index_name(data))
}

/// The items the given separated pieces yield: each trimmed of blank space,
/// the empty ones dropped.
pub open spec fn items_of(ps: Seq<Seq<char>>) -> Seq<Seq<char>>
    decreases ps.len(),
{
    if ps.len() == 0 {
        Seq::empty()
    } else {
        let t = crate::text::trim_end_sp(crate::text::trim_start_sp(ps.last()));
        if t.len() > 0 {
            items_of(ps.drop_last()).push(t)
        } else {
            items_of(ps.drop_last())
        }
    }
}

/// The items of an ARRAY value: the pieces between the private `0x05`
/// separators, trimmed, the blank ones dropped.
pub open spec fn array_items(v: Seq<char>) -> Seq<Seq<char>> {
    items_of(crate::text::split_on(v, '\u{5}'))
}

/// The infix operator words the lexer rewrites into builtin calls.
pub open spec fn operator_word(w: Seq<char>) -> bool {
    ||| w == "=="@
    ||| w == "!="@
    ||| w == "lazy="@
    ||| w == "lazy!="@
    ||| w == ">"@
    ||| w == "<"@
    ||| w == "+"@
    ||| w == "-"@
    ||| w == "*"@
    ||| w == "/"@
    ||| w == "+="@
    ||| w == "-="@
    ||| w == "*="@
    ||| w == "/="@
}

/// The tokenizer: converts one logical source line into an ordered token
/// list by per-word scanning with mutually exclusive modes (normal,
/// in-string, in-literal, in-array, in-scope-capture), consulting the
/// environment to recognize variable, custom-function and builtin names.
///
/// The scope-capture protocol is stated exactly: while capturing, a line
/// that opens with `}` ends the capture and yields the snapshotted prefix
/// plus one SCOPE token holding the block; any other line must open with
/// one tab, which is stripped before the line joins the block; a line
/// ending in a bare `{` snapshots the tokens read so far and yields nothing.
/// The run's line counter, scope depth and output log are never touched.
///
/// Several whole-line shapes are pinned exactly below: a bare number, a bare
/// bound variable, an indexed access (its item, both bounds errors, and the
/// non-numeric-index error), and a lone operator with nothing to pop. Words
/// those shapes never reach the number test with; any other word that falls
/// past the early branches is first shown to the double engine's number
/// test — before braces, quoted strings and function names are considered —
/// so what such lines lex to depends on the engine and is checked by the
/// test suite rather than stated here.
#[verifier::loop_isolation(false)]
pub fn tokenize<E: Numerics>(
    data: String,
    meta: &mut Metadata,
    env: &Environment,
    eng: &E,
    fuel: u32,
) -> (r: Result<Vec<Token>, Abort>)
    requires
        env.wf(),
    ensures
        final(meta).line_count == old(meta).line_count,
        final(meta).scope == old(meta).scope,
        final(meta).out@ == old(meta).out@,
        data@.len() == 0 ==> (r matches Ok(v) && v@.len() == 0 && *final(meta) == *old(meta)),
        old(meta).in_scope && data@.len() > 0 && data@[0] == '}' ==> {
            &&& !final(meta).in_scope
            &&& final(meta).scope_token@ == Seq::<char>::empty()
            &&& final(meta).current_tokens == old(meta).current_tokens
            &&& if views_of(old(meta).current_tokens@).len() > 0 && views_of(
                old(meta).current_tokens@,
            )[0].ty == TokenTypes::FUNC {
                r matches Ok(v) && views_of(v@) == close_brace_tokens(
                    views_of(old(meta).current_tokens@),
                    old(meta).scope_token@,
                )
            } else {
                r matches Err(a) && a is Fatal
            }
        },
        old(meta).in_scope && data@.len() > 0 && data@[0] != '}' && data@[0] == '\t' ==> {
            &&& r matches Ok(v) && v@.len() == 0
            &&& final(meta).in_scope
            &&& final(meta).scope_token@ == old(meta).scope_token@ + data@.drop_first() + seq![
                '\n',
            ]
            &&& final(meta).current_tokens == old(meta).current_tokens
        },
        old(meta).in_scope && data@.len() > 0 && data@[0] != '}' && data@[0] != '\t' ==> (r matches
            Err(a) && a is Fatal),
        !old(meta).in_scope && bare_int_line(data@, *env) ==> (r matches Ok(v) && views_of(v@)
            == seq![token_v(TokenTypes::INT, false, data@)] && *final(meta) == *old(meta)),
        !old(meta).in_scope && bare_variable_line(data@, *env) ==> (r matches Ok(v) && views_of(
            v@,
        ) == seq![token_v(TokenTypes::VARIABLE, false, data@)] && *final(meta) == *old(meta)),
        !old(meta).in_scope && operator_word(data@) && !env@.contains_key(data@) ==> (r matches
            Err(a) && a is Fatal),
        !old(meta).in_scope && bare_index_line(data@, *env) && !crate::numbers::is_usize_text(
            index_text(data@),
        ) ==> (r matches Err(a) && a is Fatal),
        !old(meta).in_scope && bare_index_line(data@, *env) && crate::numbers::is_usize_text(
            index_text(data@),
        ) && env@[index_name(data@)].value.ty != TokenTypes::ARRAY && env@[index_name(
            data@,
        )].value.ty != TokenTypes::STRING ==> (r matches Err(a) && a is Fatal),
        !old(meta).in_scope && bare_index_line(data@, *env) && crate::numbers::is_usize_text(
            index_text(data@),
        ) && env@[index_name(data@)].value.ty == TokenTypes::ARRAY && crate::numbers::int_text_val(
            index_text(data@),
        ) >= array_items(env@[index_name(data@)].value.val).len() ==> (r matches Err(a)
            && a is Fatal),
        !old(meta).in_scope && bare_index_line(data@, *env) && crate::numbers::is_usize_text(
            index_text(data@),
        ) && env@[index_name(data@)].value.ty == TokenTypes::ARRAY && crate::numbers::int_text_val(
            index_text(data@),
        ) < array_items(env@[index_name(data@)].value.val).len() && fuel >= 1 && bare_int_line(
            array_items(env@[index_name(data@)].value.val)[crate::numbers::int_text_val(
                index_text(data@),
            )],
            *env,
        ) ==> (r matches Ok(v) && views_of(v@) == seq![
            token_v(
                TokenTypes::INT,
                false,
                array_items(env@[index_name(data@)].value.val)[crate::numbers::int_text_val(
                    index_text(data@),
                )],
            ),
        ] && *final(meta) == *old(meta)),
        !old(meta).in_scope && bare_index_line(data@, *env) && crate::numbers::is_usize_text(
            index_text(data@),
        ) && env@[index_name(data@)].value.ty == TokenTypes::STRING
            && crate::numbers::int_text_val(index_text(data@)) >= env@[index_name(
            data@,
        )].value.val.len() ==> (r matches Err(a) && a is Fatal),
        !old(meta).in_scope && bare_index_line(data@, *env) && crate::numbers::is_usize_text(
            index_text(data@),
        ) && env@[index_name(data@)].value.ty == TokenTypes::STRING
            && crate::numbers::int_text_val(index_text(data@)) < env@[index_name(
            data@,
        )].value.val.len() ==> (r matches Ok(v) && views_of(v@) == seq![
            token_v(
                TokenTypes::STRING,
                false,
                seq![
                    env@[index_name(data@)].value.val[crate::numbers::int_text_val(
                        index_text(data@),
                    )],
                ],
            ),
        ] && *final(meta) == *old(meta)),
    decreases fuel,
{
    let ghost bare = !old(meta).in_scope && bare_int_line(data@, *env);
    let ghost barev = !old(meta).in_scope && bare_variable_line(data@, *env);
    let ghost barei = !old(meta).in_scope && bare_index_line(data@, *env);
    let ghost barei_arr = barei && crate::numbers::is_usize_text(index_text(data@)) && env@[
        index_name(data@)].value.ty == TokenTypes::ARRAY && crate::numbers::int_text_val(
        index_text(data@),
    ) < array_items(env@[index_name(data@)].value.val).len() && fuel >= 1 && bare_int_line(
        array_items(env@[index_name(data@)].value.val)[crate::numbers::int_text_val(
            index_text(data@),
        )],
        *env,
    );
    let ghost barei_str = barei && crate::numbers::is_usize_text(index_text(data@)) && env@[
        index_name(data@)].value.ty == TokenTypes::STRING && crate::numbers::int_text_val(
        index_text(data@),
    ) < env@[index_name(data@)].value.val.len();
    let ghost opline = !old(meta).in_scope && operator_word(data@) && !env@.contains_key(data@);
    proof {
        if opline {
            reveal_strlit("==");
            reveal_strlit("!=");
            reveal_strlit("lazy=");
            reveal_strlit("lazy!=");
            reveal_strlit(">");
            reveal_strlit("<");
            reveal_strlit("+");
            reveal_strlit("-");
            reveal_strlit("*");
            reveal_strlit("/");
            reveal_strlit("+=");
            reveal_strlit("-=");
            reveal_strlit("*=");
            reveal_strlit("/=");
            assert("=="@.len() == 2 && "!="@.len() == 2 && "lazy="@.len() == 5 && "lazy!="@.len()
                == 6 && ">"@.len() == 1 && "<"@.len() == 1 && "+"@.len() == 1 && "-"@.len() == 1
                && "*"@.len() == 1 && "/"@.len() == 1 && "+="@.len() == 2 && "-="@.len() == 2
                && "*="@.len() == 2 && "/="@.len() == 2);
            assert("=="@[0] == '=' && "!="@[0] == '!' && "lazy="@[0] == 'l' && "lazy!="@[0] == 'l'
                && ">"@[0] == '>' && "<"@[0] == '<' && "+"@[0] == '+' && "-"@[0] == '-'
                && "*"@[0] == '*' && "/"@[0] == '/' && "+="@[0] == '+' && "-="@[0] == '-'
                && "*="@[0] == '*' && "/="@[0] == '/');
            assert(forall|j: int| 0 <= j < data@.len() ==> #[trigger] data@[j] != ' ' && data@[j]
                != '[');
            assert(data@.len() >= 1 && data@[0] != '(' && data@[0] != '$');
            crate::text::lemma_split_single(data@, ' ');
            crate::text::lemma_split_single(data@, '[');
        }
    }
    let ghost barei_bad = barei && (!crate::numbers::is_usize_text(index_text(data@)) || (env@[
        index_name(data@)].value.ty != TokenTypes::ARRAY && env@[index_name(data@)].value.ty
        != TokenTypes::STRING) || (env@[index_name(data@)].value.ty == TokenTypes::ARRAY
        && crate::numbers::int_text_val(index_text(data@)) >= array_items(
        env@[index_name(data@)].value.val,
    ).len()) || (env@[index_name(data@)].value.ty == TokenTypes::STRING
        && crate::numbers::int_text_val(index_text(data@)) >= env@[index_name(
        data@,
    )].value.val.len()));
    proof {
        if bare {
            crate::numbers::lemma_i64_chars(data@);
        }
    }
    let cs = chars_of(data.as_str());
    if cs.len() == 0 {
        return Ok(Vec::new());
    }
    if meta.in_scope {
        if cs[0] == '}' {
            meta.in_scope = false;
            let body = meta.scope_token.clone();
            meta.scope_token = String::new();
            let mut tokens = copy_tokens(&meta.current_tokens);
            if tokens.len() > 0 && tokens[0].ty == TokenTypes::FUNC {
                tokens.push(mk_token(TokenTypes::SCOPE, true, body));
                proof {
                    assert(views_of(tokens@) =~= close_brace_tokens(
                        views_of(old(meta).current_tokens@),
                        old(meta).scope_token@,
                    ));
                }
                return Ok(tokens);
            } else {
                return Err(crate::fatal_at(
                    meta.line_count,
                    "No function found to run scope!",
                ));
            }
        } else {
            if cs[0] != '\t' {
                return Err(crate::fatal_at(meta.line_count, "Expected indent with tabs!"));
            }
            let stripped = drop_first_char(&cs);
            let stripped_s = string_of(&stripped);
            meta.scope_token.append(stripped_s.as_str());
            meta.scope_token.push('\n');
            return Ok(Vec::new());
        }
    }
    let words = split_chars(&cs, ' ');
    proof {
        if bare {
            assert(forall|j: int|
                0 <= j < data@.len() ==> #[trigger] data@[j] != ' ' && data@[j] != '[') by {
                assert(forall|j: int|
                    0 <= j < data@.len() ==> crate::numbers::is_digit(#[trigger] data@[j]) || (j
                        == 0 && (data@[0] == '+' || data@[0] == '-')));
            }
            crate::text::lemma_split_single(data@, ' ');
            assert(cs@ == data@);
            assert(crate::text::split_on(cs@, ' ') =~= seq![data@]);
            assert(words@.len() == 1);
            assert(words@[0]@ == crate::text::split_on(cs@, ' ')[0]);
            assert(words@[0]@ == data@);
        }
        if barev || barei {
            crate::text::lemma_split_single(data@, ' ');
            assert(cs@ == data@);
            assert(crate::text::split_on(cs@, ' ') =~= seq![data@]);
            assert(words@.len() == 1);
            assert(words@[0]@ == crate::text::split_on(cs@, ' ')[0]);
            assert(words@[0]@ == data@);
        }
    }
    let mut tokens: Vec<Token> = Vec::new();
    let mut in_func = false;
    let mut in_string = false;
    let mut string_token: Vec<char> = Vec::new();
    let mut in_variable_set = false;
    let mut in_operator = false;
    let mut in_compare = false;
    let mut literal: Vec<char> = Vec::new();
    let mut in_literal = false;
    let mut array: Vec<char> = Vec::new();
    let mut in_array = false;
    let mut wi: usize = 0;
    while wi < words.len()
        invariant
            wi <= words@.len(),
            meta.line_count == old(meta).line_count,
            meta.scope == old(meta).scope,
            meta.out@ == old(meta).out@,
            bare ==> *meta == *old(meta),
            bare ==> !in_func && !in_string && !in_variable_set && !in_operator && !in_compare
                && !in_literal && !in_array,
            bare && wi == 0 ==> tokens@.len() == 0,
            bare && wi == 1 ==> views_of(tokens@) == seq![
                token_v(TokenTypes::INT, false, data@),
            ],
            barev ==> *meta == *old(meta),
            barev ==> !in_func && !in_string && !in_variable_set && !in_operator && !in_compare
                && !in_literal && !in_array,
            barev && wi == 0 ==> tokens@.len() == 0,
            barev && wi == 1 ==> views_of(tokens@) == seq![
                token_v(TokenTypes::VARIABLE, false, data@),
            ],
            barei ==> !in_func && !in_string && !in_variable_set && !in_operator && !in_compare
                && !in_literal && !in_array,
            barei_bad || barei_arr || barei_str ==> *meta == *old(meta),
            barei && wi == 0 ==> tokens@.len() == 0,
            barei_bad ==> wi == 0,
            opline ==> wi == 0 && tokens@.len() == 0 && !in_func && !in_string
                && !in_variable_set && !in_operator && !in_compare && !in_literal && !in_array,
            barei_arr && wi == 1 ==> views_of(tokens@) == seq![
                token_v(
                    TokenTypes::INT,
                    false,
                    array_items(env@[index_name(data@)].value.val)[crate::numbers::int_text_val(
                        index_text(data@),
                    )],
                ),
            ],
            barei_str && wi == 1 ==> views_of(tokens@) == seq![
                token_v(
                    TokenTypes::STRING,
                    false,
                    seq![
                        env@[index_name(data@)].value.val[crate::numbers::int_text_val(
                            index_text(data@),
                        )],
                    ],
                ),
            ],
        decreases words@.len() - wi,
    {
        let ghost at = wi;
        let raw = &words[wi];
        wi += 1;
        let word1: Vec<char> = if starts_with(raw, '(') && !in_string {
            in_literal = true;
            drop_first_char(raw)
        } else {
            sub_chars(raw, 0, raw.len())
        };
        let word: Vec<char> = if starts_with(&word1, '[') && !in_string {
            in_array = true;
            drop_first_char(&word1)
        } else {
            sub_chars(&word1, 0, word1.len())
        };
        proof {
            if bare {
                assert(at == 0 && raw@ == data@);
                assert(data@[0] != '(' && data@[0] != '[') by {
                    assert(crate::numbers::is_digit(data@[0]) || data@[0] == '+' || data@[0]
                        == '-');
                }
                assert(word1@ == data@ && word@ == data@);
                reveal_strlit("None");
                reveal_strlit("true");
                reveal_strlit("false");
                reveal_strlit("let");
                reveal_strlit(";");
                reveal_strlit("=");
                reveal_strlit("==");
                reveal_strlit("!=");
                reveal_strlit("lazy=");
                reveal_strlit("lazy!=");
                reveal_strlit(">");
                reveal_strlit("<");
                reveal_strlit("+");
                reveal_strlit("-");
                reveal_strlit("*");
                reveal_strlit("/");
                reveal_strlit("+=");
                reveal_strlit("-=");
                reveal_strlit("*=");
                reveal_strlit("/=");
                reveal_strlit("{");
                assert(forall|j: int|
                    0 <= j < data@.len() ==> crate::numbers::is_digit(#[trigger] data@[j]) || (j
                        == 0 && (data@[0] == '+' || data@[0] == '-')));
                assert(data@ != "None"@) by {
                    if data@ == "None"@ {
                        assert(data@[0] == 'N');
                    }
                }
                assert(data@ != "true"@) by {
                    if data@ == "true"@ {
                        assert(data@[0] == 't');
                    }
                }
                assert(data@ != "false"@) by {
                    if data@ == "false"@ {
                        assert(data@[0] == 'f');
                    }
                }
                assert(data@ != "let"@) by {
                    if data@ == "let"@ {
                        assert(data@[0] == 'l');
                    }
                }
                assert(data@ != ";"@) by {
                    if data@ == ";"@ {
                        assert(data@[0] == ';');
                    }
                }
                assert(data@ != "="@) by {
                    if data@ == "="@ {
                        assert(data@[0] == '=');
                    }
                }
                assert(data@ != "=="@) by {
                    if data@ == "=="@ {
                        assert(data@[0] == '=');
                    }
                }
                assert(data@ != "!="@) by {
                    if data@ == "!="@ {
                        assert(data@[0] == '!');
                    }
                }
                assert(data@ != "lazy="@) by {
                    if data@ == "lazy="@ {
                        assert(data@[0] == 'l');
                    }
                }
                assert(data@ != "lazy!="@) by {
                    if data@ == "lazy!="@ {
                        assert(data@[0] == 'l');
                    }
                }
                assert(data@ != ">"@) by {
                    if data@ == ">"@ {
                        assert(data@[0] == '>');
                    }
                }
                assert(data@ != "<"@) by {
                    if data@ == "<"@ {
                        assert(data@[0] == '<');
                    }
                }
                assert(data@ != "*"@) by {
                    if data@ == "*"@ {
                        assert(data@[0] == '*');
                    }
                }
                assert(data@ != "/"@) by {
                    if data@ == "/"@ {
                        assert(data@[0] == '/');
                    }
                }
                assert(data@ != "+"@) by {
                    if data@ == "+"@ {
                        assert(crate::numbers::signed_digits(data@) =~= Seq::<char>::empty());
                    }
                }
                assert(data@ != "-"@) by {
                    if data@ == "-"@ {
                        assert(crate::numbers::signed_digits(data@) =~= Seq::<char>::empty());
                    }
                }
                assert(data@ != "+="@) by {
                    if data@ == "+="@ {
                        assert(data@[1] == '=' && crate::numbers::is_digit(data@[1]));
                    }
                }
                assert(data@ != "-="@) by {
                    if data@ == "-="@ {
                        assert(data@[1] == '=' && crate::numbers::is_digit(data@[1]));
                    }
                }
                assert(data@ != "*="@) by {
                    if data@ == "*="@ {
                        assert(data@[0] == '*');
                    }
                }
                assert(data@ != "/="@) by {
                    if data@ == "/="@ {
                        assert(data@[0] == '/');
                    }
                }
                assert(data@ != "{"@) by {
                    if data@ == "{"@ {
                        assert(data@[0] == '{');
                    }
                }
                assert(data@[0] != '"');
                crate::text::lemma_split_single(data@, '[');
            }
            if barev || barei || opline {
                assert(at == 0 && raw@ == data@);
                assert(data@[0] != '(' && data@[0] != '[');
                assert(word1@ == data@ && word@ == data@);
                reveal_strlit("None");
                reveal_strlit("true");
                reveal_strlit("false");
                reveal_strlit("let");
                reveal_strlit(";");
                reveal_strlit("=");
                assert(data@ != "None"@) by {
                    if data@ == "None"@ {
                        assert(data@[0] == 'N');
                    }
                }
                assert(data@ != "true"@) by {
                    if data@ == "true"@ {
                        assert(data@[0] == 't');
                    }
                }
                assert(data@ != "false"@) by {
                    if data@ == "false"@ {
                        assert(data@[0] == 'f');
                    }
                }
                assert(data@ != "let"@) by {
                    if data@ == "let"@ {
                        assert(data@[0] == 'l' && data@.len() == 3);
                    }
                }
                assert(data@ != ";"@) by {
                    if data@ == ";"@ {
                        assert(data@[0] == ';');
                    }
                }
                assert(data@ != "="@) by {
                    if data@ == "="@ {
                        assert(data@[0] == '=' && data@.len() == 1);
                    }
                }
            }
        }

        if in_literal {
            if ends_with(raw, ')') {
                if in_string {
                    let stripped = drop_last_char(raw);
                    if ends_with(&stripped, '"') {
                        in_string = false;
                    }
                }
            }
            if !starts_with(raw, '(') {
                literal.push(' ');
            }
            if ends_with(raw, ')') && !in_string {
                in_literal = false;
                if word.len() > 0 {
                    let w2 = drop_last_char(&word);
                    push_all(&mut literal, &w2);
                }
                tokens.push(
                    mk_token(TokenTypes::LITERAL, in_func || in_compare, string_of(&literal)),
                );
                literal.clear();
                continue ;
            } else {
                push_all(&mut literal, &word);
                continue ;
            }
        }

        if in_array {
            if ends_with(&word1, ']') {
                if in_string {
                    let stripped = drop_last_char(&word1);
                    if ends_with(&stripped, '"') {
                        in_string = false;
                    }
                }
            }
            if !starts_with(&word1, '[') {
                array.push(' ');
            }
            if !in_string {
                if ends_with(&word1, ']') {
                    in_array = false;
                    if word.len() > 0 {
                        let w2 = drop_last_char(&word);
                        push_all(&mut array, &w2);
                    }
                    tokens.push(
                        mk_token(TokenTypes::ARRAY, in_func || in_compare, string_of(&array)),
                    );
                    array.clear();
                } else if ends_with(&word, ',') && !starts_with(&word, '"') {
                    let w2 = drop_last_char(&word);
                    push_all(&mut array, &w2);
                    array.push('\u{5}');
                } else {
                    push_all(&mut array, &word);
                }
                continue ;
            } else {
                push_all(&mut array, &word);
                continue ;
            }
        }

        if word_is(&word, "None") && !in_string {
            if !in_literal {
                tokens.push(
                    mk_token(TokenTypes::NONE, in_func || in_compare, "None".to_owned()),
                );
            }
            continue ;
        }
        if word_is(&word, "true") && !in_string {
            if !in_literal {
                tokens.push(
                    mk_token(TokenTypes::BOOL, in_func || in_compare, "true".to_owned()),
                );
            }
            continue ;
        }
        if word_is(&word, "false") && !in_string {
            if !in_literal {
                tokens.push(
                    mk_token(TokenTypes::BOOL, in_func || in_compare, "false".to_owned()),
                );
            }
            continue ;
        }

        if word_is(&word, "let") && !in_string {
            in_variable_set = true;
            tokens.push(mk_token(TokenTypes::FUNC, false, "create_var".to_owned()));
            in_func = true;
            continue ;
        }

        if word_is(&word, ";") || (word_is(&word, "=") && !in_string) {
            continue ;
        }

        let word_s = string_of(&word);

        if env.contains(&word_s) {
            if !in_literal && !in_string {
                tokens.push(
                    mk_token(
                        TokenTypes::VARIABLE,
                        in_func || in_operator || in_compare,
                        word_s.clone(),
                    ),
                );
                proof {
                    if barev {
                        assert(views_of(tokens@) =~= seq![
                            token_v(TokenTypes::VARIABLE, false, data@),
                        ]);
                    }
                }
            }
            continue ;
        }

        let index_split = split_chars(&word, '[');
        proof {
            if barei {
                assert(index_split@.len() == crate::text::split_on(data@, '[').len());
                assert(index_split@[0]@ == index_name(data@));
                assert(index_split@[1]@ == crate::text::split_on(data@, '[')[1]);
            }
        }
        if index_split.len() == 2 {
            let name_s = string_of(&index_split[0]);
            let looked = env.lookup(&name_s);
            if let Some(variable) = looked {
                let idx_part = &index_split[1];
                if idx_part.len() == 0 {
                    return Err(crate::fatal_at(
                        meta.line_count,
                        "Variables can only be indexed by natural numbers",
                    ));
                }
                let idx_chars = drop_last_char(idx_part);
                proof {
                    if barei {
                        assert(idx_chars@ == index_text(data@));
                        assert(variable@ == env@[index_name(data@)]);
                    }
                }
                let index = match parse_usize(&idx_chars) {
                    Some(u) => u,
                    None => {
                        return Err(crate::fatal_at(
                            meta.line_count,
                            "Variables can only be indexed by natural numbers",
                        ));
                    },
                };
                match variable.value.ty {
                    TokenTypes::ARRAY => {
                        let vchars = chars_of(variable.value.val.as_str());
                        let ghost vv = variable.value.val@;
                        let ghost pieces = crate::text::split_on(vv, '\u{5}');
                        let raw_items = split_chars(&vchars, '\u{5}');
                        let mut items: Vec<Vec<char>> = Vec::new();
                        let mut k: usize = 0;
                        while k < raw_items.len()
                            invariant
                                k <= raw_items@.len(),
                                raw_items@.len() == pieces.len(),
                                meta.line_count == old(meta).line_count,
                                meta.scope == old(meta).scope,
                                meta.out@ == old(meta).out@,
                                items@.len() == items_of(pieces.subrange(0, k as int)).len(),
                                forall|j: int|
                                    0 <= j < items@.len() ==> (#[trigger] items@[j]@) == items_of(
                                        pieces.subrange(0, k as int),
                                    )[j],
                            decreases raw_items@.len() - k,
                        {
                            let t = trim_chars(&raw_items[k]);
                            proof {
                                assert(pieces.subrange(0, k as int + 1).drop_last()
                                    =~= pieces.subrange(0, k as int));
                                assert(pieces.subrange(0, k as int + 1).last() == pieces[k as int]);
                                assert(raw_items@[k as int]@ == pieces[k as int]);
                            }
                            if t.len() > 0 {
                                items.push(t);
                            }
                            k += 1;
                        }
                        proof {
                            assert(pieces.subrange(0, pieces.len() as int) =~= pieces);
                            if barei {
                                assert(items@.len() == array_items(
                                    env@[index_name(data@)].value.val,
                                ).len());
                            }
                        }
                        if index >= items.len() {
                            return Err(crate::fatal_at(
                                meta.line_count,
                                "Indexing overload on array",
                            ));
                        }
                        if fuel == 0 {
                            return Err(Abort::Budget);
                        }
                        let item_s = string_of(&items[index]);
                        proof {
                            if barei_arr {
                                assert(item_s@ == array_items(
                                    env@[index_name(data@)].value.val,
                                )[crate::numbers::int_text_val(index_text(data@))]);
                            }
                        }
                        let sub = match tokenize(item_s, meta, env, eng, fuel - 1) {
                            Ok(ts) => ts,
                            Err(a) => {
                                return Err(a);
                            },
                        };
                        proof {
                            if barei_arr {
                                assert(views_of(sub@).len() == sub@.len());
                                assert(views_of(sub@)[0] == sub@[0]@);
                            }
                        }
                        let mut si: usize = 0;
                        while si < sub.len()
                            invariant
                                si <= sub@.len(),
                                meta.line_count == old(meta).line_count,
                                meta.scope == old(meta).scope,
                                meta.out@ == old(meta).out@,
                                barei_arr ==> *meta == *old(meta) && sub@.len() == 1,
                                barei_arr && si == 0 ==> tokens@.len() == 0,
                                barei_arr && si == 1 ==> views_of(tokens@) == seq![
                                    token_v(
                                        TokenTypes::INT,
                                        false,
                                        array_items(
                                            env@[index_name(data@)].value.val,
                                        )[crate::numbers::int_text_val(index_text(data@))],
                                    ),
                                ],
                            decreases sub@.len() - si,
                        {
                            tokens.push(
                                mk_token(
                                    sub[si].ty,
                                    in_func || in_compare,
                                    sub[si].val.clone(),
                                ),
                            );
                            proof {
                                if barei_arr {
                                    assert(views_of(tokens@) =~= seq![
                                        token_v(
                                            TokenTypes::INT,
                                            false,
                                            array_items(
                                                env@[index_name(data@)].value.val,
                                            )[crate::numbers::int_text_val(index_text(data@))],
                                        ),
                                    ]);
                                }
                            }
                            si += 1;
                        }
                        continue ;
                    },
                    TokenTypes::STRING => {
                        let vchars = chars_of(variable.value.val.as_str());
                        if index >= vchars.len() {
                            return Err(crate::fatal_at(
                                meta.line_count,
                                "Indexing overload on string",
                            ));
                        }
                        let mut one: Vec<char> = Vec::new();
                        one.push(vchars[index]);
                        proof {
                            if barei_str {
                                assert(one@ =~= seq![
                                    env@[index_name(data@)].value.val[
                                        crate::numbers::int_text_val(index_text(data@))],
                                ]);
                            }
                        }
                        tokens.push(
                            mk_token(TokenTypes::STRING, in_func || in_compare, string_of(&one)),
                        );
                        proof {
                            if barei_str {
                                assert(views_of(tokens@) =~= seq![
                                    token_v(
                                        TokenTypes::STRING,
                                        false,
                                        seq![
                                            env@[index_name(data@)].value.val[
                                                crate::numbers::int_text_val(index_text(data@))],
                                        ],
                                    ),
                                ]);
                            }
                        }
                        continue ;
                    },
                    ty => {
                        let mut m = "Cannot index type ".to_owned();
                        m.append(kind_name(ty).as_str());
                        return Err(crate::fatal_at(meta.line_count, m.as_str()));
                    },
                }
            }
        }

        if word_is(&word, "==") && !in_string {
            if !in_literal {
                op_rewrite(&mut tokens, meta.line_count, "==", "eq", OperandCheck::Any)?;
                in_compare = true;
            }
            continue ;
        }
        if word_is(&word, "!=") && !in_string {
            if !in_literal {
                op_rewrite(&mut tokens, meta.line_count, "!=", "ne", OperandCheck::Any)?;
                in_compare = true;
            }
            continue ;
        }
        if word_is(&word, "lazy=") && !in_string {
            if !in_literal {
                op_rewrite(&mut tokens, meta.line_count, "lazy=", "lazy_eq", OperandCheck::Any)?;
                in_compare = true;
            }
            continue ;
        }
        if word_is(&word, "lazy!=") && !in_string {
            if !in_literal {
                op_rewrite(&mut tokens, meta.line_count, "lazy!=", "lazy_ne", OperandCheck::Any)?;
                in_compare = true;
            }
            continue ;
        }
        if word_is(&word, ">") && !in_string {
            if !in_literal {
                op_rewrite(&mut tokens, meta.line_count, ">", "gt", OperandCheck::NumericCmp)?;
                in_operator = true;
            }
            continue ;
        }
        if word_is(&word, "<") && !in_string {
            if !in_literal {
                op_rewrite(&mut tokens, meta.line_count, "<", "lt", OperandCheck::NumericCmp)?;
                in_operator = true;
            }
            continue ;
        }
        if word_is(&word, "+") && !in_string {
            if !in_literal {
                op_rewrite(&mut tokens, meta.line_count, "+", "sum", OperandCheck::Numeric)?;
                in_operator = true;
            }
            continue ;
        }
        if word_is(&word, "-") && !in_string {
            if !in_literal {
                op_rewrite(
                    &mut tokens,
                    meta.line_count,
                    "-",
                    "difference",
                    OperandCheck::Numeric,
                )?;
                in_operator = true;
            }
            continue ;
        }
        if word_is(&word, "*") && !in_string {
            if !in_literal {
                op_rewrite(&mut tokens, meta.line_count, "*", "product", OperandCheck::Numeric)?;
                in_operator = true;
            }
            continue ;
        }
        if word_is(&word, "/") && !in_string {
            if !in_literal {
                op_rewrite(&mut tokens, meta.line_count, "/", "quotient", OperandCheck::Numeric)?;
                in_operator = true;
            }
            continue ;
        }
        if word_is(&word, "+=") && !in_string {
            if !in_literal {
                op_rewrite(&mut tokens, meta.line_count, "+=", "add_assign", OperandCheck::Var)?;
                in_operator = true;
            }
            continue ;
        }
        if word_is(&word, "-=") && !in_string {
            if !in_literal {
                op_rewrite(
                    &mut tokens,
                    meta.line_count,
                    "-=",
                    "subtract_assign",
                    OperandCheck::Var,
                )?;
                in_operator = true;
            }
            continue ;
        }
        if word_is(&word, "*=") && !in_string {
            if !in_literal {
                op_rewrite(
                    &mut tokens,
                    meta.line_count,
                    "*=",
                    "multiply_assign",
                    OperandCheck::Var,
                )?;
                in_operator = true;
            }
            continue ;
        }
        if word_is(&word, "/=") && !in_string {
            if !in_literal {
                op_rewrite(
                    &mut tokens,
                    meta.line_count,
                    "/=",
                    "divide_assign",
                    OperandCheck::Var,
                )?;
                in_operator = true;
            }
            continue ;
        }

        if parse_i64(&word).is_some() && !in_string {
            if !in_literal {
                let args_flag = in_func || in_operator || in_compare;
                if in_operator {
                    in_operator = false;
                }
                tokens.push(mk_token(TokenTypes::INT, args_flag, word_s.clone()));
                proof {
                    if bare {
                        assert(views_of(tokens@) =~= seq![
                            token_v(TokenTypes::INT, false, data@),
                        ]);
                    }
                }
            }
            continue ;
        }

        if eng.is_number(word_s.as_str()) && !in_string {
            if !in_literal {
                let args_flag = in_func || in_operator || in_compare;
                if in_operator {
                    in_operator = false;
                }
                tokens.push(mk_token(TokenTypes::FLOAT, args_flag, word_s.clone()));
            }
            continue ;
        }

        if word_is(&word, "{") && !in_string {
            meta.in_scope = true;
            meta.current_tokens = copy_tokens(&tokens);
            return Ok(Vec::new());
        }

        if starts_with(&word, '"') {
            if in_string {
                string_token.push(' ');
                if !in_literal {
                    tokens.push(
                        mk_token(
                            TokenTypes::STRING,
                            in_func || in_compare,
                            string_of(&string_token),
                        ),
                    );
                }
                in_string = false;
                continue ;
            }
            in_string = true;
            if word_is(&word, "\"") {
                string_token.push(' ');
            } else {
                let w2 = drop_first_char(&word);
                push_all(&mut string_token, &w2);
            }
            if ends_with(&word, '"') {
                in_string = false;
                if string_token.len() > 0 {
                    string_token.pop();
                }
                if !in_literal {
                    tokens.push(
                        mk_token(
                            TokenTypes::STRING,
                            in_func || in_compare,
                            string_of(&string_token),
                        ),
                    );
                }
                string_token.clear();
            }
            continue ;
        }

        if in_string {
            string_token.push(' ');
            push_all(&mut string_token, &word);
            if ends_with(&word, '"') {
                in_string = false;
                if string_token.len() > 0 {
                    string_token.pop();
                }
                if !in_literal {
                    tokens.push(
                        mk_token(
                            TokenTypes::STRING,
                            in_func || in_compare,
                            string_of(&string_token),
                        ),
                    );
                }
                string_token.clear();
            }
            continue ;
        }

        if env.is_custom(&word_s) {
            if !in_literal {
                tokens.push(mk_token(TokenTypes::CUSTOMFUNC, false, word_s.clone()));
            }
            in_func = true;
            continue ;
        }

        if is_builtin(&word_s) {
            if !in_literal {
                tokens.push(mk_token(TokenTypes::FUNC, false, word_s.clone()));
            }
            in_func = true;
            continue ;
        }

        if in_variable_set {
            tokens.push(mk_token(TokenTypes::STRING, true, word_s.clone()));
            in_variable_set = false;
            continue ;
        }

        if !in_string {
            if !in_literal {
                tokens.push(
                    mk_token(TokenTypes::NAME, in_func || in_compare, word_s.clone()),
                );
            }
            continue ;
        }
    }

    Ok(tokens)
}

} // verus!
