//! The runner for Dawn (dwn): executes one tokenized line against the
//! environment, dispatching FUNC and CUSTOMFUNC heads to the builtin table.

use vstd::prelude::*;

use crate::Abort;
use crate::dwn::{
    Environment, Metadata, VariableV, add_assign, ask, break_, builtin_names, create_var,
    difference, divide_assign, eq, eq_like_v, float, forever, format_array, gt, if_, int_,
    is_builtin, lazy_eq, lazy_ne, lt, multiply_assign, ne, out_extends, plain_ok, plain_resolved,
    product, quit, quotient, say, scope, short_say, subtract_assign, sum, until, vars, while_,
};
use crate::lexer::{
    Token, TokenModifiers, TokenTypes, TokenV, bare_int_line, bare_variable_line, break_v,
    copy_token, mk_token, none_token, none_v, token_v, tokenize, views_of,
};
use crate::numbers::Numerics;
use crate::text::str_is;

verus! {

/// Runs one source line: lexes it, then executes the tokens. The run's line
/// counter is never touched, the output log only grows, and a successful run
/// leaves the scope depth where it stood and yields a token without
/// modifiers. A line that is one bare number comes back as exactly that INT
/// token, and a line that is one bare bound variable as exactly that
/// VARIABLE token, with nothing changed.
pub fn run<E: Numerics>(
    line: String,
    meta: &mut Metadata,
    env: &mut Environment,
    eng: &E,
    fuel: u32,
) -> (r: Result<Token, Abort>)
    requires
        old(env).wf(),
    ensures
        final(env).wf(),
        final(meta).line_count == old(meta).line_count,
        out_extends(old(meta).out@, final(meta).out@),
        r is Ok ==> final(meta).scope == old(meta).scope,
        r is Ok ==> r->Ok_0@.modifiers == Seq::<TokenModifiers>::empty(),
        !old(meta).in_scope && bare_int_line(line@, *old(env)) ==> (r matches Ok(v) && v@
            == token_v(TokenTypes::INT, false, line@) && *final(meta) == *old(meta) && final(env)@
            == old(env)@),
        !old(meta).in_scope && bare_variable_line(line@, *old(env)) ==> (r matches Ok(v) && v@
            == token_v(TokenTypes::VARIABLE, false, line@) && *final(meta) == *old(meta)
            && final(env)@ == old(env)@),
        !old(meta).in_scope && crate::lexer::bare_index_line(line@, *old(env))
            && crate::numbers::is_usize_text(crate::lexer::index_text(line@)) && old(env)@[
            crate::lexer::index_name(line@)].value.ty == TokenTypes::ARRAY
            && crate::numbers::int_text_val(crate::lexer::index_text(line@))
            < crate::lexer::array_items(
            old(env)@[crate::lexer::index_name(line@)].value.val,
        ).len() && fuel >= 1 && bare_int_line(
            crate::lexer::array_items(old(env)@[crate::lexer::index_name(line@)].value.val)[
                crate::numbers::int_text_val(crate::lexer::index_text(line@))],
            *old(env),
        ) ==> (r matches Ok(v) && v@ == token_v(
            TokenTypes::INT,
            false,
            crate::lexer::array_items(old(env)@[crate::lexer::index_name(line@)].value.val)[
                crate::numbers::int_text_val(crate::lexer::index_text(line@))],
        ) && *final(meta) == *old(meta) && final(env)@ == old(env)@),
        !old(meta).in_scope && crate::lexer::bare_index_line(line@, *old(env))
            && !crate::numbers::is_usize_text(crate::lexer::index_text(line@)) ==> (r matches Err(
            a,
        ) && a is Fatal),
        !old(meta).in_scope && crate::lexer::bare_index_line(line@, *old(env))
            && crate::numbers::is_usize_text(crate::lexer::index_text(line@)) && old(env)@[
            crate::lexer::index_name(line@)].value.ty == TokenTypes::ARRAY
            && crate::numbers::int_text_val(crate::lexer::index_text(line@))
            >= crate::lexer::array_items(
            old(env)@[crate::lexer::index_name(line@)].value.val,
        ).len() ==> (r matches Err(a) && a is Fatal),
    decreases fuel, 5int,
{
    let ghost line_v = line@;
    let tokens = match tokenize(line, meta, env, eng, fuel) {
        Ok(ts) => ts,
        Err(a) => {
            return Err(a);
        },
    };
    proof {
        if !old(meta).in_scope && (bare_int_line(line_v, *old(env)) || bare_variable_line(
            line_v,
            *old(env),
        ) || crate::lexer::bare_index_line(line_v, *old(env))) && tokens@.len() == 1 {
            assert(views_of(tokens@).len() == tokens@.len());
            assert(views_of(tokens@)[0] == tokens@[0]@);
        }
        if !old(meta).in_scope && (bare_int_line(line_v, *old(env)) || bare_variable_line(
            line_v,
            *old(env),
        )) {
            assert(views_of(tokens@).len() == tokens@.len());
            assert(tokens@.len() == 1);
        }
    }
    run_tokens(tokens, meta, env, eng, fuel)
}

/// The argument tokens a dispatched builtin receives: everything after the
/// head.
pub open spec fn rest_views(ts: Seq<Token>) -> Seq<TokenV> {
    views_of(ts).drop_first()
}

/// Whether a token list opens with a function head of the given name, ready
/// for dispatch.
pub open spec fn dispatches(ts: Seq<Token>, in_scope: bool, name: Seq<char>) -> bool {
    &&& ts.len() > 0
    &&& (ts[0]@.ty == TokenTypes::FUNC || ts[0]@.ty == TokenTypes::CUSTOMFUNC)
    &&& !in_scope
    &&& ts[0]@.val == name
}

/// Executes one tokenized line. An empty line yields NONE; a line whose
/// first token is not a function is that token itself, with its modifiers
/// stripped; a FUNC or CUSTOMFUNC head is looked up among the builtins and
/// dispatched with the rest of the line as its arguments — fatally when no
/// builtin bears the name. While a scope is being captured nothing runs.
/// The builtins' exact promises come through by head name: a dispatched
/// `break` yields the sentinel; with LITERAL-free arguments, a dispatched
/// `create_var` performs exactly its insert, `eq` its comparison, and `say`
/// its output.
pub fn run_tokens<E: Numerics>(
    tokens: Vec<Token>,
    meta: &mut Metadata,
    env: &mut Environment,
    eng: &E,
    fuel: u32,
) -> (r: Result<Token, Abort>)
    requires
        old(env).wf(),
    ensures
        final(env).wf(),
        final(meta).line_count == old(meta).line_count,
        out_extends(old(meta).out@, final(meta).out@),
        r is Ok ==> final(meta).scope == old(meta).scope,
        r is Ok ==> r->Ok_0@.modifiers == Seq::<TokenModifiers>::empty(),
        tokens@.len() == 0 ==> (r matches Ok(v) && v@ == none_v() && *final(meta) == *old(meta)
            && final(env)@ == old(env)@),
        tokens@.len() > 0 && tokens@[0]@.ty != TokenTypes::FUNC && tokens@[0]@.ty
            != TokenTypes::CUSTOMFUNC ==> (r matches Ok(v) && v@ == token_v(
            tokens@[0]@.ty,
            false,
            tokens@[0]@.val,
        ) && *final(meta) == *old(meta) && final(env)@ == old(env)@),
        tokens@.len() > 0 && (tokens@[0]@.ty == TokenTypes::FUNC || tokens@[0]@.ty
            == TokenTypes::CUSTOMFUNC) && !builtin_names().contains(tokens@[0]@.val) ==> (r
            matches Err(a) && a is Fatal) && *final(meta) == *old(meta) && final(env)@ == old(env)@,
        dispatches(tokens@, old(meta).in_scope, "break"@) ==> (r matches Ok(v) && v@ == break_v())
            && *final(meta) == *old(meta) && final(env)@ == old(env)@,
        dispatches(tokens@, old(meta).in_scope, "create_var"@) && plain_ok(
            rest_views(tokens@),
            old(env)@,
        ) && plain_resolved(rest_views(tokens@), old(env)@).len() >= 2 && plain_resolved(
            rest_views(tokens@),
            old(env)@,
        )[0].ty != TokenTypes::NONE ==> (r matches Ok(v) && v@ == none_v()) && final(env)@ == old(env)@.insert(
            plain_resolved(rest_views(tokens@), old(env)@)[0].val,
            VariableV {
                value: plain_resolved(rest_views(tokens@), old(env)@)[1],
                scope: old(meta).scope,
            },
        ) && *final(meta) == *old(meta),
        dispatches(tokens@, old(meta).in_scope, "eq"@) && plain_ok(
            rest_views(tokens@),
            old(env)@,
        ) && eq_like_v(plain_resolved(rest_views(tokens@), old(env)@), false, false) is Some ==> (
        r matches Ok(v) && v@ == eq_like_v(
            plain_resolved(rest_views(tokens@), old(env)@),
            false,
            false,
        )->Some_0) && *final(meta) == *old(meta) && final(env)@ == old(env)@,
        dispatches(tokens@, old(meta).in_scope, "say"@) && plain_ok(
            rest_views(tokens@),
            old(env)@,
        ) ==> (r matches Ok(v) && v@ == none_v()) && final(env)@ == old(env)@ && final(meta).out@.len() == old(meta).out@.len() + plain_resolved(rest_views(tokens@), old(env)@).len()
            + 1 && (forall|j: int|
            0 <= j < plain_resolved(rest_views(tokens@), old(env)@).len() ==> (#[trigger] final(meta).out@[old(meta).out@.len() + j])@ == plain_resolved(
                rest_views(tokens@),
                old(env)@,
            )[j].val.push(' ')) && final(meta).out@.last()@ == seq!['\n'],
        tokens@.len() > 0 && (tokens@[0]@.ty == TokenTypes::FUNC || tokens@[0]@.ty
            == TokenTypes::CUSTOMFUNC) && builtin_names().contains(tokens@[0]@.val) && old(meta).in_scope ==> (r matches Ok(v) && v@ == none_v() && *final(meta) == *old(meta) && final(env)@ == old(env)@),
    decreases fuel, 4int,
{
    if tokens.len() == 0 {
        return Ok(none_token());
    }
    let head = &tokens[0];
    if !(head.ty == TokenTypes::FUNC || head.ty == TokenTypes::CUSTOMFUNC) {
        return Ok(mk_token(head.ty, false, head.val.clone()));
    }
    proof {
        assert(builtin_names()[0] == "say"@);
        assert(builtin_names()[3] == "create_var"@);
        assert(builtin_names()[13] == "eq"@);
        assert(builtin_names()[21] == "break"@);
    }
    if !is_builtin(&head.val) {
        let mut m = "Error: Function ".to_owned();
        m.append(head.val.as_str());
        m.append(" does not exist!");
        return Err(Abort::Fatal(m));
    }
    if meta.in_scope {
        return Ok(none_token());
    }
    let mut tail: Vec<Token> = Vec::new();
    proof {
        assert(views_of(tail@) =~= views_of(tokens@).subrange(1, 1));
    }
    let mut i: usize = 1;
    while i < tokens.len()
        invariant
            1 <= i <= tokens@.len(),
            views_of(tail@) == views_of(tokens@).subrange(1, i as int),
        decreases tokens@.len() - i,
    {
        tail.push(copy_token(&tokens[i]));
        proof {
            let ghost pre = views_of(tokens@).subrange(1, i as int);
            assert forall|j: int|
                0 <= j < views_of(tail@).len() implies views_of(tail@)[j] == views_of(
                tokens@,
            ).subrange(1, i as int + 1)[j] by {
                if j < pre.len() {
                    assert(views_of(tail@)[j] == pre[j]);
                } else {
                    assert(tail@[j]@ == tokens@[i as int]@);
                }
            }
            assert(views_of(tail@) =~= views_of(tokens@).subrange(1, i as int + 1));
        }
        i += 1;
    }
    proof {
        assert(views_of(tail@) =~= rest_views(tokens@));
        reveal_strlit("say");
        reveal_strlit("short_say");
        reveal_strlit("ask");
        reveal_strlit("create_var");
        reveal_strlit("sum");
        reveal_strlit("difference");
        reveal_strlit("product");
        reveal_strlit("quotient");
        reveal_strlit("forever");
        reveal_strlit("scope");
        reveal_strlit("if");
        reveal_strlit("while");
        reveal_strlit("until");
        reveal_strlit("eq");
        reveal_strlit("ne");
        reveal_strlit("gt");
        reveal_strlit("lt");
        reveal_strlit("add_assign");
        reveal_strlit("subtract_assign");
        reveal_strlit("multiply_assign");
        reveal_strlit("divide_assign");
        reveal_strlit("break");
        assert("say"@.len() == 3 && "short_say"@.len() == 9 && "ask"@.len() == 3
            && "create_var"@.len() == 10 && "sum"@.len() == 3 && "difference"@.len() == 10
            && "product"@.len() == 7 && "quotient"@.len() == 8 && "forever"@.len() == 7
            && "scope"@.len() == 5 && "if"@.len() == 2 && "while"@.len() == 5 && "until"@.len()
            == 5 && "eq"@.len() == 2 && "ne"@.len() == 2 && "gt"@.len() == 2 && "lt"@.len() == 2
            && "add_assign"@.len() == 10 && "subtract_assign"@.len() == 15
            && "multiply_assign"@.len() == 15 && "divide_assign"@.len() == 13 && "break"@.len()
            == 5);
        assert("eq"@[0] == 'e' && "if"@[0] == 'i' && "break"@[0] == 'b' && "scope"@[0] == 's'
            && "while"@[0] == 'w' && "until"@[0] == 'u');
        assert("eq"@ != "say"@ && "eq"@ != "short_say"@ && "eq"@ != "ask"@ && "eq"@
            != "create_var"@ && "eq"@ != "sum"@ && "eq"@ != "difference"@ && "eq"@ != "product"@
            && "eq"@ != "quotient"@ && "eq"@ != "forever"@ && "eq"@ != "scope"@ && "eq"@ != "if"@
            && "eq"@ != "while"@ && "eq"@ != "until"@);
        assert("break"@ != "say"@ && "break"@ != "short_say"@ && "break"@ != "ask"@ && "break"@
            != "create_var"@ && "break"@ != "sum"@ && "break"@ != "difference"@ && "break"@
            != "product"@ && "break"@ != "quotient"@ && "break"@ != "forever"@ && "break"@
            != "scope"@ && "break"@ != "if"@ && "break"@ != "while"@ && "break"@ != "until"@
            && "break"@ != "eq"@ && "break"@ != "ne"@ && "break"@ != "gt"@ && "break"@ != "lt"@
            && "break"@ != "add_assign"@ && "break"@ != "subtract_assign"@ && "break"@
            != "multiply_assign"@ && "break"@ != "divide_assign"@);
    }
    let name = &head.val;
    if str_is(name, "say") {
        say(tail, meta, env, eng, fuel)
    } else if str_is(name, "short_say") {
        short_say(tail, meta, env, eng, fuel)
    } else if str_is(name, "ask") {
        ask(tail, meta, env, eng, fuel)
    } else if str_is(name, "create_var") {
        create_var(tail, meta, env, eng, fuel)
    } else if str_is(name, "sum") {
        sum(tail, meta, env, eng, fuel)
    } else if str_is(name, "difference") {
        difference(tail, meta, env, eng, fuel)
    } else if str_is(name, "product") {
        product(tail, meta, env, eng, fuel)
    } else if str_is(name, "quotient") {
        quotient(tail, meta, env, eng, fuel)
    } else if str_is(name, "forever") {
        forever(tail, meta, env, eng, fuel)
    } else if str_is(name, "scope") {
        scope(tail, meta, env, eng, fuel)
    } else if str_is(name, "if") {
        if_(tail, meta, env, eng, fuel)
    } else if str_is(name, "while") {
        while_(tail, meta, env, eng, fuel)
    } else if str_is(name, "until") {
        until(tail, meta, env, eng, fuel)
    } else if str_is(name, "eq") {
        eq(tail, meta, env, eng, fuel)
    } else if str_is(name, "ne") {
        ne(tail, meta, env, eng, fuel)
    } else if str_is(name, "gt") {
        gt(tail, meta, env, eng, fuel)
    } else if str_is(name, "lt") {
        lt(tail, meta, env, eng, fuel)
    } else if str_is(name, "add_assign") {
        add_assign(tail, meta, env, eng, fuel)
    } else if str_is(name, "subtract_assign") {
        subtract_assign(tail, meta, env, eng, fuel)
    } else if str_is(name, "multiply_assign") {
        multiply_assign(tail, meta, env, eng, fuel)
    } else if str_is(name, "divide_assign") {
        divide_assign(tail, meta, env, eng, fuel)
    } else if str_is(name, "break") {
        break_(tail, meta, env, eng, fuel)
    } else if str_is(name, "lazy_eq") {
        lazy_eq(tail, meta, env, eng, fuel)
    } else if str_is(name, "lazy_ne") {
        lazy_ne(tail, meta, env, eng, fuel)
    } else if str_is(name, "int") {
        int_(tail, meta, env, eng, fuel)
    } else if str_is(name, "float") {
        float(tail, meta, env, eng, fuel)
    } else if str_is(name, "vars") {
        vars(tail, meta, env, eng, fuel)
    } else if str_is(name, "format_array") {
        format_array(tail, meta, env, eng, fuel)
    } else {
        // Only `quit` and its alias `exit` are left in the table.
        quit(tail, meta, env, eng, fuel)
    }
}

} // verus!
