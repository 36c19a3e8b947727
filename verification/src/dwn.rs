//! The environment for Dawn (dwn): the variable table with its scoped
//! lifetime rules, and the per-run execution context threaded through every
//! lexer and evaluator call.

use std::io::Write;

use vstd::prelude::*;

use crate::Abort;
use crate::lexer::{
    Token, TokenModifiers, TokenTypes, TokenV, break_v, copy_token, has_args, is_break,
    kind_name, mk_token, none_token, none_v, token_v, views_of,
};
use crate::numbers::{ArithOp, CmpOp, Numerics, parse_i32, parse_i64};
use crate::text::{chars_of, split_lines, string_of, trim_chars};

verus! {

/// A variable: its bound value and the scope depth it was declared at.
#[derive(Clone)]
pub struct Variable {
    pub value: Token,
    pub scope: u32,
}

/// The mathematical value of a [`Variable`].
#[verifier::ext_equal]
pub struct VariableV {
    pub value: TokenV,
    pub scope: u32,
}

impl View for Variable {
    type V = VariableV;

    open spec fn view(&self) -> VariableV {
        VariableV { value: self.value@, scope: self.scope }
    }
}

/// The per-run execution context: the 1-based line counter (held 0-based and
/// printed plus one), the current scope depth, the scope-capture state, and
/// the output log — every chunk of text the program has printed, in order.
pub struct Metadata {
    pub line_count: usize,
    pub scope: u32,
    pub in_scope: bool,
    pub scope_token: String,
    pub current_tokens: Vec<Token>,
    pub out: Vec<String>,
}

impl Metadata {
    /// A fresh context for a run starting at the given line.
    pub fn new(line_count: usize) -> (r: Metadata)
        ensures
            r.line_count == line_count,
            r.scope == 0,
            !r.in_scope,
            r.scope_token@ == Seq::<char>::empty(),
            r.current_tokens@ == Seq::<Token>::empty(),
            r.out@ == Seq::<String>::empty(),
    {
        Metadata {
            line_count,
            scope: 0,
            in_scope: false,
            scope_token: String::new(),
            current_tokens: Vec::new(),
            out: Vec::new(),
        }
    }
}

/// The map an association list stands for; a later entry for the same name
/// overrides an earlier one.
pub open spec fn assoc_map(s: Seq<(Seq<char>, VariableV)>) -> Map<Seq<char>, VariableV>
    decreases s.len(),
{
    if s.len() == 0 {
        Map::empty()
    } else {
        assoc_map(s.drop_last()).insert(s.last().0, s.last().1)
    }
}

/// No two entries bind the same name.
pub open spec fn distinct_keys(s: Seq<(Seq<char>, VariableV)>) -> bool {
    forall|i: int, j: int| 0 <= i < j < s.len() ==> (#[trigger] s[i]).0 != (#[trigger] s[j]).0
}

pub proof fn lemma_assoc_map_domain(s: Seq<(Seq<char>, VariableV)>, k: Seq<char>)
    ensures
        assoc_map(s).contains_key(k) <==> exists|i: int| 0 <= i < s.len() && (#[trigger] s[i]).0
            == k,
    decreases s.len(),
{
    if s.len() > 0 {
        lemma_assoc_map_domain(s.drop_last(), k);
        if s.last().0 == k {
            assert(s[s.len() - 1].0 == k);
        } else if assoc_map(s).contains_key(k) {
            let i = choose|i: int| 0 <= i < s.drop_last().len() && (#[trigger] s.drop_last()[i]).0
                == k;
            assert(s[i].0 == k);
        } else {
            assert(forall|i: int|
                0 <= i < s.len() - 1 ==> (#[trigger] s[i]) == s.drop_last()[i]);
        }
    }
}

pub proof fn lemma_assoc_map_index(s: Seq<(Seq<char>, VariableV)>, i: int)
    requires
        distinct_keys(s),
        0 <= i < s.len(),
    ensures
        assoc_map(s).contains_key(s[i].0),
        assoc_map(s)[s[i].0] == s[i].1,
    decreases s.len(),
{
    if i == s.len() - 1 {
    } else {
        assert(s.drop_last()[i] == s[i]);
        lemma_assoc_map_index(s.drop_last(), i);
        assert(s[s.len() - 1].0 != s[i].0);
    }
}

/// The environment after the sweep that ends a scope at depth `d`: every
/// binding declared at `d` is gone, every other binding is untouched.
pub open spec fn sweep_spec(m: Map<Seq<char>, VariableV>, d: u32) -> Map<Seq<char>, VariableV> {
    Map::new(|k: Seq<char>| m.contains_key(k) && m[k].scope != d, |k: Seq<char>| m[k])
}

/// A global (depth-0) binding survives the sweep that ends any scope: the
/// sweep of a positive depth keeps it, with its value unchanged.
pub proof fn lemma_sweep_preserves_globals(m: Map<Seq<char>, VariableV>, d: u32, k: Seq<char>)
    requires
        d >= 1,
        m.contains_key(k),
        m[k].scope == 0,
    ensures
        sweep_spec(m, d).contains_key(k),
        sweep_spec(m, d)[k] == m[k],
{
}

/// The variable table: names bound to values with their declaring scope
/// depth, plus the names of user-defined custom functions the lexer may
/// recognize. The value of an environment is the map from names to bindings.
pub struct Environment {
    vars: Vec<(String, Variable)>,
    customs: Vec<String>,
}

impl View for Environment {
    type V = Map<Seq<char>, VariableV>;

    closed spec fn view(&self) -> Map<Seq<char>, VariableV> {
        assoc_map(self.entries())
    }
}

impl Environment {
    /// The bindings in insertion order.
    pub closed spec fn entries(self) -> Seq<(Seq<char>, VariableV)> {
        self.vars@.map_values(|p: (String, Variable)| (p.0@, p.1@))
    }

    /// The names of the user-defined custom functions.
    pub closed spec fn customs(self) -> Seq<Seq<char>> {
        self.customs@.map_values(|s: String| s@)
    }

    /// Each name is bound at most once.
    pub closed spec fn wf(self) -> bool {
        distinct_keys(self.entries())
    }

    /// A fresh environment, holding only the preloaded `$hello` greeting and
    /// no custom functions.
    pub fn new() -> (r: Environment)
        ensures
            r.wf(),
            r@ == Map::empty().insert(
                "$hello"@,
                VariableV {
                    value: crate::lexer::token_v(TokenTypes::STRING, false, "Hello, World!"@),
                    scope: 0,
                },
            ),
            r.customs() == Seq::<Seq<char>>::empty(),
    {
        let hello = Variable {
            value: crate::lexer::mk_token(TokenTypes::STRING, false, "Hello, World!".to_owned()),
            scope: 0,
        };
        let mut r = Environment { vars: Vec::new(), customs: Vec::new() };
        proof {
            assert(r.entries() =~= Seq::<(Seq<char>, VariableV)>::empty());
            assert(r@ =~= Map::<Seq<char>, VariableV>::empty());
            assert(r.customs() =~= Seq::<Seq<char>>::empty());
            assert(hello@ =~= VariableV {
                value: crate::lexer::token_v(TokenTypes::STRING, false, "Hello, World!"@),
                scope: 0,
            });
        }
        r.set("$hello".to_owned(), hello);
        r
    }

    /// Whether `name` is bound.
    #[verifier::loop_isolation(false)]
    pub fn contains(&self, name: &String) -> (r: bool)
        ensures
            r == self@.contains_key(name@),
    {
        let mut i: usize = 0;
        while i < self.vars.len()
            invariant
                i <= self.vars@.len(),
                forall|j: int| 0 <= j < i ==> (#[trigger] self.entries()[j]).0 != name@,
                self.entries().len() == self.vars@.len(),
                forall|j: int|
                    0 <= j < self.vars@.len() ==> (#[trigger] self.entries()[j]) == (
                        self.vars@[j].0@,
                        self.vars@[j].1@,
                    ),
            decreases self.vars@.len() - i,
        {
            if self.vars[i].0 == *name {
                proof {
                    assert((self.entries()[i as int]).0 == name@);
                    lemma_assoc_map_domain(self.entries(), name@);
                }
                return true;
            }
            i += 1;
        }
        proof {
            lemma_assoc_map_domain(self.entries(), name@);
        }
        false
    }

    /// The binding of `name`, when there is one.
    #[verifier::loop_isolation(false)]
    pub fn lookup(&self, name: &String) -> (r: Option<&Variable>)
        requires
            self.wf(),
        ensures
            match r {
                Some(v) => self@.contains_key(name@) && v@ == self@[name@],
                None => !self@.contains_key(name@),
            },
    {
        let mut i: usize = 0;
        while i < self.vars.len()
            invariant
                i <= self.vars@.len(),
                forall|j: int| 0 <= j < i ==> (#[trigger] self.entries()[j]).0 != name@,
                self.entries().len() == self.vars@.len(),
                forall|j: int|
                    0 <= j < self.vars@.len() ==> (#[trigger] self.entries()[j]) == (
                        self.vars@[j].0@,
                        self.vars@[j].1@,
                    ),
            decreases self.vars@.len() - i,
        {
            if self.vars[i].0 == *name {
                proof {
                    assert(self.wf());
                    assert(distinct_keys(self.entries()));
                    assert(self.entries()[i as int].0 == name@);
                    lemma_assoc_map_index(self.entries(), i as int);
                }
                return Some(&self.vars[i].1);
            }
            i += 1;
        }
        proof {
            lemma_assoc_map_domain(self.entries(), name@);
        }
        None
    }

    /// Binds or overwrites `name` with `var`, as `create_var` and the
    /// compound assignments do.
    #[verifier::loop_isolation(false)]
    pub fn set(&mut self, name: String, var: Variable)
        requires
            old(self).wf(),
        ensures
            final(self).wf(),
            final(self)@ == old(self)@.insert(name@, var@),
            final(self).customs() == old(self).customs(),
    {
        let ghost old_entries = self.entries();
        let mut i: usize = 0;
        while i < self.vars.len()
            invariant
                i <= self.vars@.len(),
                forall|j: int| 0 <= j < i ==> (#[trigger] self.entries()[j]).0 != name@,
                self.entries().len() == self.vars@.len(),
                forall|j: int|
                    0 <= j < self.vars@.len() ==> (#[trigger] self.entries()[j]) == (
                        self.vars@[j].0@,
                        self.vars@[j].1@,
                    ),
                self == old(self),
            decreases self.vars@.len() - i,
        {
            if self.vars[i].0 == name {
                let ghost k = old_entries[i as int].0;
                proof {
                    assert(k == name@);
                }
                self.vars.remove(i);
                self.vars.insert(i, (name, var));
                proof {
                    assert(self.entries() =~= old_entries.update(i as int, (k, var@)));
                    lemma_assoc_update(old_entries, i as int, var@);
                }
                return ;
            }
            i += 1;
        }
        self.vars.push((name, var));
        proof {
            assert(self.entries() =~= old_entries.push((name@, var@)));
            assert(self.entries().drop_last() =~= old_entries);
            lemma_assoc_map_domain(old_entries, name@);
        }
    }

    /// Removes every binding declared at depth `d`, as the sweep that ends a
    /// scope does.
    #[verifier::loop_isolation(false)]
    pub fn sweep(&mut self, d: u32)
        requires
            old(self).wf(),
        ensures
            final(self).wf(),
            final(self)@ == sweep_spec(old(self)@, d),
            final(self).customs() == old(self).customs(),
    {
        let ghost old_entries = self.entries();
        let mut kept: Vec<(String, Variable)> = Vec::new();
        let mut i: usize = 0;
        while i < self.vars.len()
            invariant
                i <= self.vars@.len(),
                self.entries().len() == self.vars@.len(),
                forall|j: int|
                    0 <= j < self.vars@.len() ==> (#[trigger] self.entries()[j]) == (
                        self.vars@[j].0@,
                        self.vars@[j].1@,
                    ),
                self == old(self),
                old_entries == self.entries(),
                kept@.map_values(|p: (String, Variable)| (p.0@, p.1@)) =~= keep_filter(
                    old_entries.subrange(0, i as int),
                    d,
                ),
            decreases self.vars@.len() - i,
        {
            let keep = self.vars[i].1.scope != d;
            proof {
                assert(old_entries.subrange(0, i as int + 1).drop_last() =~= old_entries.subrange(
                    0,
                    i as int,
                ));
                assert(old_entries.subrange(0, i as int + 1).last() == old_entries[i as int]);
            }
            if keep {
                let name = self.vars[i].0.clone();
                let value = copy_variable(&self.vars[i].1);
                kept.push((name, value));
            }
            i += 1;
        }
        proof {
            assert(old_entries.subrange(0, old_entries.len() as int) =~= old_entries);
        }
        self.vars = kept;
        proof {
            lemma_keep_filter(old_entries, d);
        }
    }

    /// The binding list itself, in insertion order.
    fn borrow_vars(&self) -> (r: &Vec<(String, Variable)>)
        ensures
            r@.map_values(|p: (String, Variable)| (p.0@, p.1@)) == self.entries(),
    {
        &self.vars
    }

    /// Whether `word` names a user-defined custom function.
    #[verifier::loop_isolation(false)]
    pub fn is_custom(&self, word: &String) -> (r: bool)
        ensures
            r == self.customs().contains(word@),
    {
        let mut i: usize = 0;
        while i < self.customs.len()
            invariant
                i <= self.customs@.len(),
                forall|j: int| 0 <= j < i ==> (#[trigger] self.customs()[j]) != word@,
                self.customs().len() == self.customs@.len(),
                forall|j: int|
                    0 <= j < self.customs@.len() ==> (#[trigger] self.customs()[j])
                        == self.customs@[j]@,
            decreases self.customs@.len() - i,
        {
            if self.customs[i] == *word {
                assert(self.customs()[i as int] == word@);
                return true;
            }
            i += 1;
        }
        false
    }
}

/// One output log extends another: everything printed so far stays printed,
/// in order.
pub open spec fn out_extends(a: Seq<String>, b: Seq<String>) -> bool {
    a.len() <= b.len() && forall|i: int| 0 <= i < a.len() ==> a[i] == #[trigger] b[i]
}

pub proof fn lemma_out_extends_trans(a: Seq<String>, b: Seq<String>, c: Seq<String>)
    requires
        out_extends(a, b),
        out_extends(b, c),
    ensures
        out_extends(a, c),
{
}

/// Whether the token is marked as an argument.
pub open spec fn is_args(t: TokenV) -> bool {
    t.modifiers.contains(TokenModifiers::ARGS)
}

/// Whether the token's kind is numeric: INT or FLOAT.
pub open spec fn numericish(ty: TokenTypes) -> bool {
    ty == TokenTypes::INT || ty == TokenTypes::FLOAT
}

/// The BOOL token a comparison returns.
pub open spec fn bool_v(b: bool) -> TokenV {
    token_v(TokenTypes::BOOL, false, if b { "true"@ } else { "false"@ })
}

/// How many leading tokens carry the argument mark: the arguments the
/// dispatched builtin consumes.
pub open spec fn args_prefix_len(ts: Seq<TokenV>) -> int
    decreases ts.len(),
{
    if ts.len() == 0 {
        0
    } else if !is_args(ts[0]) {
        0
    } else {
        1 + args_prefix_len(ts.drop_first())
    }
}

pub proof fn lemma_args_prefix_is(ts: Seq<TokenV>, i: int)
    requires
        0 <= i <= ts.len(),
        forall|j: int| 0 <= j < i ==> is_args(#[trigger] ts[j]),
        i < ts.len() ==> !is_args(ts[i]),
    ensures
        args_prefix_len(ts) == i,
    decreases ts.len(),
{
    if ts.len() > 0 && is_args(ts[0]) {
        assert(forall|j: int|
            0 <= j < i - 1 ==> ts.drop_first()[j] == ts[j + 1] && is_args(#[trigger] ts[j + 1]));
        lemma_args_prefix_is(ts.drop_first(), if i == 0 { 0 } else { i - 1 });
    }
}

/// How one argument token resolves when it is not a LITERAL: a VARIABLE is
/// replaced by its bound value, a NAME is a fatal lookup error, everything
/// else passes through unchanged.
pub open spec fn resolve_one(t: TokenV, env: Map<Seq<char>, VariableV>) -> Option<TokenV> {
    if t.ty == TokenTypes::VARIABLE {
        if env.contains_key(t.val) {
            Some(env[t.val].value)
        } else {
            None
        }
    } else if t.ty == TokenTypes::NAME {
        None
    } else {
        Some(t)
    }
}

/// Whether the argument prefix holds no LITERAL token, so that resolution is
/// a pure function of the environment.
pub open spec fn plain_args(ts: Seq<TokenV>) -> bool {
    forall|j: int| 0 <= j < args_prefix_len(ts) ==> (#[trigger] ts[j]).ty != TokenTypes::LITERAL
}

/// The first `n` argument tokens, resolved.
pub open spec fn resolve_upto(ts: Seq<TokenV>, env: Map<Seq<char>, VariableV>, n: int) -> Option<
    Seq<TokenV>,
>
    decreases n,
{
    if n <= 0 {
        Some(Seq::empty())
    } else {
        match resolve_upto(ts, env, n - 1) {
            None => None,
            Some(a) => match resolve_one(ts[n - 1], env) {
                None => None,
                Some(t) => Some(a.push(t)),
            },
        }
    }
}

/// The whole argument prefix, resolved.
pub open spec fn resolve_plain(ts: Seq<TokenV>, env: Map<Seq<char>, VariableV>) -> Option<
    Seq<TokenV>,
> {
    resolve_upto(ts, env, args_prefix_len(ts))
}

/// Whether resolution of a LITERAL-free argument prefix succeeds.
pub open spec fn plain_ok(ts: Seq<TokenV>, env: Map<Seq<char>, VariableV>) -> bool {
    plain_args(ts) && resolve_plain(ts, env) is Some
}

/// The resolved arguments of a LITERAL-free prefix.
pub open spec fn plain_resolved(ts: Seq<TokenV>, env: Map<Seq<char>, VariableV>) -> Seq<TokenV> {
    resolve_plain(ts, env)->Some_0
}

proof fn lemma_resolve_none_mono(ts: Seq<TokenV>, env: Map<Seq<char>, VariableV>, n: int, m: int)
    requires
        0 <= n <= m,
        resolve_upto(ts, env, n) is None,
    ensures
        resolve_upto(ts, env, m) is None,
    decreases m,
{
    if m > n {
        lemma_resolve_none_mono(ts, env, n, m - 1);
    }
}

proof fn lemma_args_prefix_at_least(ts: Seq<TokenV>, k: int)
    requires
        0 <= k <= ts.len(),
        forall|j: int| 0 <= j < k ==> is_args(#[trigger] ts[j]),
    ensures
        args_prefix_len(ts) >= k,
    decreases ts.len(),
{
    if ts.len() > 0 && is_args(ts[0]) {
        assert(forall|j: int|
            0 <= j < k - 1 ==> ts.drop_first()[j] == ts[j + 1] && is_args(#[trigger] ts[j + 1]));
        lemma_args_prefix_at_least(ts.drop_first(), if k == 0 { 0 } else { k - 1 });
        assert(args_prefix_len(ts) == 1 + args_prefix_len(ts.drop_first()));
    }
}

/// The names the builtin function table holds, in registration order.
pub open spec fn builtin_names() -> Seq<Seq<char>> {
    seq![
        "say"@,
        "short_say"@,
        "ask"@,
        "create_var"@,
        "sum"@,
        "difference"@,
        "product"@,
        "quotient"@,
        "forever"@,
        "scope"@,
        "if"@,
        "while"@,
        "until"@,
        "eq"@,
        "ne"@,
        "gt"@,
        "lt"@,
        "add_assign"@,
        "subtract_assign"@,
        "multiply_assign"@,
        "divide_assign"@,
        "break"@,
        "lazy_eq"@,
        "lazy_ne"@,
        "int"@,
        "float"@,
        "vars"@,
        "format_array"@,
        "quit"@,
        "exit"@,
    ]
}

/// Whether `word` names a builtin function.
pub fn is_builtin(word: &String) -> (r: bool)
    ensures
        r == builtin_names().contains(word@),
{
    let names = get_funcs();
    let mut i: usize = 0;
    while i < names.len()
        invariant
            i <= names@.len(),
            names@.len() == builtin_names().len(),
            forall|j: int| 0 <= j < names@.len() ==> names@[j]@ == builtin_names()[j],
            forall|j: int| 0 <= j < i ==> builtin_names()[j] != word@,
        decreases names@.len() - i,
    {
        if names[i] == *word {
            assert(builtin_names()[i as int] == word@);
            return true;
        }
        i += 1;
    }
    proof {
        assert(forall|j: int| 0 <= j < builtin_names().len() ==> builtin_names()[j] != word@);
    }
    false
}

/// Gets the names of the builtin functions, in registration order.
pub fn get_funcs() -> (r: Vec<String>)
    ensures
        r@.len() == builtin_names().len(),
        forall|j: int| 0 <= j < r@.len() ==> (#[trigger] r@[j]@) == builtin_names()[j],
{
    let mut r: Vec<String> = Vec::new();
    r.push("say".to_owned());
    r.push("short_say".to_owned());
    r.push("ask".to_owned());
    r.push("create_var".to_owned());
    r.push("sum".to_owned());
    r.push("difference".to_owned());
    r.push("product".to_owned());
    r.push("quotient".to_owned());
    r.push("forever".to_owned());
    r.push("scope".to_owned());
    r.push("if".to_owned());
    r.push("while".to_owned());
    r.push("until".to_owned());
    r.push("eq".to_owned());
    r.push("ne".to_owned());
    r.push("gt".to_owned());
    r.push("lt".to_owned());
    r.push("add_assign".to_owned());
    r.push("subtract_assign".to_owned());
    r.push("multiply_assign".to_owned());
    r.push("divide_assign".to_owned());
    r.push("break".to_owned());
    r.push("lazy_eq".to_owned());
    r.push("lazy_ne".to_owned());
    r.push("int".to_owned());
    r.push("float".to_owned());
    r.push("vars".to_owned());
    r.push("format_array".to_owned());
    r.push("quit".to_owned());
    r.push("exit".to_owned());
    r
}

/// Collects and resolves the arguments of a builtin: the leading run of
/// ARGS-marked tokens, each resolved — a LITERAL by recursively lexing and
/// running its stored text, a VARIABLE by its current bound value (fatal if
/// unbound), a NAME fatally, anything else unchanged. When the prefix holds
/// no LITERAL the result and the untouched state are stated exactly.
#[verifier::loop_isolation(false)]
pub fn get_args<E: Numerics>(
    tokens: &Vec<Token>,
    meta: &mut Metadata,
    env: &mut Environment,
    eng: &E,
    fuel: u32,
) -> (r: Result<Vec<Token>, Abort>)
    requires
        old(env).wf(),
    ensures
        final(env).wf(),
        final(meta).line_count == old(meta).line_count,
        out_extends(old(meta).out@, final(meta).out@),
        r is Ok ==> final(meta).scope == old(meta).scope,
        r is Ok ==> views_of(r->Ok_0@).len() == args_prefix_len(views_of(tokens@)),
        plain_args(views_of(tokens@)) && resolve_plain(views_of(tokens@), old(env)@) is Some ==> (
        r matches Ok(v) && views_of(v@) == plain_resolved(views_of(tokens@), old(env)@) && *final(meta) == *old(meta) && final(env)@ == old(env)@ && final(env).customs() == old(env).customs()),
        plain_args(views_of(tokens@)) && resolve_plain(views_of(tokens@), old(env)@) is None ==> (r
            matches Err(a) && a is Fatal) && *final(meta) == *old(meta) && final(env)@ == old(env)@
            && final(env).customs() == old(env).customs(),
    decreases fuel, 1int,
{
    let ghost tsv = views_of(tokens@);
    let ghost env0 = old(env)@;
    let mut args: Vec<Token> = Vec::new();
    let mut i: usize = 0;
    while i < tokens.len()
        invariant
            i <= tokens@.len(),
            env.wf(),
            meta.line_count == old(meta).line_count,
            meta.scope == old(meta).scope,
            out_extends(old(meta).out@, meta.out@),
            forall|j: int| 0 <= j < i ==> is_args(#[trigger] tsv[j]),
            views_of(args@).len() == i,
            plain_args(tsv) ==> {
                &&& resolve_upto(tsv, env0, i as int) is Some
                &&& views_of(args@) == resolve_upto(tsv, env0, i as int)->Some_0
                &&& *meta == *old(meta)
                &&& env@ == env0
                &&& env.customs() == old(env).customs()
            },
        decreases tokens@.len() - i,
    {
        if !has_args(&tokens[i]) {
            break ;
        }
        proof {
            lemma_args_prefix_at_least(tsv, i + 1);
        }
        let t = &tokens[i];
        match t.ty {
            TokenTypes::LITERAL => {
                proof {
                    if plain_args(tsv) {
                        assert(tsv[i as int].ty != TokenTypes::LITERAL);
                    }
                }
                if fuel == 0 {
                    return Err(Abort::Budget);
                }
                match crate::runner::run(t.val.clone(), meta, env, eng, fuel - 1) {
                    Ok(tok) => {
                        args.push(tok);
                    },
                    Err(a) => {
                        return Err(a);
                    },
                }
            },
            TokenTypes::VARIABLE => {
                let looked = env.lookup(&t.val);
                match looked {
                    Some(var) => {
                        let tok = copy_token(&var.value);
                        args.push(tok);
                        proof {
                            if plain_args(tsv) {
                                assert(resolve_one(tsv[i as int], env0) == Some(
                                    env0[tsv[i as int].val].value,
                                ));
                                assert(views_of(args@) =~= resolve_upto(
                                    tsv,
                                    env0,
                                    i + 1,
                                )->Some_0);
                            }
                        }
                    },
                    None => {
                        proof {
                            if plain_args(tsv) {
                                assert(resolve_upto(tsv, env0, i + 1) is None);
                                lemma_resolve_none_mono(
                                    tsv,
                                    env0,
                                    i + 1,
                                    args_prefix_len(tsv),
                                );
                            }
                        }
                        let mut m = "Variable '".to_owned();
                        m.append(t.val.as_str());
                        m.append("' does not exist!");
                        return Err(crate::fatal_at(meta.line_count, m.as_str()));
                    },
                }
            },
            TokenTypes::NAME => {
                proof {
                    if plain_args(tsv) {
                        assert(resolve_upto(tsv, env0, i + 1) is None);
                        lemma_resolve_none_mono(tsv, env0, i + 1, args_prefix_len(tsv));
                    }
                }
                let mut m = "Name '".to_owned();
                m.append(t.val.as_str());
                m.append("' does not exist!");
                return Err(crate::fatal_at(meta.line_count, m.as_str()));
            },
            _ => {
                let tok = copy_token(t);
                args.push(tok);
                proof {
                    if plain_args(tsv) {
                        assert(views_of(args@) =~= resolve_upto(tsv, env0, i + 1)->Some_0);
                    }
                }
            },
        }
        i += 1;
    }
    proof {
        if i < tokens@.len() {
            assert(!is_args(tsv[i as int]));
        }
        lemma_args_prefix_is(tsv, i as int);
    }
    Ok(args)
}

/// Runs a scope: pushes the depth, runs the block's lines in order, stops at
/// a break sentinel, and — whether the body finished normally or through the
/// sentinel — removes every variable declared at the depth just finished and
/// pops it. Anything but a SCOPE token is a fatal error. On success the
/// depth stands where it stood, and no binding of the swept depth survives.
#[verifier::loop_isolation(false)]
pub fn run_scope<E: Numerics>(
    token: &Token,
    meta: &mut Metadata,
    env: &mut Environment,
    eng: &E,
    fuel: u32,
) -> (r: Result<Token, Abort>)
    requires
        old(env).wf(),
    ensures
        final(env).wf(),
        final(meta).line_count == old(meta).line_count,
        out_extends(old(meta).out@, final(meta).out@),
        token@.ty != TokenTypes::SCOPE ==> (r matches Err(a) && a is Fatal),
        r is Ok ==> final(meta).scope == old(meta).scope,
        r is Ok ==> r->Ok_0@.modifiers == Seq::<TokenModifiers>::empty(),
        r is Ok ==> forall|k: Seq<char>|
            final(env)@.contains_key(k) ==> (#[trigger] final(env)@[k]).scope != old(meta).scope + 1,
        token@.ty == TokenTypes::SCOPE && old(meta).scope < u32::MAX && crate::text::lines_of(
            token@.val,
        ).len() == 0 ==> (r matches Ok(v) && v@ == none_v()) && *final(meta) == *old(meta)
            && final(env)@ == sweep_spec(old(env)@, (old(meta).scope + 1) as u32),
        token@.ty == TokenTypes::SCOPE && old(meta).scope < u32::MAX && fuel >= 1 && !old(
            meta,
        ).in_scope && crate::text::lines_of(token@.val).len() == 1 && crate::lexer::bare_int_line(
            crate::text::lines_of(token@.val)[0],
            *old(env),
        ) ==> (r matches Ok(v) && v@ == token_v(
            TokenTypes::INT,
            false,
            crate::text::lines_of(token@.val)[0],
        )) && *final(meta) == *old(meta) && final(env)@ == sweep_spec(
            old(env)@,
            (old(meta).scope + 1) as u32,
        ),
    decreases fuel, 1int,
{
    let ghost pinned = token@.ty == TokenTypes::SCOPE && old(meta).scope < u32::MAX && (
    crate::text::lines_of(token@.val).len() == 0 || (fuel >= 1 && !old(meta).in_scope
        && crate::text::lines_of(token@.val).len() == 1 && crate::lexer::bare_int_line(
        crate::text::lines_of(token@.val)[0],
        *old(env),
    )));
    if token.ty != TokenTypes::SCOPE {
        return Err(crate::fatal_at(meta.line_count, "Expected scope!"));
    }
    if meta.scope == u32::MAX {
        return Err(Abort::Budget);
    }
    meta.scope = meta.scope + 1;
    let ghost d = meta.scope;
    let body_chars = chars_of(token.val.as_str());
    let lines = split_lines(&body_chars);
    proof {
        assert(body_chars@ == token@.val);
        assert(lines@.len() == crate::text::lines_of(token@.val).len());
    }
    let mut ret = none_token();
    let mut li: usize = 0;
    let mut broke = false;
    while li < lines.len() && !broke
        invariant
            li <= lines@.len(),
            env.wf(),
            meta.scope == d,
            d == old(meta).scope + 1,
            meta.line_count == old(meta).line_count,
            out_extends(old(meta).out@, meta.out@),
            ret@.modifiers == Seq::<TokenModifiers>::empty(),
            pinned ==> env@ == old(env)@ && meta.scope == old(meta).scope + 1 && meta.in_scope
                == old(meta).in_scope && meta.scope_token == old(meta).scope_token
                && meta.current_tokens == old(meta).current_tokens && meta.out == old(meta).out,
            pinned && li == 0 ==> !broke && ret@ == none_v(),
            pinned && li == 1 ==> !broke && ret@ == token_v(
                TokenTypes::INT,
                false,
                crate::text::lines_of(token@.val)[0],
            ),
        decreases lines@.len() - li,
    {
        if fuel == 0 {
            return Err(Abort::Budget);
        }
        let line_s = string_of(&lines[li]);
        proof {
            if pinned {
                assert(li == 0 && line_s@ == crate::text::lines_of(token@.val)[0]);
            }
        }
        let ghost out_mid = meta.out@;
        match crate::runner::run(line_s, meta, env, eng, fuel - 1) {
            Ok(t) => {
                proof {
                    lemma_out_extends_trans(old(meta).out@, out_mid, meta.out@);
                }
                ret = t;
            },
            Err(a) => {
                return Err(a);
            },
        }
        if is_break(&ret) {
            broke = true;
        }
        li += 1;
    }
    let ghost dd = meta.scope;
    env.sweep(meta.scope);
    meta.scope = meta.scope - 1;
    proof {
        assert(forall|k: Seq<char>|
            env@.contains_key(k) ==> (#[trigger] env@[k]).scope != dd);
    }
    Ok(ret)
}

/// Reads an ARRAY token's items: the value is split on the private
/// separator, each item is lexed lazily, and every token with a non-empty
/// payload joins the result.
#[verifier::loop_isolation(false)]
pub fn read_array<E: Numerics>(
    token: &Token,
    meta: &mut Metadata,
    env: &Environment,
    eng: &E,
    fuel: u32,
) -> (r: Result<Vec<Token>, Abort>)
    requires
        env.wf(),
    ensures
        final(meta).line_count == old(meta).line_count,
        final(meta).scope == old(meta).scope,
        final(meta).out@ == old(meta).out@,
        r matches Ok(v) ==> forall|j: int|
            0 <= j < v@.len() ==> (#[trigger] v@[j]@).val.len() > 0,
{
    let vchars = chars_of(token.val.as_str());
    let items = crate::text::split_chars(&vchars, '\u{5}');
    let mut array: Vec<Token> = Vec::new();
    let mut k: usize = 0;
    while k < items.len()
        invariant
            meta.line_count == old(meta).line_count,
            meta.scope == old(meta).scope,
            meta.out@ == old(meta).out@,
            forall|j: int| 0 <= j < array@.len() ==> (#[trigger] array@[j]@).val.len() > 0,
        decreases items@.len() - k,
    {
        let item_s = string_of(&items[k]);
        let toks = match crate::lexer::tokenize(item_s, meta, env, eng, fuel) {
            Ok(ts) => ts,
            Err(a) => {
                return Err(a);
            },
        };
        let mut j: usize = 0;
        while j < toks.len()
            invariant
                meta.line_count == old(meta).line_count,
                meta.scope == old(meta).scope,
                meta.out@ == old(meta).out@,
                forall|m: int| 0 <= m < array@.len() ==> (#[trigger] array@[m]@).val.len() > 0,
            decreases toks@.len() - j,
        {
            if !toks[j].val.as_str().is_empty() {
                array.push(copy_token(&toks[j]));
            }
            j += 1;
        }
        k += 1;
    }
    Ok(array)
}

/// Relies on `std::io::Stdout::write_fmt`, reached through the `write!`
/// macro: sends the text to standard output. Callers record the same text
/// in the run's output log.
#[verifier::external_body]
fn print_raw(s: &str) {
    let _ = write!(std::io::stdout(), "{}", s);
}

/// Relies on `std::io::Stdout::flush`: forces buffered output out before
/// input is read, or reports the I/O error's text.
#[verifier::external_body]
fn flush_stdout() -> (r: Result<(), String>) {
    match std::io::Write::flush(&mut std::io::stdout()) {
        Ok(()) => Ok(()),
        Err(e) => Err(e.to_string()),
    }
}

/// Relies on `std::io::Stdin::read_line`: one line of user input, whatever
/// the user types, or the I/O error's text.
#[verifier::external_body]
fn read_stdin_line() -> (r: Result<String, String>) {
    let mut s = String::new();
    match std::io::stdin().read_line(&mut s) {
        Ok(_) => Ok(s),
        Err(e) => Err(e.to_string()),
    }
}

/// A copy of a variable, equal in value.
pub fn copy_variable(v: &Variable) -> (r: Variable)
    ensures
        r@ == v@,
{
    let r = Variable { value: crate::lexer::copy_token(&v.value), scope: v.scope };
    assert(r@ =~= v@);
    r
}

/// Gets the variables of an environment, in insertion order.
pub fn get_variables(env: &Environment) -> (r: &Vec<(String, Variable)>)
    ensures
        r@.map_values(|p: (String, Variable)| (p.0@, p.1@)) == env.entries(),
{
    env.borrow_vars()
}

/// Updating one entry of an association list in place, keeping its name,
/// stands for inserting into its map.
proof fn lemma_assoc_update(s: Seq<(Seq<char>, VariableV)>, i: int, v: VariableV)
    requires
        distinct_keys(s),
        0 <= i < s.len(),
    ensures
        distinct_keys(s.update(i, (s[i].0, v))),
        assoc_map(s.update(i, (s[i].0, v))) == assoc_map(s).insert(s[i].0, v),
    decreases s.len(),
{
    let s2 = s.update(i, (s[i].0, v));
    assert(forall|j: int| 0 <= j < s.len() ==> (#[trigger] s2[j]).0 == s[j].0);
    assert(distinct_keys(s2));
    if i == s.len() - 1 {
        assert(s2.drop_last() =~= s.drop_last());
        assert(assoc_map(s2) =~= assoc_map(s).insert(s[i].0, v));
    } else {
        assert(s2.drop_last() =~= s.drop_last().update(i, (s[i].0, v)));
        assert(s.drop_last()[i] == s[i]);
        assert(distinct_keys(s.drop_last())) by {
            assert(forall|a: int, b: int|
                0 <= a < b < s.len() - 1 ==> (#[trigger] s.drop_last()[a]).0 != (
                #[trigger] s.drop_last()[b]).0);
        }
        lemma_assoc_update(s.drop_last(), i, v);
        assert(s2.last() == s.last());
        assert(s.last().0 != s[i].0);
        assert(assoc_map(s2) =~= assoc_map(s).insert(s[i].0, v));
    }
}

/// The entries that survive the sweep of depth `d`, in order.
pub open spec fn keep_filter(s: Seq<(Seq<char>, VariableV)>, d: u32) -> Seq<
    (Seq<char>, VariableV),
>
    decreases s.len(),
{
    if s.len() == 0 {
        Seq::empty()
    } else if s.last().1.scope != d {
        keep_filter(s.drop_last(), d).push(s.last())
    } else {
        keep_filter(s.drop_last(), d)
    }
}

/// Filtering the association list by scope depth stands for the sweep of its
/// map.
proof fn lemma_keep_filter(s: Seq<(Seq<char>, VariableV)>, d: u32)
    requires
        distinct_keys(s),
    ensures
        distinct_keys(keep_filter(s, d)),
        assoc_map(keep_filter(s, d)) == sweep_spec(assoc_map(s), d),
        forall|j: int|
            0 <= j < keep_filter(s, d).len() ==> exists|i: int|
                0 <= i < s.len() && s[i] == #[trigger] keep_filter(s, d)[j],
    decreases s.len(),
{
    if s.len() == 0 {
        assert(assoc_map(keep_filter(s, d)) =~= sweep_spec(assoc_map(s), d));
    } else {
        let t = s.drop_last();
        assert(distinct_keys(t)) by {
            assert(forall|a: int, b: int|
                0 <= a < b < t.len() ==> (#[trigger] t[a]).0 != (#[trigger] t[b]).0);
        }
        lemma_keep_filter(t, d);
        let k = s.last().0;
        let v = s.last().1;
        assert(forall|i: int| 0 <= i < t.len() ==> (#[trigger] t[i]).0 != k) by {
            assert(forall|i: int| 0 <= i < t.len() ==> t[i] == s[i] && s[i].0 != s[s.len() - 1].0);
        }
        assert(!assoc_map(t).contains_key(k)) by {
            lemma_assoc_map_domain(t, k);
        }
        if v.scope != d {
            assert(keep_filter(s, d) == keep_filter(t, d).push(s.last()));
            assert(keep_filter(s, d).drop_last() =~= keep_filter(t, d));
            assert(distinct_keys(keep_filter(s, d))) by {
                assert(forall|j: int|
                    0 <= j < keep_filter(t, d).len() ==> (#[trigger] keep_filter(t, d)[j]).0
                        != k) by {
                    assert(forall|j: int|
                        0 <= j < keep_filter(t, d).len() ==> exists|i: int|
                            0 <= i < t.len() && t[i] == #[trigger] keep_filter(t, d)[j]);
                }
            }
            assert(assoc_map(keep_filter(s, d)) =~= sweep_spec(assoc_map(s), d));
            assert(forall|j: int|
                0 <= j < keep_filter(s, d).len() ==> exists|i: int|
                    0 <= i < s.len() && s[i] == #[trigger] keep_filter(s, d)[j]) by {
                assert(forall|j: int|
                    0 <= j < keep_filter(t, d).len() ==> keep_filter(s, d)[j] == keep_filter(
                        t,
                        d,
                    )[j]);
                assert(keep_filter(s, d)[keep_filter(s, d).len() - 1] == s[s.len() - 1]);
            }
        } else {
            assert(keep_filter(s, d) == keep_filter(t, d));
            assert(assoc_map(keep_filter(s, d)) =~= sweep_spec(assoc_map(s), d));
        }
    }
}

/// Whether two arguments are there and numeric, as the arithmetic and
/// comparison builtins demand.
pub open spec fn arith_ok(a: Seq<TokenV>) -> bool {
    a.len() >= 2 && numericish(a[0].ty) && numericish(a[1].ty)
}

/// The result of an equality builtin on resolved arguments: strict equality
/// compares kind and text, lazy equality text only; `neg` flips the answer.
pub open spec fn eq_like_v(a: Seq<TokenV>, lazy: bool, neg: bool) -> Option<TokenV> {
    if a.len() < 2 {
        None
    } else {
        Some(
            bool_v(
                if neg {
                    !(if lazy {
                        a[0].val == a[1].val
                    } else {
                        a[0].ty == a[1].ty && a[0].val == a[1].val
                    })
                } else {
                    if lazy {
                        a[0].val == a[1].val
                    } else {
                        a[0].ty == a[1].ty && a[0].val == a[1].val
                    }
                },
            ),
        )
    }
}

/// Whether a compound assignment can go through: a VARIABLE left operand, a
/// numeric right operand, and a numeric value currently bound to the name.
pub open spec fn assign_ok(ts: Seq<TokenV>, env: Map<Seq<char>, VariableV>) -> bool {
    ts.len() >= 2 && ts[0].ty == TokenTypes::VARIABLE && numericish(ts[1].ty)
        && env.contains_key(ts[0].val) && numericish(env[ts[0].val].value.ty)
}

/// The environment after a compound assignment rewrote `name` in place:
/// the engine's integral flag picks INT or FLOAT, the binding's modifiers
/// and declaring depth are preserved, and the text is the engine's result.
pub open spec fn assigned_env(
    env0: Map<Seq<char>, VariableV>,
    name: Seq<char>,
    b: bool,
    s: Seq<char>,
) -> Map<Seq<char>, VariableV> {
    env0.insert(
        name,
        VariableV {
            value: TokenV {
                ty: if b {
                    TokenTypes::INT
                } else {
                    TokenTypes::FLOAT
                },
                modifiers: env0[name].value.modifiers,
                val: s,
            },
            scope: env0[name].scope,
        },
    )
}

/// One line of the `vars` listing: the name, the kind in angle brackets, and
/// the bound text.
pub open spec fn vars_line(e: (Seq<char>, VariableV)) -> Seq<char> {
    e.0 + ": <"@ + crate::lexer::kind_name_v(e.1.value.ty) + ">"@ + e.1.value.val + seq!['\n']
}

/// The text the derived token-list formatter prints; it depends on the
/// tokens alone.
pub uninterp spec fn debug_fmt(ts: Seq<TokenV>) -> Seq<char>;

/// Relies on the derived `Debug` rendering of a token list (through the
/// `format!` macro): its text is a function of the tokens alone.
#[verifier::external_body]
fn debug_tokens_text(ts: &Vec<Token>) -> (r: String)
    ensures
        r@ == debug_fmt(views_of(ts@)),
{
    format!("{:?}", ts)
}

/// The arithmetic builtins `sum`, `difference`, `product` and `quotient`:
/// both arguments must be INT or FLOAT; the engine computes on doubles and
/// says whether the result is integral, which picks the result's kind.
#[verifier::loop_isolation(false)]
fn arith_builtin<E: Numerics>(
    op: ArithOp,
    sym: &str,
    tokens: &Vec<Token>,
    meta: &mut Metadata,
    env: &mut Environment,
    eng: &E,
    fuel: u32,
) -> (r: Result<Token, Abort>)
    requires
        old(env).wf(),
    ensures
        final(env).wf(),
        final(meta).line_count == old(meta).line_count,
        out_extends(old(meta).out@, final(meta).out@),
        r is Ok ==> final(meta).scope == old(meta).scope,
        r is Ok ==> numericish(r->Ok_0@.ty) && r->Ok_0@.modifiers
            == Seq::<TokenModifiers>::empty(),
        plain_ok(views_of(tokens@), old(env)@) && arith_ok(
            plain_resolved(views_of(tokens@), old(env)@),
        ) ==> (r is Ok && *final(meta) == *old(meta) && final(env)@ == old(env)@),
        plain_ok(views_of(tokens@), old(env)@) && !arith_ok(
            plain_resolved(views_of(tokens@), old(env)@),
        ) ==> (r matches Err(a) && a is Fatal) && *final(meta) == *old(meta) && final(env)@ == old(env)@,
        plain_args(views_of(tokens@)) && resolve_plain(views_of(tokens@), old(env)@) is None ==> (
        r matches Err(a) && a is Fatal) && *final(meta) == *old(meta) && final(env)@ == old(env)@,
    decreases fuel, 2int,
{
    let args = match get_args(tokens, meta, env, eng, fuel) {
        Ok(a) => a,
        Err(a) => {
            return Err(a);
        },
    };
    if args.len() < 2 {
        let mut m = "(".to_owned();
        m.append(sym);
        m.append(") Not enough arguments!");
        return Err(crate::fatal_at(meta.line_count, m.as_str()));
    }
    if !(args[0].ty == TokenTypes::INT || args[0].ty == TokenTypes::FLOAT) {
        return Err(crate::fatal_at(meta.line_count, arith_kind_msg(sym, args[0].ty).as_str()));
    }
    if !(args[1].ty == TokenTypes::INT || args[1].ty == TokenTypes::FLOAT) {
        return Err(crate::fatal_at(meta.line_count, arith_kind_msg(sym, args[1].ty).as_str()));
    }
    let computed = eng.binop(op, args[0].val.as_str(), args[1].val.as_str());
    let ty = if computed.0 {
        TokenTypes::INT
    } else {
        TokenTypes::FLOAT
    };
    Ok(mk_token(ty, false, computed.1))
}

/// The message for a non-numeric operand of an arithmetic or comparison
/// operation.
fn arith_kind_msg(sym: &str, ty: TokenTypes) -> (r: String) {
    let mut m = "(".to_owned();
    m.append(sym);
    m.append(") Invalid type: Cannot use operation '");
    m.append(sym);
    m.append("' with type ");
    let kn = kind_name(ty);
    m.append(kn.as_str());
    m
}

/// Sums two numbers held as text.
pub fn sum<E: Numerics>(
    tokens: Vec<Token>,
    meta: &mut Metadata,
    env: &mut Environment,
    eng: &E,
    fuel: u32,
) -> (r: Result<Token, Abort>)
    requires
        old(env).wf(),
    ensures
        final(env).wf(),
        final(meta).line_count == old(meta).line_count,
        out_extends(old(meta).out@, final(meta).out@),
        r is Ok ==> final(meta).scope == old(meta).scope,
        r is Ok ==> numericish(r->Ok_0@.ty) && r->Ok_0@.modifiers
            == Seq::<TokenModifiers>::empty(),
        plain_ok(views_of(tokens@), old(env)@) && arith_ok(
            plain_resolved(views_of(tokens@), old(env)@),
        ) ==> (r is Ok && *final(meta) == *old(meta) && final(env)@ == old(env)@),
        plain_ok(views_of(tokens@), old(env)@) && !arith_ok(
            plain_resolved(views_of(tokens@), old(env)@),
        ) ==> (r matches Err(a) && a is Fatal) && *final(meta) == *old(meta) && final(env)@ == old(env)@,
    decreases fuel, 3int,
{
    arith_builtin(ArithOp::Add, "+", &tokens, meta, env, eng, fuel)
}

/// Subtracts two numbers held as text.
pub fn difference<E: Numerics>(
    tokens: Vec<Token>,
    meta: &mut Metadata,
    env: &mut Environment,
    eng: &E,
    fuel: u32,
) -> (r: Result<Token, Abort>)
    requires
        old(env).wf(),
    ensures
        final(env).wf(),
        final(meta).line_count == old(meta).line_count,
        out_extends(old(meta).out@, final(meta).out@),
        r is Ok ==> final(meta).scope == old(meta).scope,
        r is Ok ==> numericish(r->Ok_0@.ty) && r->Ok_0@.modifiers
            == Seq::<TokenModifiers>::empty(),
        plain_ok(views_of(tokens@), old(env)@) && arith_ok(
            plain_resolved(views_of(tokens@), old(env)@),
        ) ==> (r is Ok && *final(meta) == *old(meta) && final(env)@ == old(env)@),
        plain_ok(views_of(tokens@), old(env)@) && !arith_ok(
            plain_resolved(views_of(tokens@), old(env)@),
        ) ==> (r matches Err(a) && a is Fatal) && *final(meta) == *old(meta) && final(env)@ == old(env)@,
    decreases fuel, 3int,
{
    arith_builtin(ArithOp::Sub, "-", &tokens, meta, env, eng, fuel)
}

/// Multiplies two numbers held as text.
pub fn product<E: Numerics>(
    tokens: Vec<Token>,
    meta: &mut Metadata,
    env: &mut Environment,
    eng: &E,
    fuel: u32,
) -> (r: Result<Token, Abort>)
    requires
        old(env).wf(),
    ensures
        final(env).wf(),
        final(meta).line_count == old(meta).line_count,
        out_extends(old(meta).out@, final(meta).out@),
        r is Ok ==> final(meta).scope == old(meta).scope,
        r is Ok ==> numericish(r->Ok_0@.ty) && r->Ok_0@.modifiers
            == Seq::<TokenModifiers>::empty(),
        plain_ok(views_of(tokens@), old(env)@) && arith_ok(
            plain_resolved(views_of(tokens@), old(env)@),
        ) ==> (r is Ok && *final(meta) == *old(meta) && final(env)@ == old(env)@),
        plain_ok(views_of(tokens@), old(env)@) && !arith_ok(
            plain_resolved(views_of(tokens@), old(env)@),
        ) ==> (r matches Err(a) && a is Fatal) && *final(meta) == *old(meta) && final(env)@ == old(env)@,
    decreases fuel, 3int,
{
    arith_builtin(ArithOp::Mul, "*", &tokens, meta, env, eng, fuel)
}

/// Divides two numbers held as text. Division by zero follows the engine's
/// native double semantics.
pub fn quotient<E: Numerics>(
    tokens: Vec<Token>,
    meta: &mut Metadata,
    env: &mut Environment,
    eng: &E,
    fuel: u32,
) -> (r: Result<Token, Abort>)
    requires
        old(env).wf(),
    ensures
        final(env).wf(),
        final(meta).line_count == old(meta).line_count,
        out_extends(old(meta).out@, final(meta).out@),
        r is Ok ==> final(meta).scope == old(meta).scope,
        r is Ok ==> numericish(r->Ok_0@.ty) && r->Ok_0@.modifiers
            == Seq::<TokenModifiers>::empty(),
        plain_ok(views_of(tokens@), old(env)@) && arith_ok(
            plain_resolved(views_of(tokens@), old(env)@),
        ) ==> (r is Ok && *final(meta) == *old(meta) && final(env)@ == old(env)@),
        plain_ok(views_of(tokens@), old(env)@) && !arith_ok(
            plain_resolved(views_of(tokens@), old(env)@),
        ) ==> (r matches Err(a) && a is Fatal) && *final(meta) == *old(meta) && final(env)@ == old(env)@,
    decreases fuel, 3int,
{
    arith_builtin(ArithOp::Div, "/", &tokens, meta, env, eng, fuel)
}

/// The numeric comparison builtins `gt` and `lt`.
#[verifier::loop_isolation(false)]
fn cmp_builtin<E: Numerics>(
    op: CmpOp,
    sym: &str,
    tokens: &Vec<Token>,
    meta: &mut Metadata,
    env: &mut Environment,
    eng: &E,
    fuel: u32,
) -> (r: Result<Token, Abort>)
    requires
        old(env).wf(),
    ensures
        final(env).wf(),
        final(meta).line_count == old(meta).line_count,
        out_extends(old(meta).out@, final(meta).out@),
        r is Ok ==> final(meta).scope == old(meta).scope,
        r is Ok ==> r->Ok_0@.ty == TokenTypes::BOOL && r->Ok_0@.modifiers
            == Seq::<TokenModifiers>::empty() && (r->Ok_0@.val == "true"@ || r->Ok_0@.val
            == "false"@),
        plain_ok(views_of(tokens@), old(env)@) && arith_ok(
            plain_resolved(views_of(tokens@), old(env)@),
        ) ==> (r is Ok && *final(meta) == *old(meta) && final(env)@ == old(env)@),
        plain_ok(views_of(tokens@), old(env)@) && !arith_ok(
            plain_resolved(views_of(tokens@), old(env)@),
        ) ==> (r matches Err(a) && a is Fatal) && *final(meta) == *old(meta) && final(env)@ == old(env)@,
    decreases fuel, 2int,
{
    let args = match get_args(tokens, meta, env, eng, fuel) {
        Ok(a) => a,
        Err(a) => {
            return Err(a);
        },
    };
    if args.len() < 2 {
        let mut m = "(".to_owned();
        m.append(sym);
        m.append(") Not enough arguments!");
        return Err(crate::fatal_at(meta.line_count, m.as_str()));
    }
    if !(args[0].ty == TokenTypes::INT || args[0].ty == TokenTypes::FLOAT) {
        return Err(crate::fatal_at(meta.line_count, arith_kind_msg(sym, args[0].ty).as_str()));
    }
    if !(args[1].ty == TokenTypes::INT || args[1].ty == TokenTypes::FLOAT) {
        return Err(crate::fatal_at(meta.line_count, arith_kind_msg(sym, args[1].ty).as_str()));
    }
    let b = eng.compare(op, args[0].val.as_str(), args[1].val.as_str());
    if b {
        Ok(mk_token(TokenTypes::BOOL, false, "true".to_owned()))
    } else {
        Ok(mk_token(TokenTypes::BOOL, false, "false".to_owned()))
    }
}

/// Whether the first number exceeds the second, as doubles.
pub fn gt<E: Numerics>(
    tokens: Vec<Token>,
    meta: &mut Metadata,
    env: &mut Environment,
    eng: &E,
    fuel: u32,
) -> (r: Result<Token, Abort>)
    requires
        old(env).wf(),
    ensures
        final(env).wf(),
        final(meta).line_count == old(meta).line_count,
        out_extends(old(meta).out@, final(meta).out@),
        r is Ok ==> final(meta).scope == old(meta).scope,
        r is Ok ==> r->Ok_0@.ty == TokenTypes::BOOL && r->Ok_0@.modifiers
            == Seq::<TokenModifiers>::empty(),
        plain_ok(views_of(tokens@), old(env)@) && arith_ok(
            plain_resolved(views_of(tokens@), old(env)@),
        ) ==> (r is Ok && *final(meta) == *old(meta) && final(env)@ == old(env)@),
        plain_ok(views_of(tokens@), old(env)@) && !arith_ok(
            plain_resolved(views_of(tokens@), old(env)@),
        ) ==> (r matches Err(a) && a is Fatal) && *final(meta) == *old(meta) && final(env)@ == old(env)@,
    decreases fuel, 3int,
{
    cmp_builtin(CmpOp::Gt, ">", &tokens, meta, env, eng, fuel)
}

/// Whether the first number is below the second, as doubles.
pub fn lt<E: Numerics>(
    tokens: Vec<Token>,
    meta: &mut Metadata,
    env: &mut Environment,
    eng: &E,
    fuel: u32,
) -> (r: Result<Token, Abort>)
    requires
        old(env).wf(),
    ensures
        final(env).wf(),
        final(meta).line_count == old(meta).line_count,
        out_extends(old(meta).out@, final(meta).out@),
        r is Ok ==> final(meta).scope == old(meta).scope,
        r is Ok ==> r->Ok_0@.ty == TokenTypes::BOOL && r->Ok_0@.modifiers
            == Seq::<TokenModifiers>::empty(),
        plain_ok(views_of(tokens@), old(env)@) && arith_ok(
            plain_resolved(views_of(tokens@), old(env)@),
        ) ==> (r is Ok && *final(meta) == *old(meta) && final(env)@ == old(env)@),
        plain_ok(views_of(tokens@), old(env)@) && !arith_ok(
            plain_resolved(views_of(tokens@), old(env)@),
        ) ==> (r matches Err(a) && a is Fatal) && *final(meta) == *old(meta) && final(env)@ == old(env)@,
    decreases fuel, 3int,
{
    cmp_builtin(CmpOp::Lt, "<", &tokens, meta, env, eng, fuel)
}

/// The equality builtins.
#[verifier::loop_isolation(false)]
fn eq_builtin<E: Numerics>(
    lazy: bool,
    neg: bool,
    sym: &str,
    tokens: &Vec<Token>,
    meta: &mut Metadata,
    env: &mut Environment,
    eng: &E,
    fuel: u32,
) -> (r: Result<Token, Abort>)
    requires
        old(env).wf(),
    ensures
        final(env).wf(),
        final(meta).line_count == old(meta).line_count,
        out_extends(old(meta).out@, final(meta).out@),
        r is Ok ==> final(meta).scope == old(meta).scope,
        r is Ok ==> r->Ok_0@.ty == TokenTypes::BOOL && r->Ok_0@.modifiers
            == Seq::<TokenModifiers>::empty(),
        plain_ok(views_of(tokens@), old(env)@) && eq_like_v(
            plain_resolved(views_of(tokens@), old(env)@),
            lazy,
            neg,
        ) is Some ==> (r matches Ok(v) && v@ == eq_like_v(
            plain_resolved(views_of(tokens@), old(env)@),
            lazy,
            neg,
        )->Some_0 && *final(meta) == *old(meta) && final(env)@ == old(env)@),
        plain_ok(views_of(tokens@), old(env)@) && eq_like_v(
            plain_resolved(views_of(tokens@), old(env)@),
            lazy,
            neg,
        ) is None ==> (r matches Err(a) && a is Fatal) && *final(meta) == *old(meta) && final(env)@ == old(env)@,
    decreases fuel, 2int,
{
    let args = match get_args(tokens, meta, env, eng, fuel) {
        Ok(a) => a,
        Err(a) => {
            return Err(a);
        },
    };
    if args.len() < 2 {
        let mut m = "(".to_owned();
        m.append(sym);
        m.append(") Not enough arguments!");
        return Err(crate::fatal_at(meta.line_count, m.as_str()));
    }
    let same = if lazy {
        args[0].val == args[1].val
    } else {
        args[0].ty == args[1].ty && args[0].val == args[1].val
    };
    let res = if neg {
        !same
    } else {
        same
    };
    if res {
        Ok(mk_token(TokenTypes::BOOL, false, "true".to_owned()))
    } else {
        Ok(mk_token(TokenTypes::BOOL, false, "false".to_owned()))
    }
}

/// Strict equality: equal kind and equal text.
pub fn eq<E: Numerics>(
    tokens: Vec<Token>,
    meta: &mut Metadata,
    env: &mut Environment,
    eng: &E,
    fuel: u32,
) -> (r: Result<Token, Abort>)
    requires
        old(env).wf(),
    ensures
        final(env).wf(),
        final(meta).line_count == old(meta).line_count,
        out_extends(old(meta).out@, final(meta).out@),
        r is Ok ==> final(meta).scope == old(meta).scope,
        r is Ok ==> r->Ok_0@.ty == TokenTypes::BOOL && r->Ok_0@.modifiers
            == Seq::<TokenModifiers>::empty(),
        plain_ok(views_of(tokens@), old(env)@) && eq_like_v(
            plain_resolved(views_of(tokens@), old(env)@),
            false,
            false,
        ) is Some ==> (r matches Ok(v) && v@ == eq_like_v(
            plain_resolved(views_of(tokens@), old(env)@),
            false,
            false,
        )->Some_0 && *final(meta) == *old(meta) && final(env)@ == old(env)@),
        plain_ok(views_of(tokens@), old(env)@) && eq_like_v(
            plain_resolved(views_of(tokens@), old(env)@),
            false,
            false,
        ) is None ==> (r matches Err(a) && a is Fatal) && *final(meta) == *old(meta) && final(env)@ == old(env)@,
    decreases fuel, 3int,
{
    eq_builtin(false, false, "==", &tokens, meta, env, eng, fuel)
}

/// Strict inequality: different kind or different text.
pub fn ne<E: Numerics>(
    tokens: Vec<Token>,
    meta: &mut Metadata,
    env: &mut Environment,
    eng: &E,
    fuel: u32,
) -> (r: Result<Token, Abort>)
    requires
        old(env).wf(),
    ensures
        final(env).wf(),
        final(meta).line_count == old(meta).line_count,
        out_extends(old(meta).out@, final(meta).out@),
        r is Ok ==> final(meta).scope == old(meta).scope,
        r is Ok ==> r->Ok_0@.ty == TokenTypes::BOOL && r->Ok_0@.modifiers
            == Seq::<TokenModifiers>::empty(),
        plain_ok(views_of(tokens@), old(env)@) && eq_like_v(
            plain_resolved(views_of(tokens@), old(env)@),
            false,
            true,
        ) is Some ==> (r matches Ok(v) && v@ == eq_like_v(
            plain_resolved(views_of(tokens@), old(env)@),
            false,
            true,
        )->Some_0 && *final(meta) == *old(meta) && final(env)@ == old(env)@),
        plain_ok(views_of(tokens@), old(env)@) && eq_like_v(
            plain_resolved(views_of(tokens@), old(env)@),
            false,
            true,
        ) is None ==> (r matches Err(a) && a is Fatal) && *final(meta) == *old(meta) && final(env)@ == old(env)@,
    decreases fuel, 3int,
{
    eq_builtin(false, true, "!=", &tokens, meta, env, eng, fuel)
}

/// Lazy equality: equal text, whatever the kinds.
pub fn lazy_eq<E: Numerics>(
    tokens: Vec<Token>,
    meta: &mut Metadata,
    env: &mut Environment,
    eng: &E,
    fuel: u32,
) -> (r: Result<Token, Abort>)
    requires
        old(env).wf(),
    ensures
        final(env).wf(),
        final(meta).line_count == old(meta).line_count,
        out_extends(old(meta).out@, final(meta).out@),
        r is Ok ==> final(meta).scope == old(meta).scope,
        r is Ok ==> r->Ok_0@.ty == TokenTypes::BOOL && r->Ok_0@.modifiers
            == Seq::<TokenModifiers>::empty(),
        plain_ok(views_of(tokens@), old(env)@) && eq_like_v(
            plain_resolved(views_of(tokens@), old(env)@),
            true,
            false,
        ) is Some ==> (r matches Ok(v) && v@ == eq_like_v(
            plain_resolved(views_of(tokens@), old(env)@),
            true,
            false,
        )->Some_0 && *final(meta) == *old(meta) && final(env)@ == old(env)@),
        plain_ok(views_of(tokens@), old(env)@) && eq_like_v(
            plain_resolved(views_of(tokens@), old(env)@),
            true,
            false,
        ) is None ==> (r matches Err(a) && a is Fatal) && *final(meta) == *old(meta) && final(env)@ == old(env)@,
    decreases fuel, 3int,
{
    eq_builtin(true, false, "lazy=", &tokens, meta, env, eng, fuel)
}

/// Lazy inequality: different text, whatever the kinds.
pub fn lazy_ne<E: Numerics>(
    tokens: Vec<Token>,
    meta: &mut Metadata,
    env: &mut Environment,
    eng: &E,
    fuel: u32,
) -> (r: Result<Token, Abort>)
    requires
        old(env).wf(),
    ensures
        final(env).wf(),
        final(meta).line_count == old(meta).line_count,
        out_extends(old(meta).out@, final(meta).out@),
        r is Ok ==> final(meta).scope == old(meta).scope,
        r is Ok ==> r->Ok_0@.ty == TokenTypes::BOOL && r->Ok_0@.modifiers
            == Seq::<TokenModifiers>::empty(),
        plain_ok(views_of(tokens@), old(env)@) && eq_like_v(
            plain_resolved(views_of(tokens@), old(env)@),
            true,
            true,
        ) is Some ==> (r matches Ok(v) && v@ == eq_like_v(
            plain_resolved(views_of(tokens@), old(env)@),
            true,
            true,
        )->Some_0 && *final(meta) == *old(meta) && final(env)@ == old(env)@),
        plain_ok(views_of(tokens@), old(env)@) && eq_like_v(
            plain_resolved(views_of(tokens@), old(env)@),
            true,
            true,
        ) is None ==> (r matches Err(a) && a is Fatal) && *final(meta) == *old(meta) && final(env)@ == old(env)@,
    decreases fuel, 3int,
{
    eq_builtin(true, true, "lazy!=", &tokens, meta, env, eng, fuel)
}

/// The compound assignments. They read their two tokens raw (the left
/// operand's *name* locates the binding), so their behavior is exact: on
/// success the binding is rewritten in place with the engine's result,
/// keeping its modifiers and declaring depth; every failure is told apart
/// below, and nothing else changes.
fn assign_builtin<E: Numerics>(
    op: ArithOp,
    sym: &str,
    bad_second_pre: &str,
    bad_second_post: &str,
    tokens: &Vec<Token>,
    meta: &mut Metadata,
    env: &mut Environment,
    eng: &E,
) -> (r: Result<Token, Abort>)
    requires
        old(env).wf(),
    ensures
        final(env).wf(),
        *final(meta) == *old(meta),
        !assign_ok(views_of(tokens@), old(env)@) ==> (r matches Err(a) && a is Fatal) && final(env)@ == old(env)@,
        assign_ok(views_of(tokens@), old(env)@) ==> (r matches Ok(v) && v@ == none_v()) && exists|
            b: bool,
            s: Seq<char>,
        |
            final(env)@ == assigned_env(old(env)@, views_of(tokens@)[0].val, b, s),
{
    if tokens.len() < 2 {
        let mut m = "(".to_owned();
        m.append(sym);
        m.append(") Not enough arguments!");
        return Err(crate::fatal_at(meta.line_count, m.as_str()));
    }
    if tokens[0].ty != TokenTypes::VARIABLE {
        let mut m = "(".to_owned();
        m.append(sym);
        m.append(") Invalid type: Cannot use operation '");
        m.append(sym);
        m.append("' with type ");
        let kn = kind_name(tokens[0].ty);
        m.append(kn.as_str());
        return Err(crate::fatal_at(meta.line_count, m.as_str()));
    }
    if !(tokens[1].ty == TokenTypes::INT || tokens[1].ty == TokenTypes::FLOAT) {
        let mut m = "(".to_owned();
        m.append(sym);
        m.append(") Invalid type: ");
        m.append(bad_second_pre);
        let kn = kind_name(tokens[1].ty);
        m.append(kn.as_str());
        m.append(bad_second_post);
        return Err(crate::fatal_at(meta.line_count, m.as_str()));
    }
    let name = tokens[0].val.clone();
    let current = match env.lookup(&name) {
        Some(var) => copy_variable(var),
        None => {
            let mut m = "(".to_owned();
            m.append(sym);
            m.append(") Variable `");
            m.append(name.as_str());
            m.append("` not found");
            return Err(crate::fatal_at(meta.line_count, m.as_str()));
        },
    };
    if !(current.value.ty == TokenTypes::INT || current.value.ty == TokenTypes::FLOAT) {
        let mut m = "(".to_owned();
        m.append(sym);
        m.append(") Invalid type: Cannot use operation '");
        m.append(sym);
        m.append("' with variable of type ");
        let kn = kind_name(current.value.ty);
        m.append(kn.as_str());
        return Err(crate::fatal_at(meta.line_count, m.as_str()));
    }
    let computed = eng.binop(op, current.value.val.as_str(), tokens[1].val.as_str());
    let ty = if computed.0 {
        TokenTypes::INT
    } else {
        TokenTypes::FLOAT
    };
    let ghost b_wit = computed.0;
    let ghost s_wit = computed.1@;
    let newtok = Token { ty, modifiers: current.value.modifiers, val: computed.1 };
    env.set(name, Variable { value: newtok, scope: current.scope });
    proof {
        assert(final(env)@ == assigned_env(old(env)@, views_of(tokens@)[0].val, b_wit, s_wit));
    }
    Ok(none_token())
}

/// Adds a number to a numeric variable in place.
pub fn add_assign<E: Numerics>(
    tokens: Vec<Token>,
    meta: &mut Metadata,
    env: &mut Environment,
    eng: &E,
    fuel: u32,
) -> (r: Result<Token, Abort>)
    requires
        old(env).wf(),
    ensures
        final(env).wf(),
        *final(meta) == *old(meta),
        !assign_ok(views_of(tokens@), old(env)@) ==> (r matches Err(a) && a is Fatal) && final(env)@ == old(env)@,
        assign_ok(views_of(tokens@), old(env)@) ==> (r matches Ok(v) && v@ == none_v()) && exists|
            b: bool,
            s: Seq<char>,
        |
            final(env)@ == assigned_env(old(env)@, views_of(tokens@)[0].val, b, s),
{
    assign_builtin(
        ArithOp::Add,
        "+=",
        "Cannot add thing of type ",
        " to variable",
        &tokens,
        meta,
        env,
        eng,
    )
}

/// Subtracts a number from a numeric variable in place.
pub fn subtract_assign<E: Numerics>(
    tokens: Vec<Token>,
    meta: &mut Metadata,
    env: &mut Environment,
    eng: &E,
    fuel: u32,
) -> (r: Result<Token, Abort>)
    requires
        old(env).wf(),
    ensures
        final(env).wf(),
        *final(meta) == *old(meta),
        !assign_ok(views_of(tokens@), old(env)@) ==> (r matches Err(a) && a is Fatal) && final(env)@ == old(env)@,
        assign_ok(views_of(tokens@), old(env)@) ==> (r matches Ok(v) && v@ == none_v()) && exists|
            b: bool,
            s: Seq<char>,
        |
            final(env)@ == assigned_env(old(env)@, views_of(tokens@)[0].val, b, s),
{
    assign_builtin(
        ArithOp::Sub,
        "-=",
        "Cannot subtract thing of type ",
        " from variable",
        &tokens,
        meta,
        env,
        eng,
    )
}

/// Multiplies a numeric variable by a number in place.
pub fn multiply_assign<E: Numerics>(
    tokens: Vec<Token>,
    meta: &mut Metadata,
    env: &mut Environment,
    eng: &E,
    fuel: u32,
) -> (r: Result<Token, Abort>)
    requires
        old(env).wf(),
    ensures
        final(env).wf(),
        *final(meta) == *old(meta),
        !assign_ok(views_of(tokens@), old(env)@) ==> (r matches Err(a) && a is Fatal) && final(env)@ == old(env)@,
        assign_ok(views_of(tokens@), old(env)@) ==> (r matches Ok(v) && v@ == none_v()) && exists|
            b: bool,
            s: Seq<char>,
        |
            final(env)@ == assigned_env(old(env)@, views_of(tokens@)[0].val, b, s),
{
    assign_builtin(
        ArithOp::Mul,
        "*=",
        "Cannot multiply thing of type ",
        " with variable",
        &tokens,
        meta,
        env,
        eng,
    )
}

/// Divides a numeric variable by a number in place.
pub fn divide_assign<E: Numerics>(
    tokens: Vec<Token>,
    meta: &mut Metadata,
    env: &mut Environment,
    eng: &E,
    fuel: u32,
) -> (r: Result<Token, Abort>)
    requires
        old(env).wf(),
    ensures
        final(env).wf(),
        *final(meta) == *old(meta),
        !assign_ok(views_of(tokens@), old(env)@) ==> (r matches Err(a) && a is Fatal) && final(env)@ == old(env)@,
        assign_ok(views_of(tokens@), old(env)@) ==> (r matches Ok(v) && v@ == none_v()) && exists|
            b: bool,
            s: Seq<char>,
        |
            final(env)@ == assigned_env(old(env)@, views_of(tokens@)[0].val, b, s),
{
    assign_builtin(
        ArithOp::Div,
        "/=",
        "Variable cannot be divided by thing of type ",
        "",
        &tokens,
        meta,
        env,
        eng,
    )
}

/// Binds or overwrites a variable at the current scope depth with the
/// resolved value. NONE is not a valid variable name.
pub fn create_var<E: Numerics>(
    tokens: Vec<Token>,
    meta: &mut Metadata,
    env: &mut Environment,
    eng: &E,
    fuel: u32,
) -> (r: Result<Token, Abort>)
    requires
        old(env).wf(),
    ensures
        final(env).wf(),
        final(meta).line_count == old(meta).line_count,
        out_extends(old(meta).out@, final(meta).out@),
        r is Ok ==> final(meta).scope == old(meta).scope,
        r is Ok ==> r->Ok_0@ == none_v(),
        plain_ok(views_of(tokens@), old(env)@) && (plain_resolved(views_of(tokens@), old(env)@)
            .len() < 2 || plain_resolved(views_of(tokens@), old(env)@)[0].ty == TokenTypes::NONE)
            ==> (r matches Err(a) && a is Fatal) && *final(meta) == *old(meta) && final(env)@
            == old(env)@,
        plain_ok(views_of(tokens@), old(env)@) && plain_resolved(views_of(tokens@), old(env)@)
            .len() >= 2 && plain_resolved(views_of(tokens@), old(env)@)[0].ty != TokenTypes::NONE
            ==> (r matches Ok(v) && v@ == none_v()) && final(env)@ == old(env)@.insert(
            plain_resolved(views_of(tokens@), old(env)@)[0].val,
            VariableV {
                value: plain_resolved(views_of(tokens@), old(env)@)[1],
                scope: old(meta).scope,
            },
        ) && *final(meta) == *old(meta),
    decreases fuel, 2int,
{
    let args = match get_args(&tokens, meta, env, eng, fuel) {
        Ok(a) => a,
        Err(a) => {
            return Err(a);
        },
    };
    if args.len() < 2 {
        return Err(crate::fatal_at(meta.line_count, "(let) Not enough arguments!"));
    }
    if args[0].ty == TokenTypes::NONE {
        return Err(
            crate::fatal_at(meta.line_count, "(let) Cannot accept none as variable name!"),
        );
    }
    let name = args[0].val.clone();
    let value = copy_token(&args[1]);
    env.set(name, Variable { value, scope: meta.scope });
    Ok(none_token())
}

/// Runs the scope once when the BOOL condition is not `false`, else NONE.
/// A break sentinel from the body passes through to the enclosing loop.
pub fn if_<E: Numerics>(
    tokens: Vec<Token>,
    meta: &mut Metadata,
    env: &mut Environment,
    eng: &E,
    fuel: u32,
) -> (r: Result<Token, Abort>)
    requires
        old(env).wf(),
    ensures
        final(env).wf(),
        final(meta).line_count == old(meta).line_count,
        out_extends(old(meta).out@, final(meta).out@),
        r is Ok ==> final(meta).scope == old(meta).scope,
        r is Ok ==> r->Ok_0@.modifiers == Seq::<TokenModifiers>::empty(),
        plain_ok(views_of(tokens@), old(env)@) && (plain_resolved(views_of(tokens@), old(env)@)
            .len() < 2 || plain_resolved(views_of(tokens@), old(env)@)[0].ty != TokenTypes::BOOL)
            ==> (r matches Err(a) && a is Fatal) && *final(meta) == *old(meta) && final(env)@
            == old(env)@,
        plain_ok(views_of(tokens@), old(env)@) && plain_resolved(views_of(tokens@), old(env)@)
            .len() >= 2 && plain_resolved(views_of(tokens@), old(env)@)[0].ty == TokenTypes::BOOL
            && plain_resolved(views_of(tokens@), old(env)@)[0].val == "false"@ ==> (r matches Ok(
            v,
        ) && v@ == none_v()) && *final(meta) == *old(meta) && final(env)@ == old(env)@,
    decreases fuel, 2int,
{
    let args = match get_args(&tokens, meta, env, eng, fuel) {
        Ok(a) => a,
        Err(a) => {
            return Err(a);
        },
    };
    if args.len() < 2 {
        return Err(crate::fatal_at(meta.line_count, "(if) Not enough arguments!"));
    }
    if args[0].ty != TokenTypes::BOOL {
        let mut m = "(if) Type ".to_owned();
        let kn = kind_name(args[0].ty);
        m.append(kn.as_str());
        m.append(" cannot be used as condition!");
        return Err(crate::fatal_at(meta.line_count, m.as_str()));
    }
    if crate::text::str_is(&args[0].val, "false") {
        return Ok(none_token());
    }
    let ghost out_mid = meta.out@;
    let r = run_scope(&args[1], meta, env, eng, fuel);
    proof {
        lemma_out_extends_trans(old(meta).out@, out_mid, meta.out@);
    }
    r
}

/// The looping builtins `while` and `until`: the condition and the scope are
/// re-resolved — and a LITERAL condition thereby re-lexed and re-evaluated —
/// on every iteration; the loop ends on the stopping truth value or on a
/// break sentinel from the body, and always yields NONE.
#[verifier::loop_isolation(false)]
fn loop_builtin<E: Numerics>(
    until_mode: bool,
    sym: &str,
    tokens: &Vec<Token>,
    meta: &mut Metadata,
    env: &mut Environment,
    eng: &E,
    fuel: u32,
) -> (r: Result<Token, Abort>)
    requires
        old(env).wf(),
    ensures
        final(env).wf(),
        final(meta).line_count == old(meta).line_count,
        out_extends(old(meta).out@, final(meta).out@),
        r is Ok ==> final(meta).scope == old(meta).scope,
        r is Ok ==> r->Ok_0@ == none_v(),
        fuel >= 1 && plain_ok(views_of(tokens@), old(env)@) && plain_resolved(
            views_of(tokens@),
            old(env)@,
        ).len() < 2 ==> (r matches Err(a) && a is Fatal) && *final(meta) == *old(meta) && final(env)@ == old(env)@,
        fuel >= 1 && plain_ok(views_of(tokens@), old(env)@) && plain_resolved(
            views_of(tokens@),
            old(env)@,
        ).len() >= 2 && plain_resolved(views_of(tokens@), old(env)@)[0].ty != TokenTypes::BOOL
            ==> (r matches Err(a) && a is Fatal) && *final(meta) == *old(meta) && final(env)@
            == old(env)@,
        fuel >= 1 && plain_ok(views_of(tokens@), old(env)@) && plain_resolved(
            views_of(tokens@),
            old(env)@,
        ).len() >= 2 && plain_resolved(views_of(tokens@), old(env)@)[0].ty == TokenTypes::BOOL
            && plain_resolved(views_of(tokens@), old(env)@)[0].val == (if until_mode {
            "true"@
        } else {
            "false"@
        }) ==> (r matches Ok(v) && v@ == none_v()) && *final(meta) == *old(meta) && final(env)@
            == old(env)@,
    decreases fuel, 2int,
{
    let ghost stopping = fuel >= 1 && plain_ok(views_of(tokens@), old(env)@) && (
    plain_resolved(views_of(tokens@), old(env)@).len() < 2 || plain_resolved(
        views_of(tokens@),
        old(env)@,
    )[0].ty != TokenTypes::BOOL || plain_resolved(views_of(tokens@), old(env)@)[0].val == (
    if until_mode {
        "true"@
    } else {
        "false"@
    }));
    let mut budget: u32 = fuel;
    loop
        invariant
            env.wf(),
            meta.line_count == old(meta).line_count,
            meta.scope == old(meta).scope,
            out_extends(old(meta).out@, meta.out@),
            stopping ==> budget == fuel && *meta == *old(meta) && env@ == old(env)@,
        decreases budget,
    {
        if budget == 0 {
            return Err(Abort::Budget);
        }
        budget = budget - 1;
        let ghost out_a = meta.out@;
        let args = match get_args(tokens, meta, env, eng, fuel) {
            Ok(a) => a,
            Err(a) => {
                return Err(a);
            },
        };
        proof {
            lemma_out_extends_trans(old(meta).out@, out_a, meta.out@);
        }
        if args.len() < 2 {
            let mut m = "(".to_owned();
            m.append(sym);
            m.append(") Not enough arguments!");
            return Err(crate::fatal_at(meta.line_count, m.as_str()));
        }
        if args[0].ty != TokenTypes::BOOL {
            let mut m = "(".to_owned();
            m.append(sym);
            m.append(") Type ");
            let kn = kind_name(args[0].ty);
            m.append(kn.as_str());
            m.append(" cannot be used as condition!");
            return Err(crate::fatal_at(meta.line_count, m.as_str()));
        }
        let stop = if until_mode {
            crate::text::str_is(&args[0].val, "true")
        } else {
            crate::text::str_is(&args[0].val, "false")
        };
        if stop {
            return Ok(none_token());
        }
        let ghost out_b = meta.out@;
        let stat = match run_scope(&args[1], meta, env, eng, fuel) {
            Ok(t) => t,
            Err(a) => {
                return Err(a);
            },
        };
        proof {
            lemma_out_extends_trans(old(meta).out@, out_b, meta.out@);
        }
        if is_break(&stat) {
            return Ok(none_token());
        }
    }
}

/// Loops the scope while the condition holds; yields NONE.
pub fn while_<E: Numerics>(
    tokens: Vec<Token>,
    meta: &mut Metadata,
    env: &mut Environment,
    eng: &E,
    fuel: u32,
) -> (r: Result<Token, Abort>)
    requires
        old(env).wf(),
    ensures
        final(env).wf(),
        final(meta).line_count == old(meta).line_count,
        out_extends(old(meta).out@, final(meta).out@),
        r is Ok ==> final(meta).scope == old(meta).scope,
        r is Ok ==> r->Ok_0@ == none_v(),
        fuel >= 1 && plain_ok(views_of(tokens@), old(env)@) && (plain_resolved(
            views_of(tokens@),
            old(env)@,
        ).len() < 2 || plain_resolved(views_of(tokens@), old(env)@)[0].ty != TokenTypes::BOOL)
            ==> (r matches Err(a) && a is Fatal) && *final(meta) == *old(meta) && final(env)@
            == old(env)@,
        fuel >= 1 && plain_ok(views_of(tokens@), old(env)@) && plain_resolved(
            views_of(tokens@),
            old(env)@,
        ).len() >= 2 && plain_resolved(views_of(tokens@), old(env)@)[0].ty == TokenTypes::BOOL
            && plain_resolved(views_of(tokens@), old(env)@)[0].val == "false"@ ==> (r matches Ok(
            v,
        ) && v@ == none_v()) && *final(meta) == *old(meta) && final(env)@ == old(env)@,
    decreases fuel, 3int,
{
    loop_builtin(false, "while", &tokens, meta, env, eng, fuel)
}

/// Loops the scope until the condition holds; yields NONE.
pub fn until<E: Numerics>(
    tokens: Vec<Token>,
    meta: &mut Metadata,
    env: &mut Environment,
    eng: &E,
    fuel: u32,
) -> (r: Result<Token, Abort>)
    requires
        old(env).wf(),
    ensures
        final(env).wf(),
        final(meta).line_count == old(meta).line_count,
        out_extends(old(meta).out@, final(meta).out@),
        r is Ok ==> final(meta).scope == old(meta).scope,
        r is Ok ==> r->Ok_0@ == none_v(),
        fuel >= 1 && plain_ok(views_of(tokens@), old(env)@) && (plain_resolved(
            views_of(tokens@),
            old(env)@,
        ).len() < 2 || plain_resolved(views_of(tokens@), old(env)@)[0].ty != TokenTypes::BOOL)
            ==> (r matches Err(a) && a is Fatal) && *final(meta) == *old(meta) && final(env)@
            == old(env)@,
        fuel >= 1 && plain_ok(views_of(tokens@), old(env)@) && plain_resolved(
            views_of(tokens@),
            old(env)@,
        ).len() >= 2 && plain_resolved(views_of(tokens@), old(env)@)[0].ty == TokenTypes::BOOL
            && plain_resolved(views_of(tokens@), old(env)@)[0].val == "true"@ ==> (r matches Ok(
            v,
        ) && v@ == none_v()) && *final(meta) == *old(meta) && final(env)@ == old(env)@,
    decreases fuel, 3int,
{
    loop_builtin(true, "until", &tokens, meta, env, eng, fuel)
}

/// Loops the scope unconditionally until a break sentinel; yields NONE.
#[verifier::loop_isolation(false)]
pub fn forever<E: Numerics>(
    tokens: Vec<Token>,
    meta: &mut Metadata,
    env: &mut Environment,
    eng: &E,
    fuel: u32,
) -> (r: Result<Token, Abort>)
    requires
        old(env).wf(),
    ensures
        final(env).wf(),
        final(meta).line_count == old(meta).line_count,
        out_extends(old(meta).out@, final(meta).out@),
        r is Ok ==> final(meta).scope == old(meta).scope,
        r is Ok ==> r->Ok_0@ == none_v(),
        plain_ok(views_of(tokens@), old(env)@) && plain_resolved(views_of(tokens@), old(env)@)
            .len() < 1 ==> (r matches Err(a) && a is Fatal) && *final(meta) == *old(meta) && final(env)@ == old(env)@,
    decreases fuel, 2int,
{
    let args = match get_args(&tokens, meta, env, eng, fuel) {
        Ok(a) => a,
        Err(a) => {
            return Err(a);
        },
    };
    if args.len() < 1 {
        return Err(crate::fatal_at(meta.line_count, "(forever) Not enough arguments!"));
    }
    let sc = copy_token(&args[0]);
    let mut budget: u32 = fuel;
    loop
        invariant
            env.wf(),
            meta.line_count == old(meta).line_count,
            meta.scope == old(meta).scope,
            out_extends(old(meta).out@, meta.out@),
        decreases budget,
    {
        if budget == 0 {
            return Err(Abort::Budget);
        }
        budget = budget - 1;
        let ghost out_b = meta.out@;
        let stat = match run_scope(&sc, meta, env, eng, fuel) {
            Ok(t) => t,
            Err(a) => {
                return Err(a);
            },
        };
        proof {
            lemma_out_extends_trans(old(meta).out@, out_b, meta.out@);
        }
        if is_break(&stat) {
            return Ok(none_token());
        }
    }
}

/// Runs the scope once and forwards its result; a break sentinel reaching
/// this level collapses to NONE, since there is no enclosing loop to break.
pub fn scope<E: Numerics>(
    tokens: Vec<Token>,
    meta: &mut Metadata,
    env: &mut Environment,
    eng: &E,
    fuel: u32,
) -> (r: Result<Token, Abort>)
    requires
        old(env).wf(),
    ensures
        final(env).wf(),
        final(meta).line_count == old(meta).line_count,
        out_extends(old(meta).out@, final(meta).out@),
        r is Ok ==> final(meta).scope == old(meta).scope,
        r is Ok ==> r->Ok_0@ != break_v() && r->Ok_0@.modifiers
            == Seq::<TokenModifiers>::empty(),
        plain_ok(views_of(tokens@), old(env)@) && plain_resolved(views_of(tokens@), old(env)@)
            .len() < 1 ==> (r matches Err(a) && a is Fatal) && *final(meta) == *old(meta) && final(env)@ == old(env)@,
    decreases fuel, 2int,
{
    let args = match get_args(&tokens, meta, env, eng, fuel) {
        Ok(a) => a,
        Err(a) => {
            return Err(a);
        },
    };
    if args.len() < 1 {
        return Err(crate::fatal_at(meta.line_count, "(scope) Not enough arguments!"));
    }
    let ghost out_mid = meta.out@;
    let stat = match run_scope(&args[0], meta, env, eng, fuel) {
        Ok(t) => t,
        Err(a) => {
            return Err(a);
        },
    };
    proof {
        lemma_out_extends_trans(old(meta).out@, out_mid, meta.out@);
    }
    if is_break(&stat) {
        return Ok(none_token());
    }
    Ok(stat)
}

/// Yields the break sentinel, which ends the innermost enclosing loop.
pub fn break_<E: Numerics>(
    tokens: Vec<Token>,
    meta: &mut Metadata,
    env: &mut Environment,
    eng: &E,
    fuel: u32,
) -> (r: Result<Token, Abort>)
    requires
        old(env).wf(),
    ensures
        final(env).wf(),
        *final(meta) == *old(meta),
        final(env)@ == old(env)@,
        r matches Ok(v) && v@ == break_v(),
{
    Ok(crate::lexer::break_token())
}

/// Re-tags a value as INT when its text parses as a signed 64-bit integer.
pub fn int_<E: Numerics>(
    tokens: Vec<Token>,
    meta: &mut Metadata,
    env: &mut Environment,
    eng: &E,
    fuel: u32,
) -> (r: Result<Token, Abort>)
    requires
        old(env).wf(),
    ensures
        final(env).wf(),
        final(meta).line_count == old(meta).line_count,
        out_extends(old(meta).out@, final(meta).out@),
        r is Ok ==> final(meta).scope == old(meta).scope,
        r is Ok ==> r->Ok_0@.modifiers == Seq::<TokenModifiers>::empty(),
        plain_ok(views_of(tokens@), old(env)@) && plain_resolved(views_of(tokens@), old(env)@)
            .len() >= 1 && crate::numbers::is_i64_text(
            plain_resolved(views_of(tokens@), old(env)@)[0].val,
        ) ==> (r matches Ok(v) && v@ == token_v(
            TokenTypes::INT,
            false,
            plain_resolved(views_of(tokens@), old(env)@)[0].val,
        )) && *final(meta) == *old(meta) && final(env)@ == old(env)@,
        plain_ok(views_of(tokens@), old(env)@) && (plain_resolved(views_of(tokens@), old(env)@)
            .len() < 1 || !crate::numbers::is_i64_text(
            plain_resolved(views_of(tokens@), old(env)@)[0].val,
        )) ==> (r matches Err(a) && a is Fatal) && *final(meta) == *old(meta) && final(env)@
            == old(env)@,
    decreases fuel, 2int,
{
    let args = match get_args(&tokens, meta, env, eng, fuel) {
        Ok(a) => a,
        Err(a) => {
            return Err(a);
        },
    };
    if args.len() < 1 {
        return Err(crate::fatal_at(meta.line_count, "(int) Not enough arguments!"));
    }
    let cs = chars_of(args[0].val.as_str());
    match parse_i64(&cs) {
        Some(_) => Ok(mk_token(TokenTypes::INT, false, args[0].val.clone())),
        None => Err(
            crate::fatal_at(meta.line_count, "(int) Could not convert value to integer"),
        ),
    }
}

/// Re-tags a value as FLOAT when its text parses as a double.
pub fn float<E: Numerics>(
    tokens: Vec<Token>,
    meta: &mut Metadata,
    env: &mut Environment,
    eng: &E,
    fuel: u32,
) -> (r: Result<Token, Abort>)
    requires
        old(env).wf(),
    ensures
        final(env).wf(),
        final(meta).line_count == old(meta).line_count,
        out_extends(old(meta).out@, final(meta).out@),
        r is Ok ==> final(meta).scope == old(meta).scope,
        r is Ok ==> r->Ok_0@.modifiers == Seq::<TokenModifiers>::empty(),
        plain_ok(views_of(tokens@), old(env)@) && plain_resolved(views_of(tokens@), old(env)@)
            .len() >= 1 && r is Ok ==> r->Ok_0@ == token_v(
            TokenTypes::FLOAT,
            false,
            plain_resolved(views_of(tokens@), old(env)@)[0].val,
        ),
        plain_ok(views_of(tokens@), old(env)@) ==> *final(meta) == *old(meta) && final(env)@
            == old(env)@,
        plain_ok(views_of(tokens@), old(env)@) && plain_resolved(views_of(tokens@), old(env)@)
            .len() < 1 ==> (r matches Err(a) && a is Fatal),
    decreases fuel, 2int,
{
    let args = match get_args(&tokens, meta, env, eng, fuel) {
        Ok(a) => a,
        Err(a) => {
            return Err(a);
        },
    };
    if args.len() < 1 {
        return Err(crate::fatal_at(meta.line_count, "(float) Not enough arguments!"));
    }
    if eng.is_number(args[0].val.as_str()) {
        Ok(mk_token(TokenTypes::FLOAT, false, args[0].val.clone()))
    } else {
        Err(crate::fatal_at(meta.line_count, "(float) Could not convert value to float"))
    }
}

/// Prints every argument's text followed by one space, then a newline, and
/// records the same chunks in the run's output log; yields NONE. For a
/// LITERAL-free argument list the logged chunks are stated exactly.
#[verifier::loop_isolation(false)]
pub fn say<E: Numerics>(
    tokens: Vec<Token>,
    meta: &mut Metadata,
    env: &mut Environment,
    eng: &E,
    fuel: u32,
) -> (r: Result<Token, Abort>)
    requires
        old(env).wf(),
    ensures
        final(env).wf(),
        final(meta).line_count == old(meta).line_count,
        out_extends(old(meta).out@, final(meta).out@),
        r is Ok ==> final(meta).scope == old(meta).scope,
        r is Ok ==> r->Ok_0@ == none_v(),
        plain_ok(views_of(tokens@), old(env)@) ==> r is Ok && final(env)@ == old(env)@ && final(meta).out@.len() == old(meta).out@.len() + plain_resolved(views_of(tokens@), old(env)@).len()
            + 1 && (forall|j: int|
            0 <= j < plain_resolved(views_of(tokens@), old(env)@).len()
                ==> (#[trigger] final(meta).out@[old(meta).out@.len() + j])@ == plain_resolved(
                views_of(tokens@),
                old(env)@,
            )[j].val.push(' ')) && final(meta).out@.last()@ == seq!['\n'],
    decreases fuel, 2int,
{
    let ghost tsv = views_of(tokens@);
    let ghost env0 = old(env)@;
    let args = match get_args(&tokens, meta, env, eng, fuel) {
        Ok(a) => a,
        Err(a) => {
            return Err(a);
        },
    };
    let ghost out0 = meta.out@;
    let mut j: usize = 0;
    while j < args.len()
        invariant
            j <= args@.len(),
            meta.line_count == old(meta).line_count,
            meta.scope == old(meta).scope,
            meta.out@.len() == out0.len() + j,
            meta.out@.subrange(0, out0.len() as int) == out0,
            forall|k: int|
                0 <= k < j ==> (#[trigger] meta.out@[out0.len() + k])@ == args@[k]@.val.push(' '),
        decreases args@.len() - j,
    {
        let mut c = args[j].val.clone();
        c.push(' ');
        print_raw(c.as_str());
        meta.out.push(c);
        proof {
            assert(meta.out@.subrange(0, out0.len() as int) =~= out0);
        }
        j += 1;
    }
    let mut nl = String::new();
    nl.push('\n');
    print_raw(nl.as_str());
    meta.out.push(nl);
    proof {
        assert(meta.out@.subrange(0, out0.len() as int) =~= out0);
        lemma_out_extends_trans(old(meta).out@, out0, meta.out@);
        assert(meta.out@.last()@ =~= seq!['\n']);
    }
    Ok(none_token())
}

/// Prints every argument's text followed by one space, without a closing
/// newline, and records the same chunks; yields NONE.
#[verifier::loop_isolation(false)]
pub fn short_say<E: Numerics>(
    tokens: Vec<Token>,
    meta: &mut Metadata,
    env: &mut Environment,
    eng: &E,
    fuel: u32,
) -> (r: Result<Token, Abort>)
    requires
        old(env).wf(),
    ensures
        final(env).wf(),
        final(meta).line_count == old(meta).line_count,
        out_extends(old(meta).out@, final(meta).out@),
        r is Ok ==> final(meta).scope == old(meta).scope,
        r is Ok ==> r->Ok_0@ == none_v(),
        plain_ok(views_of(tokens@), old(env)@) ==> r is Ok && final(env)@ == old(env)@ && final(meta).out@.len() == old(meta).out@.len() + plain_resolved(views_of(tokens@), old(env)@).len()
            && (forall|j: int|
            0 <= j < plain_resolved(views_of(tokens@), old(env)@).len()
                ==> (#[trigger] final(meta).out@[old(meta).out@.len() + j])@ == plain_resolved(
                views_of(tokens@),
                old(env)@,
            )[j].val.push(' ')),
    decreases fuel, 2int,
{
    let ghost tsv = views_of(tokens@);
    let args = match get_args(&tokens, meta, env, eng, fuel) {
        Ok(a) => a,
        Err(a) => {
            return Err(a);
        },
    };
    let ghost out0 = meta.out@;
    let mut j: usize = 0;
    while j < args.len()
        invariant
            j <= args@.len(),
            meta.line_count == old(meta).line_count,
            meta.scope == old(meta).scope,
            meta.out@.len() == out0.len() + j,
            meta.out@.subrange(0, out0.len() as int) == out0,
            forall|k: int|
                0 <= k < j ==> (#[trigger] meta.out@[out0.len() + k])@ == args@[k]@.val.push(' '),
        decreases args@.len() - j,
    {
        let mut c = args[j].val.clone();
        c.push(' ');
        print_raw(c.as_str());
        meta.out.push(c);
        proof {
            assert(meta.out@.subrange(0, out0.len() as int) =~= out0);
        }
        j += 1;
    }
    proof {
        lemma_out_extends_trans(old(meta).out@, out0, meta.out@);
    }
    Ok(none_token())
}

/// Prints the prompt, flushes, and reads one line of user input, which comes
/// back trimmed as a STRING token. What the user types is outside anyone's
/// control, so only the result's kind is stated.
pub fn ask<E: Numerics>(
    tokens: Vec<Token>,
    meta: &mut Metadata,
    env: &mut Environment,
    eng: &E,
    fuel: u32,
) -> (r: Result<Token, Abort>)
    requires
        old(env).wf(),
    ensures
        final(env).wf(),
        final(meta).line_count == old(meta).line_count,
        out_extends(old(meta).out@, final(meta).out@),
        r is Ok ==> final(meta).scope == old(meta).scope,
        r is Ok ==> r->Ok_0@.ty == TokenTypes::STRING && r->Ok_0@.modifiers
            == Seq::<TokenModifiers>::empty(),
        plain_ok(views_of(tokens@), old(env)@) && plain_resolved(views_of(tokens@), old(env)@)
            .len() < 1 ==> (r matches Err(a) && a is Fatal) && *final(meta) == *old(meta) && final(env)@ == old(env)@,
        plain_ok(views_of(tokens@), old(env)@) && plain_resolved(views_of(tokens@), old(env)@)
            .len() >= 1 ==> final(env)@ == old(env)@ && final(meta).out@.len() == old(meta).out@.len() + 1 && final(meta).out@.last()@ == plain_resolved(
            views_of(tokens@),
            old(env)@,
        )[0].val,
    decreases fuel, 2int,
{
    let args = match get_args(&tokens, meta, env, eng, fuel) {
        Ok(a) => a,
        Err(a) => {
            return Err(a);
        },
    };
    if args.len() < 1 {
        return Err(crate::fatal_at(meta.line_count, "(ask) Not enough arguments!"));
    }
    let ghost out0 = meta.out@;
    let prompt = args[0].val.clone();
    print_raw(prompt.as_str());
    meta.out.push(prompt);
    proof {
        assert(meta.out@.subrange(0, out0.len() as int) =~= out0);
        lemma_out_extends_trans(old(meta).out@, out0, meta.out@);
    }
    match flush_stdout() {
        Ok(u) => u,
        Err(e) => {
            let mut m = "(ask) ".to_owned();
            m.append(e.as_str());
            return Err(crate::fatal_at(meta.line_count, m.as_str()));
        },
    }
    let input = match read_stdin_line() {
        Ok(s) => s,
        Err(e) => {
            let mut m = "(ask) ".to_owned();
            m.append(e.as_str());
            return Err(crate::fatal_at(meta.line_count, m.as_str()));
        },
    };
    let cs = chars_of(input.as_str());
    let trimmed = trim_chars(&cs);
    Ok(mk_token(TokenTypes::STRING, false, string_of(&trimmed)))
}

/// Prints every binding as `name: <KIND>text`, one line each in insertion
/// order, records the same lines, and yields NONE.
#[verifier::loop_isolation(false)]
pub fn vars<E: Numerics>(
    tokens: Vec<Token>,
    meta: &mut Metadata,
    env: &mut Environment,
    eng: &E,
    fuel: u32,
) -> (r: Result<Token, Abort>)
    requires
        old(env).wf(),
    ensures
        final(env).wf(),
        final(env)@ == old(env)@,
        final(meta).line_count == old(meta).line_count,
        final(meta).scope == old(meta).scope,
        r matches Ok(v) && v@ == none_v(),
        final(meta).out@.len() == old(meta).out@.len() + old(env).entries().len(),
        out_extends(old(meta).out@, final(meta).out@),
        forall|j: int|
            0 <= j < old(env).entries().len() ==> (#[trigger] final(meta).out@[old(meta).out@.len() + j])@ == vars_line(old(env).entries()[j]),
{
    let vs = get_variables(env);
    let ghost out0 = old(meta).out@;
    let mut i: usize = 0;
    while i < vs.len()
        invariant
            i <= vs@.len(),
            vs@.map_values(|p: (String, Variable)| (p.0@, p.1@)) == env.entries(),
            meta.line_count == old(meta).line_count,
            meta.scope == old(meta).scope,
            meta.out@.len() == out0.len() + i,
            meta.out@.subrange(0, out0.len() as int) == out0,
            forall|k: int|
                0 <= k < i ==> (#[trigger] meta.out@[out0.len() + k])@ == vars_line(
                    env.entries()[k],
                ),
        decreases vs@.len() - i,
    {
        let mut line = vs[i].0.clone();
        line.append(": <");
        let kn = kind_name(vs[i].1.value.ty);
        line.append(kn.as_str());
        line.append(">");
        line.append(vs[i].1.value.val.as_str());
        line.push('\n');
        print_raw(line.as_str());
        proof {
            assert(line@ =~= vars_line(env.entries()[i as int]));
        }
        meta.out.push(line);
        proof {
            assert(meta.out@.subrange(0, out0.len() as int) =~= out0);
        }
        i += 1;
    }
    Ok(none_token())
}

/// Reads the items of an ARRAY argument, prints the decoded token list and
/// then every item's text, records the same chunks, and yields NONE.
#[verifier::loop_isolation(false)]
pub fn format_array<E: Numerics>(
    tokens: Vec<Token>,
    meta: &mut Metadata,
    env: &mut Environment,
    eng: &E,
    fuel: u32,
) -> (r: Result<Token, Abort>)
    requires
        old(env).wf(),
    ensures
        final(env).wf(),
        final(meta).line_count == old(meta).line_count,
        out_extends(old(meta).out@, final(meta).out@),
        r is Ok ==> final(meta).scope == old(meta).scope,
        r is Ok ==> r->Ok_0@ == none_v(),
        plain_ok(views_of(tokens@), old(env)@) && plain_resolved(views_of(tokens@), old(env)@)
            .len() < 1 ==> (r matches Err(a) && a is Fatal) && *final(meta) == *old(meta) && final(env)@ == old(env)@,
        plain_ok(views_of(tokens@), old(env)@) ==> final(env)@ == old(env)@ && forall|k: int|
            old(meta).out@.len() <= k < final(meta).out@.len() ==> (#[trigger] final(meta).out@[k])@.len() > 0 && final(meta).out@[k]@.last() == '\n',
    decreases fuel, 2int,
{
    let ghost plainp = plain_ok(views_of(tokens@), old(env)@);
    let args = match get_args(&tokens, meta, env, eng, fuel) {
        Ok(a) => a,
        Err(a) => {
            return Err(a);
        },
    };
    if args.len() < 1 {
        return Err(crate::fatal_at(meta.line_count, "(format_array) Not enough arguments!"));
    }
    let ghost out_a = meta.out@;
    let array = match read_array(&args[0], meta, env, eng, fuel) {
        Ok(a) => a,
        Err(a) => {
            return Err(a);
        },
    };
    let mut dbg = debug_tokens_text(&array);
    dbg.push('\n');
    print_raw(dbg.as_str());
    meta.out.push(dbg);
    proof {
        assert(meta.out@.subrange(0, out_a.len() as int) =~= out_a);
        lemma_out_extends_trans(old(meta).out@, out_a, meta.out@);
    }
    let ghost out_b = meta.out@;
    let mut j: usize = 0;
    while j < array.len()
        invariant
            j <= array@.len(),
            meta.line_count == old(meta).line_count,
            meta.scope == old(meta).scope,
            out_extends(out_b, meta.out@),
            plainp ==> env@ == old(env)@ && forall|k: int|
                old(meta).out@.len() <= k < meta.out@.len() ==> (#[trigger] meta.out@[k])@.len()
                    > 0 && meta.out@[k]@.last() == '\n',
        decreases array@.len() - j,
    {
        let ghost out_c = meta.out@;
        let mut c = array[j].val.clone();
        c.push('\n');
        print_raw(c.as_str());
        meta.out.push(c);
        proof {
            assert(meta.out@.subrange(0, out_c.len() as int) =~= out_c);
            lemma_out_extends_trans(out_b, out_c, meta.out@);
        }
        j += 1;
    }
    proof {
        lemma_out_extends_trans(old(meta).out@, out_b, meta.out@);
    }
    Ok(none_token())
}

/// Ends the whole run with the given exit code: zero without arguments, the
/// first argument read as a 32-bit integer otherwise, or a fatal error when
/// that text is not a number. This builtin never yields a value.
pub fn quit<E: Numerics>(
    tokens: Vec<Token>,
    meta: &mut Metadata,
    env: &mut Environment,
    eng: &E,
    fuel: u32,
) -> (r: Result<Token, Abort>)
    requires
        old(env).wf(),
    ensures
        final(env).wf(),
        final(meta).line_count == old(meta).line_count,
        out_extends(old(meta).out@, final(meta).out@),
        r is Err,
        plain_ok(views_of(tokens@), old(env)@) ==> *final(meta) == *old(meta) && final(env)@
            == old(env)@,
        plain_ok(views_of(tokens@), old(env)@) && plain_resolved(views_of(tokens@), old(env)@)
            .len() == 0 ==> r == Result::<Token, Abort>::Err(Abort::Exit(0)),
        plain_ok(views_of(tokens@), old(env)@) && plain_resolved(views_of(tokens@), old(env)@)
            .len() >= 1 && !(crate::numbers::is_int_shape(
            plain_resolved(views_of(tokens@), old(env)@)[0].val,
        ) && i32::MIN <= crate::numbers::int_text_val(
            plain_resolved(views_of(tokens@), old(env)@)[0].val,
        ) <= i32::MAX) ==> (r matches Err(a) && a is Fatal),
        plain_ok(views_of(tokens@), old(env)@) && plain_resolved(views_of(tokens@), old(env)@)
            .len() >= 1 && crate::numbers::is_int_shape(
            plain_resolved(views_of(tokens@), old(env)@)[0].val,
        ) && i32::MIN <= crate::numbers::int_text_val(
            plain_resolved(views_of(tokens@), old(env)@)[0].val,
        ) <= i32::MAX ==> (r matches Err(a) && a matches Abort::Exit(c) && c as int
            == crate::numbers::int_text_val(plain_resolved(views_of(tokens@), old(env)@)[0].val)),
    decreases fuel, 2int,
{
    let args = match get_args(&tokens, meta, env, eng, fuel) {
        Ok(a) => a,
        Err(a) => {
            return Err(a);
        },
    };
    let code: i32 = if args.len() > 0 {
        let cs = chars_of(args[0].val.as_str());
        match parse_i32(&cs) {
            Some(n) => n,
            None => {
                return Err(
                    crate::fatal_at(
                        meta.line_count,
                        "(quit / exit) Error code is not a number",
                    ),
                );
            },
        }
    } else {
        0
    };
    Err(Abort::Exit(code))
}

} // verus!
