//! The bytecode codec for Dawn (dwn): bit-exact serialization of token
//! streams to the persisted `.light` form and back. A file is the ASCII
//! level digits, one `0x04` byte and a newline, then every source line's
//! tokens, each line closed by `0x03`. A token is its type mnemonic, `0x00`,
//! each modifier mnemonic followed by `0x01`, `0x00`, the raw value text,
//! and `0x02`.

use vstd::prelude::*;

use crate::Abort;
use crate::dwn::{Environment, Metadata, Variable};
use crate::lexer::{Token, TokenModifiers, TokenTypes, TokenV, copy_token, token_eq, views_of};
use crate::numbers::{Numerics, parse_i64};
use crate::text::{
    chars_of, first_ix, lemma_first_ix, lemma_first_ix_is, split_chars, string_of, sub_chars,
    trim_chars, trim_end_chars,
};

verus! {

/// The type mnemonic written for each token kind. The table is bijective on
/// every kind but CUSTOMFUNC, which has no mnemonic of its own: it falls
/// back to the NAME mnemonic.
pub open spec fn mnemonic(ty: TokenTypes) -> Seq<char> {
    match ty {
        TokenTypes::INT => seq!['i'],
        TokenTypes::FLOAT => seq!['f', 'l'],
        TokenTypes::FUNC => seq!['f', 'u'],
        TokenTypes::BOOL => seq!['b'],
        TokenTypes::STRING => seq!['s', 't'],
        TokenTypes::NAME => seq!['n', 'a'],
        TokenTypes::NONE => seq!['n', 'o'],
        TokenTypes::SCOPE => seq!['s', 'c'],
        TokenTypes::VARIABLE => seq!['v'],
        TokenTypes::LITERAL => seq!['l'],
        TokenTypes::ARRAY => seq!['a'],
        TokenTypes::CUSTOMFUNC => seq!['n', 'a'],
    }
}

/// The token kind a mnemonic decodes to.
pub open spec fn mnemonic_of(m: Seq<char>) -> Option<TokenTypes> {
    if m.len() == 1 {
        if m[0] == 'i' {
            Some(TokenTypes::INT)
        } else if m[0] == 'b' {
            Some(TokenTypes::BOOL)
        } else if m[0] == 'v' {
            Some(TokenTypes::VARIABLE)
        } else if m[0] == 'l' {
            Some(TokenTypes::LITERAL)
        } else if m[0] == 'a' {
            Some(TokenTypes::ARRAY)
        } else {
            None
        }
    } else if m.len() == 2 {
        if m[0] == 'f' && m[1] == 'l' {
            Some(TokenTypes::FLOAT)
        } else if m[0] == 'f' && m[1] == 'u' {
            Some(TokenTypes::FUNC)
        } else if m[0] == 's' && m[1] == 't' {
            Some(TokenTypes::STRING)
        } else if m[0] == 'n' && m[1] == 'a' {
            Some(TokenTypes::NAME)
        } else if m[0] == 'n' && m[1] == 'o' {
            Some(TokenTypes::NONE)
        } else if m[0] == 's' && m[1] == 'c' {
            Some(TokenTypes::SCOPE)
        } else {
            None
        }
    } else {
        None
    }
}

/// The encoded modifier list: one `a` and one `0x01` per modifier.
pub open spec fn enc_mods(mods: Seq<TokenModifiers>) -> Seq<char>
    decreases mods.len(),
{
    if mods.len() == 0 {
        Seq::empty()
    } else {
        enc_mods(mods.drop_last()) + seq!['a', '\u{1}']
    }
}

/// The encoded form of one token.
pub open spec fn enc_token(t: TokenV) -> Seq<char> {
    mnemonic(t.ty) + seq!['\u{0}'] + enc_mods(t.modifiers) + seq!['\u{0}'] + t.val + seq!['\u{2}']
}

/// The encoded form of one source line's tokens (without the closing `0x03`).
pub open spec fn enc_line(ts: Seq<TokenV>) -> Seq<char>
    decreases ts.len(),
{
    if ts.len() == 0 {
        Seq::empty()
    } else {
        enc_line(ts.drop_last()) + enc_token(ts.last())
    }
}

/// Parsing a modifier blob: the piece before each `0x01` must be the `a`
/// mnemonic; anything after the last `0x01` belongs to no modifier and is
/// dropped, the way splitting keeps a last piece that no separator closed.
pub open spec fn parse_mods(b: Seq<char>) -> Option<Seq<TokenModifiers>>
    decreases b.len(),
{
    let i = first_ix(b, '\u{1}');
    if !(0 <= i < b.len()) {
        Some(Seq::empty())
    } else if i == 1 && b[0] == 'a' {
        match parse_mods(b.subrange(i + 1, b.len() as int)) {
            Some(ms) => Some(seq![TokenModifiers::ARGS] + ms),
            None => None,
        }
    } else {
        None
    }
}

/// Parsing one encoded token (the text before a `0x02`): the mnemonic up to
/// the first `0x00`, the modifier blob up to the second, then the value —
/// only the first three pieces count, so a stray third `0x00` truncates the
/// value.
pub open spec fn parse_chunk(c: Seq<char>) -> Option<TokenV> {
    let i0 = first_ix(c, '\u{0}');
    if !(0 <= i0 < c.len()) {
        None
    } else {
        let rest = c.subrange(i0 + 1, c.len() as int);
        let i1 = first_ix(rest, '\u{0}');
        if !(0 <= i1 < rest.len()) {
            None
        } else {
            let blob = rest.subrange(0, i1);
            let after = rest.subrange(i1 + 1, rest.len() as int);
            let i2 = first_ix(after, '\u{0}');
            let val = if 0 <= i2 < after.len() {
                after.subrange(0, i2)
            } else {
                after
            };
            match mnemonic_of(c.subrange(0, i0)) {
                None => None,
                Some(ty) => match parse_mods(blob) {
                    None => None,
                    Some(mods) => Some(TokenV { ty, modifiers: mods, val }),
                },
            }
        }
    }
}

/// Parsing one encoded line: a token chunk before every `0x02`; whatever
/// follows the last `0x02` closed no token and is dropped.
pub open spec fn parse_line(s: Seq<char>) -> Option<Seq<TokenV>>
    decreases s.len(),
{
    let i = first_ix(s, '\u{2}');
    if !(0 <= i < s.len()) {
        Some(Seq::empty())
    } else {
        match parse_chunk(s.subrange(0, i)) {
            None => None,
            Some(t) => match parse_line(s.subrange(i + 1, s.len() as int)) {
                None => None,
                Some(ts) => Some(seq![t] + ts),
            },
        }
    }
}

/// Whether a character is one of the codec's delimiters.
pub open spec fn is_control(c: char) -> bool {
    c == '\u{0}' || c == '\u{1}' || c == '\u{2}' || c == '\u{3}'
}

/// Whether a token stream survives the codec byte-exactly: no value holds a
/// delimiter byte, and no token is of the CUSTOMFUNC kind the mnemonic table
/// does not carry.
pub open spec fn codec_safe(ts: Seq<TokenV>) -> bool {
    forall|i: int|
        0 <= i < ts.len() ==> (#[trigger] ts[i]).ty != TokenTypes::CUSTOMFUNC && forall|j: int|
            0 <= j < ts[i].val.len() ==> !is_control(#[trigger] ts[i].val[j])
}

proof fn lemma_mnemonic_no_control(ty: TokenTypes)
    ensures
        forall|j: int| 0 <= j < mnemonic(ty).len() ==> !is_control(#[trigger] mnemonic(ty)[j]),
        1 <= mnemonic(ty).len() <= 2,
{
}

proof fn lemma_mnemonic_roundtrip(ty: TokenTypes)
    requires
        ty != TokenTypes::CUSTOMFUNC,
    ensures
        mnemonic_of(mnemonic(ty)) == Some(ty),
{
}

proof fn lemma_enc_mods_shape(mods: Seq<TokenModifiers>)
    ensures
        enc_mods(mods).len() == 2 * mods.len(),
        forall|j: int|
            0 <= j < enc_mods(mods).len() ==> (#[trigger] enc_mods(mods)[j]) == (if j % 2 == 0 {
                'a'
            } else {
                '\u{1}'
            }),
    decreases mods.len(),
{
    if mods.len() > 0 {
        lemma_enc_mods_shape(mods.drop_last());
    }
}

proof fn lemma_parse_enc_mods(mods: Seq<TokenModifiers>)
    ensures
        parse_mods(enc_mods(mods)) == Some(mods),
    decreases mods.len(),
{
    let b = enc_mods(mods);
    lemma_enc_mods_shape(mods);
    if mods.len() == 0 {
        lemma_first_ix(b, '\u{1}');
        assert(mods =~= Seq::<TokenModifiers>::empty());
    } else {
        // The first modifier's `a` and `0x01` stand first; peel them off.
        let tail = mods.drop_first();
        assert(mods[0] == TokenModifiers::ARGS);
        lemma_enc_mods_front(mods);
        assert(b[0] == 'a' && b[1] == '\u{1}');
        lemma_first_ix_is(b, '\u{1}', 1);
        assert(b.subrange(0, 1) =~= seq!['a']);
        assert(b.subrange(2, b.len() as int) =~= enc_mods(tail));
        lemma_parse_enc_mods(tail);
        assert(seq![TokenModifiers::ARGS] + tail =~= mods);
    }
}

/// The encoded modifiers can also be peeled from the front.
proof fn lemma_enc_mods_front(mods: Seq<TokenModifiers>)
    requires
        mods.len() > 0,
    ensures
        enc_mods(mods) == seq!['a', '\u{1}'] + enc_mods(mods.drop_first()),
    decreases mods.len(),
{
    if mods.len() == 1 {
        assert(mods.drop_last() =~= Seq::<TokenModifiers>::empty());
        assert(mods.drop_first() =~= Seq::<TokenModifiers>::empty());
        assert(enc_mods(mods) =~= seq!['a', '\u{1}'] + enc_mods(mods.drop_first()));
    } else {
        lemma_enc_mods_front(mods.drop_last());
        assert(mods.drop_last().drop_first() =~= mods.drop_first().drop_last());
        assert(enc_mods(mods) =~= seq!['a', '\u{1}'] + enc_mods(mods.drop_first()));
    }
}

/// The encoded lines can also be peeled from the front.
proof fn lemma_enc_line_front(ts: Seq<TokenV>)
    requires
        ts.len() > 0,
    ensures
        enc_line(ts) == enc_token(ts.first()) + enc_line(ts.drop_first()),
    decreases ts.len(),
{
    if ts.len() == 1 {
        assert(ts.drop_last() =~= Seq::<TokenV>::empty());
        assert(ts.drop_first() =~= Seq::<TokenV>::empty());
        assert(enc_line(ts) =~= enc_token(ts.first()) + enc_line(ts.drop_first()));
    } else {
        lemma_enc_line_front(ts.drop_last());
        assert(ts.drop_last().drop_first() =~= ts.drop_first().drop_last());
        assert(ts.drop_last().first() == ts.first());
        assert(enc_line(ts) =~= enc_token(ts.first()) + enc_line(ts.drop_first()));
    }
}

/// Decoding one encoded token gives the token back.
proof fn lemma_parse_enc_chunk(t: TokenV)
    requires
        t.ty != TokenTypes::CUSTOMFUNC,
        forall|j: int| 0 <= j < t.val.len() ==> !is_control(#[trigger] t.val[j]),
    ensures
        enc_token(t).len() >= 1,
        enc_token(t).last() == '\u{2}',
        forall|j: int| 0 <= j < enc_token(t).len() - 1 ==> (#[trigger] enc_token(t)[j]) != '\u{2}',
        parse_chunk(enc_token(t).drop_last()) == Some(t),
{
    let m = mnemonic(t.ty);
    let em = enc_mods(t.modifiers);
    let c = enc_token(t).drop_last();
    lemma_mnemonic_no_control(t.ty);
    lemma_enc_mods_shape(t.modifiers);
    assert(c =~= m + seq!['\u{0}'] + em + seq!['\u{0}'] + t.val);
    // No 0x02 anywhere before the final byte.
    assert(forall|j: int|
        0 <= j < enc_token(t).len() - 1 ==> (#[trigger] enc_token(t)[j]) != '\u{2}');
    // The first 0x00 closes the mnemonic.
    assert(c[m.len() as int] == '\u{0}');
    lemma_first_ix_is(c, '\u{0}', m.len() as int);
    assert(c.subrange(0, m.len() as int) =~= m);
    let rest = c.subrange(m.len() as int, c.len() as int);
    assert(c.subrange(m.len() as int + 1, c.len() as int) =~= em + seq!['\u{0}'] + t.val);
    let rest1 = em + seq!['\u{0}'] + t.val;
    // The second 0x00 closes the modifier blob.
    assert(rest1[em.len() as int] == '\u{0}');
    lemma_first_ix_is(rest1, '\u{0}', em.len() as int);
    assert(rest1.subrange(0, em.len() as int) =~= em);
    assert(rest1.subrange(em.len() as int + 1, rest1.len() as int) =~= t.val);
    // The value holds no 0x00, so it is taken whole.
    lemma_first_ix_is(t.val, '\u{0}', t.val.len() as int);
    lemma_mnemonic_roundtrip(t.ty);
    lemma_parse_enc_mods(t.modifiers);
    assert(parse_chunk(c) == Some(t));
}

/// Writes the type mnemonic of `ty` onto `out`.
fn push_mnemonic(out: &mut Vec<char>, ty: TokenTypes)
    ensures
        final(out)@ == old(out)@ + mnemonic(ty),
{
    match ty {
        TokenTypes::INT => out.push('i'),
        TokenTypes::FLOAT => {
            out.push('f');
            out.push('l');
        },
        TokenTypes::FUNC => {
            out.push('f');
            out.push('u');
        },
        TokenTypes::BOOL => out.push('b'),
        TokenTypes::STRING => {
            out.push('s');
            out.push('t');
        },
        TokenTypes::NAME => {
            out.push('n');
            out.push('a');
        },
        TokenTypes::NONE => {
            out.push('n');
            out.push('o');
        },
        TokenTypes::SCOPE => {
            out.push('s');
            out.push('c');
        },
        TokenTypes::VARIABLE => out.push('v'),
        TokenTypes::LITERAL => out.push('l'),
        TokenTypes::ARRAY => out.push('a'),
        TokenTypes::CUSTOMFUNC => {
            out.push('n');
            out.push('a');
        },
    }
    assert(out@ =~= old(out)@ + mnemonic(ty));
}

/// Writes the encoded form of one token onto `out`.
#[verifier::loop_isolation(false)]
fn encode_token_into(out: &mut Vec<char>, t: &Token)
    ensures
        final(out)@ == old(out)@ + enc_token(t@),
{
    push_mnemonic(out, t.ty);
    out.push('\u{0}');
    let ghost mid0 = out@;
    let mut i: usize = 0;
    while i < t.modifiers.len()
        invariant
            i <= t.modifiers@.len(),
            out@ == mid0 + enc_mods(t.modifiers@.subrange(0, i as int)),
        decreases t.modifiers@.len() - i,
    {
        let _m = t.modifiers[i];
        out.push('a');
        out.push('\u{1}');
        proof {
            let p = t.modifiers@.subrange(0, i as int + 1);
            assert(p.drop_last() =~= t.modifiers@.subrange(0, i as int));
            assert(out@ =~= mid0 + enc_mods(p));
        }
        i += 1;
    }
    proof {
        assert(t.modifiers@.subrange(0, t.modifiers@.len() as int) =~= t.modifiers@);
    }
    out.push('\u{0}');
    let val_chars = chars_of(t.val.as_str());
    crate::text::push_all(out, &val_chars);
    out.push('\u{2}');
    assert(out@ =~= old(out)@ + enc_token(t@));
}

/// Encodes one source line's tokens to their persisted form (without the
/// closing `0x03`).
#[verifier::loop_isolation(false)]
pub fn encode_tokens(tokens: &Vec<Token>) -> (r: Vec<char>)
    ensures
        r@ == enc_line(views_of(tokens@)),
{
    let mut out: Vec<char> = Vec::new();
    let mut i: usize = 0;
    while i < tokens.len()
        invariant
            i <= tokens@.len(),
            out@ == enc_line(views_of(tokens@.subrange(0, i as int))),
        decreases tokens@.len() - i,
    {
        encode_token_into(&mut out, &tokens[i]);
        proof {
            let p = views_of(tokens@.subrange(0, i as int + 1));
            assert(p.drop_last() =~= views_of(tokens@.subrange(0, i as int)));
            assert(p.last() == tokens@[i as int]@);
            assert(out@ =~= enc_line(p));
        }
        i += 1;
    }
    proof {
        assert(views_of(tokens@.subrange(0, tokens@.len() as int)) =~= views_of(tokens@));
    }
    out
}

/// The invalid-format abort for one decoder stage.
fn bad_format(stage: &str, found: Option<&Vec<char>>) -> (r: Abort)
    ensures
        r is Fatal,
{
    let mut m = stage.to_owned();
    match found {
        Some(cs) => {
            m.append(" no_found: >>");
            let cs_string = string_of(cs);
            m.append(cs_string.as_str());
            m.append("<<");
        },
        None => {
            m.append(" no_part_found");
        },
    }
    m.append(") Error: Invalid format in bytecode file!");
    Abort::Fatal(m)
}

/// The smallest index of `c` in `s[from..to)`, or `to` when `c` does not
/// occur there.
#[verifier::loop_isolation(false)]
fn scan_for(s: &Vec<char>, from: usize, to: usize, c: char) -> (r: usize)
    requires
        from <= to <= s@.len(),
    ensures
        from <= r <= to,
        r - from == first_ix(s@.subrange(from as int, to as int), c),
{
    let mut i: usize = from;
    while i < to && s[i] != c
        invariant
            from <= i <= to,
            forall|j: int| from <= j < i ==> s@[j] != c,
        decreases to - i,
    {
        i += 1;
    }
    proof {
        let piece = s@.subrange(from as int, to as int);
        assert(forall|j: int| 0 <= j < i - from ==> piece[j] == s@[from + j] && s@[from + j] != c);
        if i < to {
            assert(piece[i - from] == s@[i as int]);
        }
        lemma_first_ix_is(piece, c, i - from);
    }
    i
}

/// Decodes the modifier blob `s[from..to)`.
fn decode_mods(s: &Vec<char>, from: usize, to: usize) -> (r: Result<Vec<TokenModifiers>, Abort>)
    requires
        from <= to <= s@.len(),
    ensures
        match parse_mods(s@.subrange(from as int, to as int)) {
            Some(ms) => r matches Ok(v) && v@ == ms,
            None => r matches Err(a) && a is Fatal,
        },
    decreases to - from,
{
    let ghost blob = s@.subrange(from as int, to as int);
    let i = scan_for(s, from, to, '\u{1}');
    if i == to {
        proof {
            lemma_first_ix(blob, '\u{1}');
        }
        return Ok(Vec::new());
    }
    if i == from + 1 && s[from] == 'a' {
        proof {
            assert(blob[0] == 'a');
        }
        let rest = decode_mods(s, i + 1, to);
        proof {
            assert(blob.subrange(first_ix(blob, '\u{1}') + 1, blob.len() as int) =~= s@.subrange(
                i + 1,
                to as int,
            ));
        }
        match rest {
            Ok(mut ms) => {
                ms.insert(0, TokenModifiers::ARGS);
                proof {
                    let inner = parse_mods(s@.subrange(i + 1, to as int));
                    assert(ms@ =~= seq![TokenModifiers::ARGS] + inner->Some_0);
                }
                Ok(ms)
            },
            Err(a) => Err(a),
        }
    } else {
        let piece = sub_chars(s, from, i);
        proof {
            assert(blob.subrange(0, first_ix(blob, '\u{1}')) =~= piece@);
            if first_ix(blob, '\u{1}') == 1 && blob[0] == 'a' {
                assert(i == from + 1 && s@[from as int] == 'a');
            }
        }
        Err(bad_format("(modifier_get", Some(&piece)))
    }
}

/// Looks a type mnemonic up in the decode table.
fn mnemonic_lookup(m: &Vec<char>) -> (r: Option<TokenTypes>)
    ensures
        r == mnemonic_of(m@),
{
    if m.len() == 1 {
        let c = m[0];
        if c == 'i' {
            Some(TokenTypes::INT)
        } else if c == 'b' {
            Some(TokenTypes::BOOL)
        } else if c == 'v' {
            Some(TokenTypes::VARIABLE)
        } else if c == 'l' {
            Some(TokenTypes::LITERAL)
        } else if c == 'a' {
            Some(TokenTypes::ARRAY)
        } else {
            None
        }
    } else if m.len() == 2 {
        let c0 = m[0];
        let c1 = m[1];
        if c0 == 'f' && c1 == 'l' {
            Some(TokenTypes::FLOAT)
        } else if c0 == 'f' && c1 == 'u' {
            Some(TokenTypes::FUNC)
        } else if c0 == 's' && c1 == 't' {
            Some(TokenTypes::STRING)
        } else if c0 == 'n' && c1 == 'a' {
            Some(TokenTypes::NAME)
        } else if c0 == 'n' && c1 == 'o' {
            Some(TokenTypes::NONE)
        } else if c0 == 's' && c1 == 'c' {
            Some(TokenTypes::SCOPE)
        } else {
            None
        }
    } else {
        None
    }
}

/// Decodes one token chunk `s[from..to)` (the text before a `0x02`).
fn decode_chunk(s: &Vec<char>, from: usize, to: usize) -> (r: Result<Token, Abort>)
    requires
        from <= to <= s@.len(),
    ensures
        match parse_chunk(s@.subrange(from as int, to as int)) {
            Some(t) => r matches Ok(tok) && tok@ == t,
            None => r matches Err(a) && a is Fatal,
        },
{
    let ghost chunk = s@.subrange(from as int, to as int);
    let i0 = scan_for(s, from, to, '\u{0}');
    // The type mnemonic is looked up first, before the check that the other
    // parts are there at all, so its diagnostic wins on a bare chunk.
    let ty_end = i0;
    let m = sub_chars(s, from, ty_end);
    proof {
        let sp_i0 = first_ix(chunk, '\u{0}');
        assert(chunk.subrange(0, sp_i0) =~= m@);
    }
    let ty = match mnemonic_lookup(&m) {
        Some(ty) => ty,
        None => {
            return Err(bad_format("(type_get", Some(&m)));
        },
    };
    if i0 == to {
        return Err(bad_format("(modifier_get", None));
    }
    proof {
        assert(chunk.subrange(first_ix(chunk, '\u{0}') + 1, chunk.len() as int) =~= s@.subrange(
            i0 + 1,
            to as int,
        ));
    }
    let ghost rest = s@.subrange(i0 + 1, to as int);
    let i1 = scan_for(s, i0 + 1, to, '\u{0}');
    if i1 == to {
        proof {
            lemma_first_ix(rest, '\u{0}');
        }
        return Err(bad_format("(val_get", None));
    }
    proof {
        assert(rest.subrange(0, first_ix(rest, '\u{0}')) =~= s@.subrange(i0 + 1, i1 as int));
        assert(rest.subrange(first_ix(rest, '\u{0}') + 1, rest.len() as int) =~= s@.subrange(
            i1 + 1,
            to as int,
        ));
    }
    let mods = match decode_mods(s, i0 + 1, i1) {
        Ok(ms) => ms,
        Err(a) => {
            return Err(a);
        },
    };
    let ghost after = s@.subrange(i1 + 1, to as int);
    let i2 = scan_for(s, i1 + 1, to, '\u{0}');
    proof {
        if first_ix(after, '\u{0}') < after.len() {
            assert(after.subrange(0, first_ix(after, '\u{0}')) =~= s@.subrange(
                i1 + 1,
                i2 as int,
            ));
        } else {
            assert(after =~= s@.subrange(i1 + 1, i2 as int));
        }
    }
    let val_chars = sub_chars(s, i1 + 1, i2);
    let val = string_of(&val_chars);
    let tok = Token { ty, modifiers: mods, val };
    Ok(tok)
}

/// Decodes one encoded line into the token list the lexer would have
/// produced, or aborts fatally on any malformed chunk, exactly as
/// [`parse_line`] says.
pub fn decode_tokens_from(s: &Vec<char>, from: usize) -> (r: Result<Vec<Token>, Abort>)
    requires
        from <= s@.len(),
    ensures
        match parse_line(s@.subrange(from as int, s@.len() as int)) {
            Some(ts) => r matches Ok(v) && views_of(v@) == ts,
            None => r matches Err(a) && a is Fatal,
        },
    decreases s@.len() - from,
{
    let ghost tail = s@.subrange(from as int, s@.len() as int);
    let n = s.len();
    let i = scan_for(s, from, n, '\u{2}');
    if i == n {
        proof {
            lemma_first_ix(tail, '\u{2}');
            assert(views_of(Seq::<Token>::empty()) =~= Seq::<TokenV>::empty());
        }
        return Ok(Vec::new());
    }
    proof {
        assert(tail.subrange(0, first_ix(tail, '\u{2}')) =~= s@.subrange(from as int, i as int));
        assert(tail.subrange(first_ix(tail, '\u{2}') + 1, tail.len() as int) =~= s@.subrange(
            i + 1,
            n as int,
        ));
    }
    let tok = match decode_chunk(s, from, i) {
        Ok(t) => t,
        Err(a) => {
            return Err(a);
        },
    };
    match decode_tokens_from(s, i + 1) {
        Ok(mut v) => {
            v.insert(0, tok);
            proof {
                let inner = parse_line(s@.subrange(i + 1, n as int));
                assert(views_of(v@) =~= seq![tok@] + inner->Some_0);
            }
            Ok(v)
        },
        Err(a) => Err(a),
    }
}

/// Decodes one encoded line.
pub fn decode_tokens(s: &Vec<char>) -> (r: Result<Vec<Token>, Abort>)
    ensures
        match parse_line(s@) {
            Some(ts) => r matches Ok(v) && views_of(v@) == ts,
            None => r matches Err(a) && a is Fatal,
        },
{
    let r = decode_tokens_from(s, 0);
    proof {
        assert(s@.subrange(0, s@.len() as int) =~= s@);
    }
    r
}

/// Bytecode round-trip: decoding an encoded token stream gives the stream
/// back, for any stream whose values hold no delimiter bytes and whose kinds
/// the mnemonic table carries — which is every stream the lexer makes from
/// source text free of those bytes, since only a value that itself holds an
/// encoded form (an unevaluated nested LITERAL of one) could smuggle a
/// delimiter in. Decoded lines are therefore evaluated exactly as the
/// lexer's output would have been.
pub proof fn lemma_codec_round_trip(ts: Seq<TokenV>)
    requires
        codec_safe(ts),
    ensures
        parse_line(enc_line(ts)) == Some(ts),
    decreases ts.len(),
{
    if ts.len() == 0 {
        lemma_first_ix(enc_line(ts), '\u{2}');
        assert(parse_line(enc_line(ts)) == Some(Seq::<TokenV>::empty()));
        assert(ts =~= Seq::<TokenV>::empty());
    } else {
        let t = ts.first();
        let rest = ts.drop_first();
        assert(codec_safe(rest)) by {
            assert(forall|i: int| 0 <= i < rest.len() ==> (#[trigger] rest[i]) == ts[i + 1]);
        }
        lemma_enc_line_front(ts);
        let s = enc_line(ts);
        let et = enc_token(t);
        lemma_parse_enc_chunk(t);
        assert(s =~= et + enc_line(rest));
        assert(s[et.len() - 1] == '\u{2}');
        assert(forall|j: int| 0 <= j < et.len() - 1 ==> s[j] == et[j] && et[j] != '\u{2}');
        lemma_first_ix_is(s, '\u{2}', et.len() - 1);
        assert(s.subrange(0, et.len() - 1) =~= et.drop_last());
        assert(s.subrange(et.len() as int, s.len() as int) =~= enc_line(rest));
        lemma_codec_round_trip(rest);
        assert(seq![t] + rest =~= ts);
    }
}

/// The function to remove every character in `text` after `ch` is reached
/// (including `ch`).
pub fn remove_all_after(text: String, ch: char) -> (r: String)
    ensures
        r@ == crate::text::split_on(text@, ch)[0],
{
    let cs = chars_of(text.as_str());
    let cut = crate::text::remove_all_after_chars(&cs, ch);
    string_of(&cut)
}

/// Reads the bytecode level from a file's first line: the decimal digits
/// before the `0x04` control byte, exactly when they parse as a signed
/// 64-bit integer.
pub fn bytecode_level(header: &String) -> (r: Result<i64, Abort>)
    ensures
        crate::numbers::is_i64_text(crate::text::split_on(header@, '\u{4}')[0]) ==> (r matches
            Ok(v) && v == crate::numbers::int_text_val(crate::text::split_on(header@, '\u{4}')[0])),
        !crate::numbers::is_i64_text(crate::text::split_on(header@, '\u{4}')[0]) ==> (r matches
            Err(a) && a is Fatal),
{
    let cs = chars_of(header.as_str());
    let pieces = split_chars(&cs, '\u{4}');
    proof {
        crate::text::lemma_split_on_len(header@, '\u{4}');
    }
    match parse_i64(&pieces[0]) {
        Some(v) => Ok(v),
        None => Err(Abort::Fatal("Error: Level is not numeric in bytecode file!".to_owned())),
    }
}

/// Whether the word spells `latest`, in any mix of letter cases.
pub open spec fn is_latest_word(s: Seq<char>) -> bool {
    s.len() == 6 && (s[0] == 'l' || s[0] == 'L') && (s[1] == 'a' || s[1] == 'A') && (s[2] == 't'
        || s[2] == 'T') && (s[3] == 'e' || s[3] == 'E') && (s[4] == 's' || s[4] == 'S') && (s[5]
        == 't' || s[5] == 'T')
}

/// Picks the bytecode level to compile with: the latest (level 1) when none
/// or `latest` (case-insensitive) is asked for, else the number given,
/// fatally when it is not one.
pub fn choose_level(level: Option<String>) -> (r: Result<i64, Abort>)
    ensures
        level is None ==> r == Result::<i64, Abort>::Ok(1),
        level matches Some(s) ==> {
            &&& is_latest_word(s@) ==> r == Result::<i64, Abort>::Ok(1)
            &&& !is_latest_word(s@) && crate::numbers::is_i64_text(s@) ==> (r matches Ok(v) && v
                == crate::numbers::int_text_val(s@))
            &&& !is_latest_word(s@) && !crate::numbers::is_i64_text(s@) ==> (r matches Err(a)
                && a is Fatal)
        },
{
    let s = match level {
        None => {
            return Ok(1);
        },
        Some(s) => s,
    };
    let cs = chars_of(s.as_str());
    let latest = cs.len() == 6 && (cs[0] == 'l' || cs[0] == 'L') && (cs[1] == 'a' || cs[1] == 'A')
        && (cs[2] == 't' || cs[2] == 'T') && (cs[3] == 'e' || cs[3] == 'E') && (cs[4] == 's'
        || cs[4] == 'S') && (cs[5] == 't' || cs[5] == 'T');
    if latest {
        return Ok(1);
    }
    match parse_i64(&cs) {
        Some(v) => Ok(v),
        None => Err(Abort::Fatal("Error: Level must be a number or 'latest' !".to_owned())),
    }
}

/// The name pieces of a dotted path, joined with dots again.
pub open spec fn dot_join(pieces: Seq<Seq<char>>) -> Seq<char>
    decreases pieces.len(),
{
    if pieces.len() == 0 {
        Seq::empty()
    } else if pieces.len() == 1 {
        pieces[0]
    } else {
        dot_join(pieces.drop_last()) + seq!['.'] + pieces.last()
    }
}

/// The path the compiled bytecode is written to: the source path without its
/// last dotted piece, with the `.light` extension appended.
#[verifier::loop_isolation(false)]
pub fn light_path(file: &String) -> (r: String)
    ensures
        r@ == dot_join(crate::text::split_on(file@, '.').drop_last()) + ".light"@,
{
    let cs = chars_of(file.as_str());
    let mut pieces = split_chars(&cs, '.');
    proof {
        crate::text::lemma_split_on_len(file@, '.');
    }
    pieces.pop();
    let ghost kept = crate::text::split_on(file@, '.').drop_last();
    let mut out: Vec<char> = Vec::new();
    let mut i: usize = 0;
    while i < pieces.len()
        invariant
            i <= pieces@.len(),
            pieces@.len() == kept.len(),
            forall|j: int| 0 <= j < pieces@.len() ==> (#[trigger] pieces@[j]@) == kept[j],
            out@ == dot_join(kept.subrange(0, i as int)),
        decreases pieces@.len() - i,
    {
        if i > 0 {
            out.push('.');
        }
        crate::text::push_all(&mut out, &pieces[i]);
        proof {
            assert(kept.subrange(0, i as int + 1).drop_last() =~= kept.subrange(0, i as int));
            if i == 0 {
                assert(kept.subrange(0, 1)[0] == kept[0]);
                assert(out@ =~= dot_join(kept.subrange(0, i as int + 1)));
            } else {
                assert(out@ =~= dot_join(kept.subrange(0, i as int + 1)));
            }
        }
        i += 1;
    }
    proof {
        assert(kept.subrange(0, kept.len() as int) =~= kept);
    }
    let mut r = string_of(&out);
    r.append(".light");
    r
}

/// The level-1 bytecode compile pass: each source line is stripped of its
/// comment tail, blank lines keep their `0x03` terminator so diagnostics
/// keep their line numbers, every other line is lexed and its tokens
/// appended in encoded form — and a line that opens with a `create_var`
/// call is eagerly registered into the variable table, so later lines of
/// the same pass can already resolve the name.
/// The token lines of a compile pass, each encoded and closed by its `0x03`
/// terminator; a blank source line stands as an empty token line, keeping
/// its terminator so diagnostics keep their line numbers.
pub open spec fn enc_lines(ls: Seq<Seq<TokenV>>) -> Seq<char>
    decreases ls.len(),
{
    if ls.len() == 0 {
        Seq::empty()
    } else {
        enc_lines(ls.drop_last()) + enc_line(ls.last()) + seq!['\u{3}']
    }
}

/// The eager registrations of a compile pass: every token line that opens
/// with a `create_var` call binds its name token's text to its value token,
/// at the global depth the pass runs at, in order; nothing else is touched.
pub open spec fn register_lines(
    m: Map<Seq<char>, crate::dwn::VariableV>,
    ls: Seq<Seq<TokenV>>,
) -> Map<Seq<char>, crate::dwn::VariableV>
    decreases ls.len(),
{
    if ls.len() == 0 {
        m
    } else {
        let m2 = register_lines(m, ls.drop_last());
        let l = ls.last();
        if l.len() >= 3 && l[0] == crate::lexer::token_v(TokenTypes::FUNC, false, "create_var"@) {
            m2.insert(l[1].val, crate::dwn::VariableV { value: l[2], scope: 0 })
        } else {
            m2
        }
    }
}

#[verifier::loop_isolation(false)]
pub fn bytec_lvl1<E: Numerics>(
    lines: &Vec<String>,
    env: &mut Environment,
    eng: &E,
    fuel: u32,
) -> (r: Result<String, Abort>)
    requires
        old(env).wf(),
    ensures
        final(env).wf(),
        r matches Ok(s) ==> s@.len() >= 3 && s@[0] == '1' && s@[1] == '\u{4}' && s@[2] == '\n',
        r matches Ok(s) ==> exists|ls: Seq<Seq<TokenV>>|
            s@ == seq!['1', '\u{4}', '\n'] + #[trigger] enc_lines(ls) && final(env)@
                == register_lines(old(env)@, ls),
{
    let mut out: Vec<char> = Vec::new();
    out.push('1');
    out.push('\u{4}');
    out.push('\n');
    proof {
        assert(out@ =~= seq!['1', '\u{4}', '\n'] + enc_lines(Seq::<Seq<TokenV>>::empty()));
    }
    let ghost mut ls: Seq<Seq<TokenV>> = Seq::empty();
    let mut meta = Metadata::new(0);
    let mut count: usize = 0;
    while count < lines.len()
        invariant
            env.wf(),
            out@.len() >= 3 && out@[0] == '1' && out@[1] == '\u{4}' && out@[2] == '\n',
            out@ == seq!['1', '\u{4}', '\n'] + enc_lines(ls),
            env@ == register_lines(old(env)@, ls),
            meta.scope == 0,
        decreases lines@.len() - count,
    {
        meta.line_count = count;
        let raw = chars_of(lines[count].as_str());
        let line = crate::text::remove_all_after_chars(&raw, ';');
        let trimmed_all = trim_chars(&line);
        if trimmed_all.len() == 0 {
            out.push('\u{3}');
            proof {
                let prev = ls;
                ls = ls.push(Seq::<TokenV>::empty());
                assert(ls.drop_last() =~= prev);
                assert(enc_line(ls.last()) =~= Seq::<char>::empty());
                assert(out@ =~= seq!['1', '\u{4}', '\n'] + enc_lines(ls));
            }
            count += 1;
            continue ;
        }
        let trimmed = trim_end_chars(&line);
        let tokens = match crate::lexer::tokenize(string_of(&trimmed), &mut meta, env, eng, fuel)
        {
            Ok(ts) => ts,
            Err(a) => {
                return Err(a);
            },
        };
        let cv = crate::lexer::mk_token(TokenTypes::FUNC, false, "create_var".to_owned());
        let ghost lv = views_of(tokens@);
        proof {
            if tokens@.len() >= 3 {
                assert(lv[0] == tokens@[0]@ && lv[1] == tokens@[1]@ && lv[2] == tokens@[2]@);
            }
        }
        if tokens.len() >= 3 && token_eq(&tokens[0], &cv) {
            env.set(
                tokens[1].val.clone(),
                Variable { value: copy_token(&tokens[2]), scope: meta.scope },
            );
        }
        let encoded = encode_tokens(&tokens);
        crate::text::push_all(&mut out, &encoded);
        out.push('\u{3}');
        proof {
            let prev = ls;
            ls = ls.push(lv);
            assert(ls.drop_last() =~= prev);
            assert(out@ =~= seq!['1', '\u{4}', '\n'] + enc_lines(ls));
            assert(env@ =~= register_lines(old(env)@, ls));
        }
        count += 1;
    }
    Ok(string_of(&out))
}

/// The level-1 bytecode run pass: the text after the header line is split on
/// `0x03` into encoded lines, each decoded and executed in order, exactly as
/// the lexer's output would have been.
#[verifier::loop_isolation(false)]
pub fn byterun_lvl1<E: Numerics>(
    text: &String,
    env: &mut Environment,
    eng: &E,
    fuel: u32,
) -> (r: Result<(), Abort>)
    requires
        old(env).wf(),
    ensures
        final(env).wf(),
        parse_line(crate::text::split_on(text@, '\u{3}')[0]) is None ==> (r matches Err(a)
            && a is Fatal) && final(env)@ == old(env)@,
{
    let ghost badhead = parse_line(crate::text::split_on(text@, '\u{3}')[0]) is None;
    let cs = chars_of(text.as_str());
    let chunks = split_chars(&cs, '\u{3}');
    proof {
        crate::text::lemma_split_on_len(text@, '\u{3}');
    }
    let mut meta = Metadata::new(0);
    let mut count: usize = 0;
    while count < chunks.len()
        invariant
            env.wf(),
            badhead ==> count == 0 && env@ == old(env)@,
        decreases chunks@.len() - count,
    {
        meta.line_count = count;
        let tokens = match decode_tokens(&chunks[count]) {
            Ok(ts) => ts,
            Err(a) => {
                return Err(a);
            },
        };
        match crate::runner::run_tokens(tokens, &mut meta, env, eng, fuel) {
            Ok(_) => {},
            Err(a) => {
                return Err(a);
            },
        }
        count += 1;
    }
    Ok(())
}

} // verus!
