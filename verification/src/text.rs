//! Verified text utilities: conversions between `String` and `Vec<char>`,
//! slicing, splitting, and comparisons. The whole engine works on sequences of
//! characters; these helpers carry exact contracts over `Seq<char>`.

use vstd::prelude::*;

verus! {

/// Relies on `String::push`: appends the given character to the end of the string.
pub assume_specification[ String::push ](s: &mut String, c: char)
    ensures
        final(s)@ == old(s)@.push(c),
;

/// The characters of a string, as a vector.
pub fn chars_of(s: &str) -> (r: Vec<char>)
    ensures
        r@ == s@,
{
    let n: usize = s.unicode_len();
    let mut r: Vec<char> = Vec::new();
    let mut i: usize = 0;
    while i < n
        invariant
            i <= n,
            n == s@.len(),
            r@ == s@.subrange(0, i as int),
        decreases n - i,
    {
        let c = s.get_char(i);
        r.push(c);
        assert(r@ =~= s@.subrange(0, i as int + 1));
        i += 1;
    }
    assert(r@ =~= s@);
    r
}

/// A string made of the given characters.
pub fn string_of(cs: &Vec<char>) -> (r: String)
    ensures
        r@ == cs@,
{
    let mut r = String::new();
    let mut i: usize = 0;
    while i < cs.len()
        invariant
            i <= cs@.len(),
            r@ == cs@.subrange(0, i as int),
        decreases cs@.len() - i,
    {
        r.push(cs[i]);
        assert(r@ =~= cs@.subrange(0, i as int + 1));
        i += 1;
    }
    assert(r@ =~= cs@);
    r
}

/// The slice of `w` from `from` (inclusive) to `to` (exclusive).
pub fn sub_chars(w: &Vec<char>, from: usize, to: usize) -> (r: Vec<char>)
    requires
        from <= to <= w@.len(),
    ensures
        r@ == w@.subrange(from as int, to as int),
{
    let mut r: Vec<char> = Vec::new();
    let mut i: usize = from;
    while i < to
        invariant
            from <= i <= to <= w@.len(),
            r@ == w@.subrange(from as int, i as int),
        decreases to - i,
    {
        r.push(w[i]);
        assert(r@ =~= w@.subrange(from as int, i as int + 1));
        i += 1;
    }
    r
}

/// Appends all characters of `src` to `dst`.
pub fn push_all(dst: &mut Vec<char>, src: &Vec<char>)
    ensures
        final(dst)@ == old(dst)@ + src@,
{
    let mut i: usize = 0;
    while i < src.len()
        invariant
            i <= src@.len(),
            dst@ == old(dst)@ + src@.subrange(0, i as int),
        decreases src@.len() - i,
    {
        dst.push(src[i]);
        assert(dst@ =~= old(dst)@ + src@.subrange(0, i as int + 1));
        i += 1;
    }
    assert(dst@ =~= old(dst)@ + src@);
}

/// Whether the characters of `w` equal the characters of the string `s`.
pub fn word_is(w: &Vec<char>, s: &str) -> (r: bool)
    ensures
        r == (w@ == s@),
{
    let n: usize = s.unicode_len();
    if w.len() != n {
        return false;
    }
    let mut i: usize = 0;
    while i < n
        invariant
            i <= n,
            n == s@.len(),
            w@.len() == n,
            forall|j: int| 0 <= j < i ==> w@[j] == s@[j],
        decreases n - i,
    {
        if w[i] != s.get_char(i) {
            return false;
        }
        i += 1;
    }
    assert(w@ =~= s@);
    true
}

/// Whether the string holds exactly the given text.
pub fn str_is(s: &String, lit: &str) -> (r: bool)
    ensures
        r == (s@ == lit@),
{
    let l = lit.to_owned();
    *s == l
}

/// Whether the word begins with the character.
pub fn starts_with(w: &Vec<char>, c: char) -> (r: bool)
    ensures
        r == (w@.len() > 0 && w@[0] == c),
{
    w.len() > 0 && w[0] == c
}

/// Whether the word ends with the character.
pub fn ends_with(w: &Vec<char>, c: char) -> (r: bool)
    ensures
        r == (w@.len() > 0 && w@.last() == c),
{
    w.len() > 0 && w[w.len() - 1] == c
}

/// The word without its first character.
pub fn drop_first_char(w: &Vec<char>) -> (r: Vec<char>)
    requires
        w@.len() > 0,
    ensures
        r@ == w@.drop_first(),
{
    let r = sub_chars(w, 1, w.len());
    assert(r@ =~= w@.drop_first());
    r
}

/// The word without its last character.
pub fn drop_last_char(w: &Vec<char>) -> (r: Vec<char>)
    requires
        w@.len() > 0,
    ensures
        r@ == w@.drop_last(),
{
    let r = sub_chars(w, 0, w.len() - 1);
    assert(r@ =~= w@.drop_last());
    r
}

/// Whether the character counts as blank space for trimming.
pub open spec fn is_space(c: char) -> bool {
    c == ' ' || c == '\t' || c == '\n' || c == '\r'
}

/// The text without leading blank space.
pub open spec fn trim_start_sp(s: Seq<char>) -> Seq<char>
    decreases s.len(),
{
    if s.len() > 0 && is_space(s[0]) {
        trim_start_sp(s.drop_first())
    } else {
        s
    }
}

/// The text without trailing blank space.
pub open spec fn trim_end_sp(s: Seq<char>) -> Seq<char>
    decreases s.len(),
{
    if s.len() > 0 && is_space(s.last()) {
        trim_end_sp(s.drop_last())
    } else {
        s
    }
}

proof fn lemma_trim_start_is(s: Seq<char>, i: int)
    requires
        0 <= i <= s.len(),
        forall|j: int| 0 <= j < i ==> is_space(#[trigger] s[j]),
        i < s.len() ==> !is_space(s[i]),
    ensures
        trim_start_sp(s) == s.subrange(i, s.len() as int),
    decreases s.len(),
{
    if s.len() > 0 && is_space(s[0]) {
        if i == 0 {
            assert(!is_space(s[0]));
        } else {
            assert(forall|j: int|
                0 <= j < i - 1 ==> s.drop_first()[j] == s[j + 1] && is_space(#[trigger] s[j + 1]));
            lemma_trim_start_is(s.drop_first(), i - 1);
            assert(s.drop_first().subrange(i - 1, s.drop_first().len() as int) =~= s.subrange(
                i,
                s.len() as int,
            ));
        }
    } else {
        assert(i == 0);
        assert(s.subrange(0, s.len() as int) =~= s);
    }
}

proof fn lemma_trim_end_is(s: Seq<char>, i: int)
    requires
        0 <= i <= s.len(),
        forall|j: int| i <= j < s.len() ==> is_space(#[trigger] s[j]),
        i > 0 ==> !is_space(s[i - 1]),
    ensures
        trim_end_sp(s) == s.subrange(0, i),
    decreases s.len(),
{
    if s.len() > 0 && is_space(s.last()) {
        assert(i < s.len());
        assert(forall|j: int|
            i <= j < s.len() - 1 ==> s.drop_last()[j] == s[j] && is_space(#[trigger] s[j]));
        lemma_trim_end_is(s.drop_last(), i);
        assert(s.drop_last().subrange(0, i) =~= s.subrange(0, i));
    } else {
        assert(i == s.len());
        assert(s.subrange(0, s.len() as int) =~= s);
    }
}

/// The word without trailing blank space.
#[verifier::loop_isolation(false)]
pub fn trim_end_chars(w: &Vec<char>) -> (r: Vec<char>)
    ensures
        r@ == trim_end_sp(w@),
{
    let mut e: usize = w.len();
    while e > 0 && (w[e - 1] == ' ' || w[e - 1] == '\t' || w[e - 1] == '\n' || w[e - 1]
        == '\r')
        invariant
            e <= w@.len(),
            forall|j: int| e <= j < w@.len() ==> is_space(#[trigger] w@[j]),
        decreases e,
    {
        e -= 1;
    }
    proof {
        lemma_trim_end_is(w@, e as int);
    }
    sub_chars(w, 0, e)
}

/// The word without leading or trailing blank space, as user input is
/// trimmed.
#[verifier::loop_isolation(false)]
pub fn trim_chars(w: &Vec<char>) -> (r: Vec<char>)
    ensures
        r@ == trim_end_sp(trim_start_sp(w@)),
{
    let mut b: usize = 0;
    while b < w.len() && (w[b] == ' ' || w[b] == '\t' || w[b] == '\n' || w[b] == '\r')
        invariant
            b <= w@.len(),
            forall|j: int| 0 <= j < b ==> is_space(#[trigger] w@[j]),
        decreases w@.len() - b,
    {
        b += 1;
    }
    proof {
        lemma_trim_start_is(w@, b as int);
    }
    let rest = sub_chars(w, b, w.len());
    trim_end_chars(&rest)
}

/// The smallest index of `c` in `s`, or `s.len()` when `c` does not occur.
pub open spec fn first_ix(s: Seq<char>, c: char) -> int
    decreases s.len(),
{
    if s.len() == 0 {
        0
    } else if s[0] == c {
        0
    } else {
        1 + first_ix(s.drop_first(), c)
    }
}

pub proof fn lemma_first_ix(s: Seq<char>, c: char)
    ensures
        0 <= first_ix(s, c) <= s.len(),
        first_ix(s, c) < s.len() ==> s[first_ix(s, c)] == c,
        forall|j: int| 0 <= j < first_ix(s, c) ==> s[j] != c,
    decreases s.len(),
{
    if s.len() != 0 && s[0] != c {
        lemma_first_ix(s.drop_first(), c);
        assert(forall|j: int|
            1 <= j < first_ix(s, c) ==> s[j] == s.drop_first()[j - 1] && s.drop_first()[j - 1]
                != c);
    }
}

/// Characterizes `first_ix` from below: if no occurrence before `i`, and `i`
/// holds `c` (or `i` is the length), then `first_ix` is `i`.
pub proof fn lemma_first_ix_is(s: Seq<char>, c: char, i: int)
    requires
        0 <= i <= s.len(),
        forall|j: int| 0 <= j < i ==> s[j] != c,
        i < s.len() ==> s[i] == c,
    ensures
        i < s.len() ==> first_ix(s, c) == i,
        i == s.len() ==> first_ix(s, c) == s.len(),
    decreases s.len(),
{
    if s.len() != 0 && s[0] != c {
        assert(forall|j: int| 0 <= j < i - 1 ==> s.drop_first()[j] == s[j + 1] && s[j + 1] != c);
        lemma_first_ix_is(s.drop_first(), c, if i == 0 { 0 } else { i - 1 });
    }
}

/// Splitting a character sequence on a separator, keeping empty pieces, as
/// `str::split` does: the result always has one more piece than there are
/// separators.
pub open spec fn split_on(s: Seq<char>, c: char) -> Seq<Seq<char>>
    decreases s.len(),
{
    let i = first_ix(s, c);
    if 0 <= i < s.len() {
        seq![s.subrange(0, i)] + split_on(s.subrange(i + 1, s.len() as int), c)
    } else {
        seq![s]
    }
}

pub proof fn lemma_split_on_len(s: Seq<char>, c: char)
    ensures
        split_on(s, c).len() >= 1,
    decreases s.len(),
{
    lemma_first_ix(s, c);
    if first_ix(s, c) != s.len() {
        lemma_split_on_len(s.subrange(first_ix(s, c) + 1, s.len() as int), c);
    }
}

/// The pieces of `s[from..]` split on `c`, elementwise equal to `split_on`.
pub fn split_chars_from(s: &Vec<char>, from: usize, c: char) -> (r: Vec<Vec<char>>)
    requires
        from <= s@.len(),
    ensures
        r@.len() == split_on(s@.subrange(from as int, s@.len() as int), c).len(),
        forall|i: int|
            0 <= i < r@.len() ==> r@[i]@ == split_on(
                s@.subrange(from as int, s@.len() as int),
                c,
            )[i],
    decreases s@.len() - from,
{
    let ghost tail = s@.subrange(from as int, s@.len() as int);
    let n = s.len();
    let mut i: usize = from;
    while i < n && s[i] != c
        invariant
            from <= i <= n,
            n == s@.len(),
            forall|j: int| from <= j < i ==> s@[j] != c,
        decreases n - i,
    {
        i += 1;
    }
    proof {
        assert(forall|j: int|
            0 <= j < i - from ==> tail[j] == s@[from + j] && s@[from + j] != c);
        if i < n {
            assert(tail[i - from] == s@[i as int]);
        }
        lemma_first_ix_is(tail, c, i - from);
    }
    if i == n {
        let piece = sub_chars(s, from, n);
        let mut r: Vec<Vec<char>> = Vec::new();
        r.push(piece);
        assert(split_on(tail, c) =~= seq![tail]);
        assert(r@[0]@ == tail);
        r
    } else {
        let piece = sub_chars(s, from, i);
        let rest = split_chars_from(s, i + 1, c);
        let ghost rest_tail = s@.subrange(i + 1, n as int);
        let mut r: Vec<Vec<char>> = Vec::new();
        r.push(piece);
        let mut k: usize = 0;
        let rest_len = rest.len();
        while k < rest_len
            invariant
                k <= rest_len,
                rest_len == rest@.len(),
                r@.len() == k + 1,
                r@[0]@ == tail.subrange(0, i - from),
                forall|j: int| 0 <= j < k ==> #[trigger] r@[j + 1]@ == rest@[j]@,
                rest@.len() == split_on(rest_tail, c).len(),
                forall|j: int| 0 <= j < rest@.len() ==> rest@[j]@ == split_on(rest_tail, c)[j],
            decreases rest_len - k,
        {
            let piece_k = sub_chars(&rest[k], 0, rest[k].len());
            assert(piece_k@ =~= rest@[k as int]@);
            r.push(piece_k);
            k += 1;
        }
        proof {
            assert(tail.subrange(0, i - from) =~= s@.subrange(from as int, i as int));
            assert(tail.subrange(i - from + 1, tail.len() as int) =~= rest_tail);
            assert(split_on(tail, c) =~= seq![tail.subrange(0, i - from)] + split_on(
                rest_tail,
                c,
            ));
            assert(forall|j: int|
                0 <= j < rest@.len() ==> r@[j + 1]@ == rest@[j]@ && rest@[j]@ == split_on(
                    rest_tail,
                    c,
                )[j]);
            assert(forall|j: int|
                1 <= j < r@.len() ==> #[trigger] r@[j]@ == split_on(tail, c)[j]);
        }
        r
    }
}

/// A text without the separator splits into one piece: itself.
pub proof fn lemma_split_single(s: Seq<char>, c: char)
    requires
        forall|j: int| 0 <= j < s.len() ==> s[j] != c,
    ensures
        split_on(s, c) == seq![s],
{
    lemma_first_ix_is(s, c, s.len() as int);
}

/// The lines of a block of text: the pieces between newlines, without a
/// final empty piece when the text ends in a newline, as `str::lines` reads
/// a block.
pub open spec fn lines_of(s: Seq<char>) -> Seq<Seq<char>> {
    let ps = split_on(s, '\n');
    if ps.len() > 0 && ps.last().len() == 0 {
        ps.drop_last()
    } else {
        ps
    }
}

/// The lines of a block of text.
pub fn split_lines(s: &Vec<char>) -> (r: Vec<Vec<char>>)
    ensures
        r@.len() == lines_of(s@).len(),
        forall|i: int| 0 <= i < r@.len() ==> r@[i]@ == lines_of(s@)[i],
{
    let mut ps = split_chars(s, '\n');
    proof {
        lemma_split_on_len(s@, '\n');
    }
    if ps.len() > 0 && ps[ps.len() - 1].len() == 0 {
        ps.pop();
    }
    ps
}

/// The pieces of `s` split on `c`.
pub fn split_chars(s: &Vec<char>, c: char) -> (r: Vec<Vec<char>>)
    ensures
        r@.len() == split_on(s@, c).len(),
        forall|i: int| 0 <= i < r@.len() ==> r@[i]@ == split_on(s@, c)[i],
{
    let r = split_chars_from(s, 0, c);
    assert(s@.subrange(0, s@.len() as int) =~= s@);
    r
}

/// Removes every character after the first occurrence of `ch`, and `ch`
/// itself: how a comment tail leaves a source line.
pub fn remove_all_after_chars(text: &Vec<char>, ch: char) -> (r: Vec<char>)
    ensures
        r@ == split_on(text@, ch)[0],
{
    proof {
        lemma_first_ix(text@, ch);
    }
    let n = text.len();
    let mut i: usize = 0;
    while i < n && text[i] != ch
        invariant
            i <= n,
            n == text@.len(),
            forall|j: int| 0 <= j < i ==> text@[j] != ch,
        decreases n - i,
    {
        i += 1;
    }
    proof {
        lemma_first_ix_is(text@, ch, i as int);
    }
    sub_chars(text, 0, i)
}

} // verus!
