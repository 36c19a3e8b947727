//! Argument parser for Dawn (dwn): classifies raw command-line words into
//! options (`--word`, split on dashes), flags (`-x`, one per character),
//! variables (`--key=value`), and plain arguments, the first of which is the
//! command.

use vstd::prelude::*;

use crate::text::{chars_of, drop_first_char, split_chars, split_on, string_of, sub_chars};

verus! {

/// Arguments struct.
pub struct Arguments {
    pub options: Vec<String>,
    pub flags: Vec<String>,
    pub command: String,
    pub arguments: Vec<String>,
    pub variables: Vec<(String, String)>,
}

/// Whether the word opens with two dashes.
pub open spec fn is_long(s: Seq<char>) -> bool {
    s.len() >= 2 && s[0] == '-' && s[1] == '-'
}

/// Whether the word opens with one dash only.
pub open spec fn is_short(s: Seq<char>) -> bool {
    s.len() >= 1 && s[0] == '-' && !is_long(s)
}

/// Whether the word is a plain argument.
pub open spec fn is_plain(s: Seq<char>) -> bool {
    !(s.len() >= 1 && s[0] == '-')
}

/// Whether a long word carries a `key=value` binding.
pub open spec fn has_binding(s: Seq<char>) -> bool {
    split_on(s, '=').len() >= 2
}

/// The word with every leading `--` pair removed, as options and binding
/// keys are trimmed.
pub open spec fn trim_dashes(s: Seq<char>) -> Seq<char>
    decreases s.len(),
{
    if s.len() >= 2 && s[0] == '-' && s[1] == '-' {
        trim_dashes(s.subrange(2, s.len() as int))
    } else {
        s
    }
}

/// The plain words among the raw arguments, in order.
pub open spec fn plains_of(args: Seq<Seq<char>>) -> Seq<Seq<char>>
    decreases args.len(),
{
    if args.len() == 0 {
        Seq::empty()
    } else if is_plain(args.last()) {
        plains_of(args.drop_last()).push(args.last())
    } else {
        plains_of(args.drop_last())
    }
}

/// The flag characters among the raw arguments, in order, one piece each.
pub open spec fn flags_of(args: Seq<Seq<char>>) -> Seq<Seq<char>>
    decreases args.len(),
{
    if args.len() == 0 {
        Seq::empty()
    } else if is_short(args.last()) {
        flags_of(args.drop_last()) + args.last().drop_first().map_values(
            |c: char| seq![c],
        )
    } else {
        flags_of(args.drop_last())
    }
}

/// The option pieces among the raw arguments, in order: each binding-free
/// long word is trimmed of its dashes and split on single dashes.
pub open spec fn options_of(args: Seq<Seq<char>>) -> Seq<Seq<char>>
    decreases args.len(),
{
    if args.len() == 0 {
        Seq::empty()
    } else if is_long(args.last()) && !has_binding(args.last()) {
        options_of(args.drop_last()) + split_on(trim_dashes(args.last()), '-')
    } else {
        options_of(args.drop_last())
    }
}

/// The `key=value` bindings among the raw arguments, in order; the key is
/// trimmed of its dashes and the value is the piece after the first `=`.
pub open spec fn bindings_of(args: Seq<Seq<char>>) -> Seq<(Seq<char>, Seq<char>)>
    decreases args.len(),
{
    if args.len() == 0 {
        Seq::empty()
    } else if is_long(args.last()) && has_binding(args.last()) {
        bindings_of(args.drop_last()).push(
            (
                trim_dashes(split_on(args.last(), '=')[0]),
                split_on(args.last(), '=')[1],
            ),
        )
    } else {
        bindings_of(args.drop_last())
    }
}

/// The word with every leading `--` pair removed.
fn trim_dashes_exec(w: &Vec<char>) -> (r: Vec<char>)
    ensures
        r@ == trim_dashes(w@),
    decreases w@.len(),
{
    if w.len() >= 2 && w[0] == '-' && w[1] == '-' {
        let rest = sub_chars(w, 2, w.len());
        trim_dashes_exec(&rest)
    } else {
        sub_chars(w, 0, w.len())
    }
}

/// Parses the arguments. Every raw word lands in exactly one bucket, stated
/// exactly: plain words become the command (the first) and the arguments;
/// one-dash words contribute one flag per character; two-dash words without
/// `=` contribute their dash-separated pieces as options; two-dash words
/// with `=` bind a variable.
#[verifier::loop_isolation(false)]
pub fn argparse(args: Vec<String>) -> (r: Arguments)
    ensures
        r.options@.len() == options_of(args@.map_values(|s: String| s@)).len(),
        forall|i: int|
            0 <= i < r.options@.len() ==> (#[trigger] r.options@[i]@) == options_of(
                args@.map_values(|s: String| s@),
            )[i],
        r.flags@.len() == flags_of(args@.map_values(|s: String| s@)).len(),
        forall|i: int|
            0 <= i < r.flags@.len() ==> (#[trigger] r.flags@[i]@) == flags_of(
                args@.map_values(|s: String| s@),
            )[i],
        r.variables@.len() == bindings_of(args@.map_values(|s: String| s@)).len(),
        forall|i: int|
            0 <= i < r.variables@.len() ==> ((#[trigger] r.variables@[i]).0@ == bindings_of(
                args@.map_values(|s: String| s@),
            )[i].0 && r.variables@[i].1@ == bindings_of(args@.map_values(|s: String| s@))[i].1),
        plains_of(args@.map_values(|s: String| s@)).len() == 0 ==> r.command@
            == Seq::<char>::empty() && r.arguments@.len() == 0,
        plains_of(args@.map_values(|s: String| s@)).len() > 0 ==> r.command@ == plains_of(
            args@.map_values(|s: String| s@),
        )[0] && r.arguments@.len() == plains_of(args@.map_values(|s: String| s@)).len() - 1 && (
        forall|i: int|
            0 <= i < r.arguments@.len() ==> (#[trigger] r.arguments@[i]@) == plains_of(
                args@.map_values(|s: String| s@),
            )[i + 1]),
{
    let ghost av = args@.map_values(|s: String| s@);
    let mut options: Vec<String> = Vec::new();
    let mut flags: Vec<String> = Vec::new();
    let mut arguments: Vec<String> = Vec::new();
    let mut variables: Vec<(String, String)> = Vec::new();
    let mut i: usize = 0;
    while i < args.len()
        invariant
            i <= args@.len(),
            av == args@.map_values(|s: String| s@),
            options@.len() == options_of(av.subrange(0, i as int)).len(),
            forall|j: int|
                0 <= j < options@.len() ==> (#[trigger] options@[j]@) == options_of(
                    av.subrange(0, i as int),
                )[j],
            flags@.len() == flags_of(av.subrange(0, i as int)).len(),
            forall|j: int|
                0 <= j < flags@.len() ==> (#[trigger] flags@[j]@) == flags_of(
                    av.subrange(0, i as int),
                )[j],
            variables@.len() == bindings_of(av.subrange(0, i as int)).len(),
            forall|j: int|
                0 <= j < variables@.len() ==> ((#[trigger] variables@[j]).0@ == bindings_of(
                    av.subrange(0, i as int),
                )[j].0 && variables@[j].1@ == bindings_of(av.subrange(0, i as int))[j].1),
            arguments@.len() == plains_of(av.subrange(0, i as int)).len(),
            forall|j: int|
                0 <= j < arguments@.len() ==> (#[trigger] arguments@[j]@) == plains_of(
                    av.subrange(0, i as int),
                )[j],
        decreases args@.len() - i,
    {
        let w = chars_of(args[i].as_str());
        let ghost pre = av.subrange(0, i as int);
        let ghost now = av.subrange(0, i as int + 1);
        proof {
            assert(now.drop_last() =~= pre);
            assert(now.last() == w@);
        }
        if w.len() >= 2 && w[0] == '-' && w[1] == '-' {
            let pieces = split_chars(&w, '=');
            proof {
                crate::text::lemma_split_on_len(w@, '=');
            }
            if pieces.len() == 1 {
                let trimmed = trim_dashes_exec(&w);
                let opts = split_chars(&trimmed, '-');
                let mut k: usize = 0;
                while k < opts.len()
                    invariant
                        k <= opts@.len(),
                        opts@.len() == split_on(trim_dashes(w@), '-').len(),
                        forall|j: int|
                            0 <= j < opts@.len() ==> (#[trigger] opts@[j]@) == split_on(
                                trim_dashes(w@),
                                '-',
                            )[j],
                        options@.len() == options_of(pre).len() + k,
                        forall|j: int|
                            0 <= j < options_of(pre).len() ==> (#[trigger] options@[j]@)
                                == options_of(pre)[j],
                        forall|j: int|
                            options_of(pre).len() <= j < options_of(pre).len() + k ==> (
                            #[trigger] options@[j]@) == split_on(trim_dashes(w@), '-')[j
                                - options_of(pre).len()],
                    decreases opts@.len() - k,
                {
                    options.push(string_of(&opts[k]));
                    k += 1;
                }
                proof {
                    assert(options_of(now) =~= options_of(pre) + split_on(
                        trim_dashes(w@),
                        '-',
                    ));
                    assert forall|j: int|
                        0 <= j < options@.len() implies (#[trigger] options@[j]@) == options_of(
                        now,
                    )[j] by {
                        let a = options_of(pre);
                        let b = split_on(trim_dashes(w@), '-');
                        if j < a.len() {
                            assert((a + b)[j] == a[j]);
                        } else {
                            assert((a + b)[j] == b[j - a.len()]);
                        }
                    }
                }
            } else {
                let key_raw = trim_dashes_exec(&pieces[0]);
                let key = string_of(&key_raw);
                let val = string_of(&pieces[1]);
                variables.push((key, val));
                proof {
                    assert(bindings_of(now) =~= bindings_of(pre).push(
                        (trim_dashes(split_on(w@, '=')[0]), split_on(w@, '=')[1]),
                    ));
                    assert forall|j: int|
                        0 <= j < variables@.len() implies ((#[trigger] variables@[j]).0@
                        == bindings_of(now)[j].0 && variables@[j].1@ == bindings_of(now)[j].1) by {
                        let a = bindings_of(pre);
                        let e = (trim_dashes(split_on(w@, '=')[0]), split_on(w@, '=')[1]);
                        if j < a.len() {
                            assert(a.push(e)[j] == a[j]);
                        } else {
                            assert(a.push(e)[j] == e);
                        }
                    }
                }
            }
        } else if w.len() >= 1 && w[0] == '-' {
            let mut k: usize = 1;
            while k < w.len()
                invariant
                    1 <= k <= w@.len(),
                    flags@.len() == flags_of(pre).len() + k - 1,
                    forall|j: int|
                        0 <= j < flags_of(pre).len() ==> (#[trigger] flags@[j]@) == flags_of(
                            pre,
                        )[j],
                    forall|j: int|
                        flags_of(pre).len() <= j < flags_of(pre).len() + k - 1 ==> (
                        #[trigger] flags@[j]@) == seq![w@.drop_first()[j - flags_of(pre).len()]],
                decreases w@.len() - k,
            {
                let mut one: Vec<char> = Vec::new();
                one.push(w[k]);
                flags.push(string_of(&one));
                proof {
                    assert(one@ =~= seq![w@.drop_first()[k - 1]]);
                }
                k += 1;
            }
            proof {
                assert(flags_of(now) =~= flags_of(pre) + w@.drop_first().map_values(
                    |c: char| seq![c],
                ));
                assert(forall|j: int|
                    0 <= j < w@.drop_first().len() ==> w@.drop_first().map_values(
                        |c: char| seq![c],
                    )[j] == seq![#[trigger] w@.drop_first()[j]]);
                assert forall|j: int|
                    0 <= j < flags@.len() implies (#[trigger] flags@[j]@) == flags_of(now)[j] by {
                    let a = flags_of(pre);
                    let b = w@.drop_first().map_values(|c: char| seq![c]);
                    if j < a.len() {
                        assert((a + b)[j] == a[j]);
                    } else {
                        assert((a + b)[j] == b[j - a.len()]);
                    }
                }
            }
        } else {
            arguments.push(args[i].clone());
            proof {
                assert(plains_of(now) =~= plains_of(pre).push(w@));
            }
        }
        proof {
            if !(is_long(w@) && !has_binding(w@)) {
                assert(options_of(now) =~= options_of(pre));
            }
            if !(is_long(w@) && has_binding(w@)) {
                assert(bindings_of(now) =~= bindings_of(pre));
                assert forall|j: int|
                    0 <= j < variables@.len() implies ((#[trigger] variables@[j]).0@
                    == bindings_of(now)[j].0 && variables@[j].1@ == bindings_of(now)[j].1) by {
                    assert(bindings_of(now)[j] == bindings_of(pre)[j]);
                }
            }
            if !is_short(w@) {
                assert(flags_of(now) =~= flags_of(pre));
            }
            if !is_plain(w@) {
                assert(plains_of(now) =~= plains_of(pre));
            }
        }
        i += 1;
    }
    proof {
        assert(av.subrange(0, av.len() as int) =~= av);
    }
    let command = if arguments.len() > 0 {
        arguments.remove(0)
    } else {
        String::new()
    };
    Arguments { options, flags, command, arguments, variables }
}

} // verus!
