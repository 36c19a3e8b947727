//! The extension-framework listing for Dawn (dwn): the text that names every
//! builtin function, every variable, and the extra keywords, for editors and
//! extensions to consume. Writing it to its file is the caller's business.

use vstd::prelude::*;

use crate::dwn::{Environment, builtin_names, get_funcs, get_variables};
use crate::text::string_of;

verus! {

/// A list of names, one per line.
pub open spec fn joined(names: Seq<Seq<char>>) -> Seq<char>
    decreases names.len(),
{
    if names.len() == 0 {
        Seq::empty()
    } else {
        joined(names.drop_last()) + names.last() + seq!['\n']
    }
}

/// The names of an environment's bindings, in insertion order.
pub open spec fn entry_names(env: Environment) -> Seq<Seq<char>> {
    env.entries().map_values(|e: (Seq<char>, crate::dwn::VariableV)| e.0)
}

/// The framework text: the builtin functions, then the variables, then the
/// extra keywords, each section closed by a `;` line.
pub fn framework_text(env: &Environment) -> (r: String)
    ensures
        r@ == "funcs:\n"@ + joined(builtin_names()) + ";\n"@ + "vars:\n"@ + joined(
            entry_names(*env),
        ) + ";\n"@ + "keywordOther:\n"@ + "let\n"@ + ";\n"@,
{
    let mut text = "funcs:\n".to_owned();
    let funcs = get_funcs();
    let mut i: usize = 0;
    while i < funcs.len()
        invariant
            i <= funcs@.len(),
            funcs@.len() == builtin_names().len(),
            forall|j: int| 0 <= j < funcs@.len() ==> (#[trigger] funcs@[j]@) == builtin_names()[j],
            text@ == "funcs:\n"@ + joined(builtin_names().subrange(0, i as int)),
        decreases funcs@.len() - i,
    {
        text.append(funcs[i].as_str());
        text.push('\n');
        proof {
            assert(builtin_names().subrange(0, i as int + 1).drop_last() =~= builtin_names()
                .subrange(0, i as int));
            assert(text@ =~= "funcs:\n"@ + joined(builtin_names().subrange(0, i as int + 1)));
        }
        i += 1;
    }
    proof {
        assert(builtin_names().subrange(0, builtin_names().len() as int) =~= builtin_names());
    }
    text.append(";\n");
    text.append("vars:\n");
    let ghost mid = "funcs:\n"@ + joined(builtin_names()) + ";\n"@ + "vars:\n"@;
    proof {
        assert(text@ =~= mid);
    }
    let vs = get_variables(env);
    let mut k: usize = 0;
    while k < vs.len()
        invariant
            k <= vs@.len(),
            vs@.map_values(|p: (String, crate::dwn::Variable)| (p.0@, p.1@)) == env.entries(),
            text@ == mid + joined(entry_names(*env).subrange(0, k as int)),
        decreases vs@.len() - k,
    {
        text.append(vs[k].0.as_str());
        text.push('\n');
        proof {
            assert(entry_names(*env)[k as int] == vs@[k as int].0@);
            assert(entry_names(*env).subrange(0, k as int + 1).drop_last() =~= entry_names(
                *env,
            ).subrange(0, k as int));
            assert(text@ =~= mid + joined(entry_names(*env).subrange(0, k as int + 1)));
        }
        k += 1;
    }
    proof {
        assert(entry_names(*env).subrange(0, entry_names(*env).len() as int) =~= entry_names(
            *env,
        ));
    }
    text.append(";\n");
    text.append("keywordOther:\n");
    text.append("let\n");
    text.append(";\n");
    proof {
        assert(text@ =~= "funcs:\n"@ + joined(builtin_names()) + ";\n"@ + "vars:\n"@ + joined(
            entry_names(*env),
        ) + ";\n"@ + "keywordOther:\n"@ + "let\n"@ + ";\n"@);
    }
    text
}

} // verus!
