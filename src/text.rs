//! Small operations on text.

use vstd::prelude::*;
use vstd::string::StrSliceExecFns;

verus! {

/// Whether two strings hold the same characters.
pub fn str_eq(a: &str, b: &str) -> (r: bool)
    ensures
        r == (a@ == b@),
{
    let n = a.unicode_len();
    if n != b.unicode_len() {
        return false;
    }
    let mut i: usize = 0;
    while i < n
        invariant
            n == a@.len(),
            n == b@.len(),
            i <= n,
            forall|k: int| 0 <= k < i ==> a@[k] == b@[k],
        decreases n - i,
    {
        if a.get_char(i) != b.get_char(i) {
            return false;
        }
        i = i + 1;
    }
    assert(a@ =~= b@);
    true
}

/// The position of the first `c` in `s`, if any.
pub open spec fn first_index_of(s: Seq<char>, c: char) -> Option<int> {
    if exists|i: int| 0 <= i < s.len() && s[i] == c {
        Some(choose|i: int| 0 <= i < s.len() && s[i] == c && forall|k: int| 0 <= k < i ==> s[k] != c)
    } else {
        None
    }
}

/// The position of the first `c` in `s`, if any.
pub fn find_char(s: &str, c: char) -> (r: Option<usize>)
    ensures
        match r {
            Some(i) => i < s@.len() && s@[i as int] == c && forall|k: int| 0 <= k < i ==> s@[k] != c,
            None => forall|k: int| 0 <= k < s@.len() ==> s@[k] != c,
        },
        r matches Some(i) ==> first_index_of(s@, c) == Some(i as int),
        r is None ==> first_index_of(s@, c) is None,
{
    let n = s.unicode_len();
    let mut i: usize = 0;
    while i < n
        invariant
            n == s@.len(),
            i <= n,
            forall|k: int| 0 <= k < i ==> s@[k] != c,
        decreases n - i,
    {
        if s.get_char(i) == c {
            proof {
                let j = choose|j: int| 0 <= j < s@.len() && s@[j] == c && forall|k: int| 0 <= k < j ==> s@[k] != c;
                if j < i {
                } else if j > i {
                    assert(s@[i as int] == c);
                }
            }
            return Some(i);
        }
        i = i + 1;
    }
    None
}

/// The name and, after the first `=`, the value of an environment variable
/// written as `NAME` or `NAME=VALUE`.
pub open spec fn env_var_spec(s: Seq<char>) -> (Seq<char>, Option<Seq<char>>) {
    match first_index_of(s, '=') {
        None => (s, None),
        Some(i) => (s.subrange(0, i), Some(s.subrange(i + 1, s.len() as int))),
    }
}

/// Splits `NAME=VALUE` at the first `=`; a bare `NAME` has no value.
pub fn parse_env_var(s: &str) -> (r: (String, Option<String>))
    ensures
        r.0@ == env_var_spec(s@).0,
        match r.1 {
            Some(v) => env_var_spec(s@).1 == Some(v@),
            None => env_var_spec(s@).1 is None,
        },
{
    match find_char(s, '=') {
        None => {
            let n = s.unicode_len();
            (s.substring_char(0, n).to_owned(), None)
        },
        Some(pos) => {
            let n = s.unicode_len();
            let name = s.substring_char(0, pos).to_owned();
            let value = s.substring_char(pos + 1, n).to_owned();
            (name, Some(value))
        },
    }
}

/// The value of variable `i`: the one it declares, else the one found in
/// the environment (`lookups[i]`); `None` when it has neither.
pub open spec fn resolve_spec(vars: Seq<(String, Option<String>)>, lookups: Seq<Option<String>>, i: int) -> Option<String> {
    match vars[i].1 {
        Some(v) => Some(v),
        None => lookups[i],
    }
}

/// The value of each variable: its declared one, else the one looked up in
/// the environment. Fails with the name of the first variable that has
/// neither.
pub fn resolve_env_vars(vars: &Vec<(String, Option<String>)>, lookups: &Vec<Option<String>>) -> (r: Result<
    Vec<(String, String)>,
    String,
>)
    requires
        lookups@.len() == vars@.len(),
    ensures
        r matches Ok(v) ==> v@.len() == vars@.len() && forall|i: int|
            0 <= i < v@.len() ==> (#[trigger] v@[i]).0 == vars@[i].0 && resolve_spec(vars@, lookups@, i)
                == Some(v@[i].1),
        r matches Err(name) ==> exists|i: int|
            0 <= i < vars@.len() && resolve_spec(vars@, lookups@, i) is None && (#[trigger] vars@[i]).0 == name
                && forall|k: int| 0 <= k < i ==> resolve_spec(vars@, lookups@, k) is Some,
        r is Ok <==> forall|i: int| 0 <= i < vars@.len() ==> resolve_spec(vars@, lookups@, i) is Some,
{
    let mut out: Vec<(String, String)> = Vec::new();
    let mut i: usize = 0;
    while i < vars.len()
        invariant
            lookups@.len() == vars@.len(),
            i <= vars@.len(),
            out@.len() == i,
            forall|k: int|
                0 <= k < i ==> (#[trigger] out@[k]).0 == vars@[k].0 && resolve_spec(vars@, lookups@, k) == Some(
                    out@[k].1,
                ),
        decreases vars@.len() - i,
    {
        let value = match &vars[i].1 {
            Some(v) => v.clone(),
            None => match &lookups[i] {
                Some(v) => v.clone(),
                None => {
                    assert(resolve_spec(vars@, lookups@, i as int) is None);
                    assert forall|k: int| 0 <= k < i implies resolve_spec(vars@, lookups@, k) is Some by {
                        assert(out@[k].0 == vars@[k].0);
                    }
                    return Err(vars[i].0.clone());
                },
            },
        };
        out.push((vars[i].0.clone(), value));
        i = i + 1;
    }
    assert forall|k: int| 0 <= k < vars@.len() implies resolve_spec(vars@, lookups@, k) is Some by {
        assert(out@[k].0 == vars@[k].0);
    }
    Ok(out)
}

} // verus!
