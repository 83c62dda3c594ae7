use vstd::prelude::*;

use crate::errors::Error;
use crate::scope::Scope;

verus! {

/// Outcome of fully expanding a string against a variable scope,
/// stated over character sequences.
pub enum Expansion {
    /// Expansion finished with this result.
    Expanded(Seq<char>),
    /// A referenced variable name was not present in the scope.
    Undefined(Seq<char>),
    /// The pass bound was exceeded.
    Circular,
}

/// Expansion rescans its intermediate result at most this many times.
pub const MAX_PASSES: usize = 10;

/// Does `s` contain a `${` token start anywhere?
pub open spec fn contains_ref(s: Seq<char>) -> bool {
    exists|i: int| 0 <= i && i + 1 < s.len() && #[trigger] s[i] == '$' && s[i + 1] == '{'
}

/// Index of the first `}` at or after `i`, or `s.len()` if there is none.
pub open spec fn find_close(s: Seq<char>, i: int) -> int
    decreases s.len() - i when 0 <= i <= s.len()
{
    if i >= s.len() {
        s.len() as int
    } else if s[i] == '}' {
        i
    } else {
        find_close(s, i + 1)
    }
}

pub proof fn lemma_find_close_bounds(s: Seq<char>, i: int)
    requires
        0 <= i <= s.len(),
    ensures
        i <= find_close(s, i) <= s.len(),
        find_close(s, i) < s.len() ==> s[find_close(s, i)] == '}',
        forall|j: int| i <= j && j < find_close(s, i) ==> s[j] != '}',
    decreases s.len() - i,
{
    if i < s.len() && s[i] != '}' {
        lemma_find_close_bounds(s, i + 1);
    }
}

proof fn lemma_find_close_skip(s: Seq<char>, i: int, j: int)
    requires
        0 <= i <= j <= s.len(),
        forall|k: int| i <= k && k < j ==> s[k] != '}',
    ensures
        find_close(s, i) == find_close(s, j),
    decreases j - i,
{
    if i < j {
        lemma_find_close_skip(s, i + 1, j);
    }
}

/// One left-to-right pass: every `${name}` token is replaced by the
/// scope's value for `name`; the first undefined name is the error.
/// The boolean reports whether any replacement happened.
pub open spec fn spec_pass(s: Seq<char>, m: Map<Seq<char>, Seq<char>>) -> Result<
    (Seq<char>, bool),
    Seq<char>,
>
    decreases s.len()
    via spec_pass_decreases
{
    if s.len() >= 2 && s[0] == '$' && s[1] == '{' {
        let close = find_close(s, 2);
        let name = s.subrange(2, close);
        let rest = if close >= s.len() {
            Seq::<char>::empty()
        } else {
            s.subrange(close + 1, s.len() as int)
        };
        if m.contains_key(name) {
            match spec_pass(rest, m) {
                Ok(p) => Ok((m[name] + p.0, true)),
                Err(e) => Err(e),
            }
        } else {
            Err(name)
        }
    } else if s.len() == 0 {
        Ok((s, false))
    } else {
        match spec_pass(s.skip(1), m) {
            Ok(p) => Ok((seq![s[0]] + p.0, p.1)),
            Err(e) => Err(e),
        }
    }
}

#[via_fn]
proof fn spec_pass_decreases(s: Seq<char>, m: Map<Seq<char>, Seq<char>>) {
    if s.len() >= 2 && s[0] == '$' && s[1] == '{' {
        lemma_find_close_bounds(s, 2);
    }
}

/// Full expansion: rescan until no `${` remains, at most `MAX_PASSES` passes.
pub open spec fn spec_expand_from(
    s: Seq<char>,
    m: Map<Seq<char>, Seq<char>>,
    passes: nat,
) -> Expansion
    decreases MAX_PASSES - passes when passes <= MAX_PASSES
{
    if !contains_ref(s) {
        Expansion::Expanded(s)
    } else if passes >= MAX_PASSES {
        Expansion::Circular
    } else {
        match spec_pass(s, m) {
            Err(name) => Expansion::Undefined(name),
            Ok(p) => if !p.1 {
                Expansion::Expanded(p.0)
            } else {
                spec_expand_from(p.0, m, passes + 1)
            },
        }
    }
}

/// What expanding `s` against scope `m` yields.
pub open spec fn spec_expand(s: Seq<char>, m: Map<Seq<char>, Seq<char>>) -> Expansion {
    spec_expand_from(s, m, 0)
}

/// Executable check for a `${` occurrence.
pub fn has_ref(s: &str) -> (r: bool)
    ensures
        r == contains_ref(s@),
{
    let n = s.unicode_len();
    if n < 2 {
        return false;
    }
    let mut i: usize = 0;
    while i + 1 < n
        invariant
            n == s@.len(),
            i + 1 <= n,
            forall|j: int| 0 <= j && j < i ==> !(#[trigger] s@[j] == '$' && s@[j + 1] == '{'),
        decreases n - i,
    {
        if s.get_char(i) == '$' && s.get_char(i + 1) == '{' {
            return true;
        }
        i = i + 1;
    }
    false
}

fn find_close_exec(s: &str) -> (r: usize)
    requires
        s@.len() >= 2,
    ensures
        r == find_close(s@, 2),
        2 <= r <= s@.len(),
{
    let n = s.unicode_len();
    let mut i: usize = 2;
    while i < n
        invariant
            2 <= i <= n,
            n == s@.len(),
            forall|j: int| 2 <= j && j < i ==> s@[j] != '}',
        decreases n - i,
    {
        if s.get_char(i) == '}' {
            proof {
                lemma_find_close_skip(s@, 2, i as int);
            }
            return i;
        }
        i = i + 1;
    }
    proof {
        lemma_find_close_skip(s@, 2, n as int);
    }
    n
}

/// One executable replacement pass over `s`.
pub fn expand_pass(s: &str, scope: &Scope) -> (r: Result<(String, bool), String>)
    ensures
        match r {
            Ok(p) => spec_pass(s@, scope@) == Ok::<(Seq<char>, bool), Seq<char>>((p.0@, p.1)),
            Err(name) => spec_pass(s@, scope@) == Err::<(Seq<char>, bool), Seq<char>>(name@),
        },
    decreases s@.len(),
{
    let n = s.unicode_len();
    if n >= 2 && s.get_char(0) == '$' && s.get_char(1) == '{' {
        let close = find_close_exec(s);
        let name = s.substring_char(2, close);
        let rest_start = if close >= n {
            n
        } else {
            close + 1
        };
        let rest = s.substring_char(rest_start, n);
        proof {
            lemma_find_close_bounds(s@, 2);
            if close >= n {
                assert(rest@ =~= Seq::<char>::empty());
            }
        }
        match scope.get(name) {
            Some(v) => {
                match expand_pass(rest, scope) {
                    Ok(p) => {
                        let combined = v.clone().concat(p.0.as_str());
                        Ok((combined, true))
                    },
                    Err(e) => Err(e),
                }
            },
            None => Err(String::from_str(name)),
        }
    } else if n == 0 {
        proof {
            assert(s@ =~= Seq::<char>::empty());
        }
        Ok((String::new(), false))
    } else {
        let head = s.substring_char(0, 1);
        let rest = s.substring_char(1, n);
        match expand_pass(rest, scope) {
            Ok(p) => {
                let mut out = String::from_str(head);
                out.append(p.0.as_str());
                proof {
                    assert(out@ =~= seq![s@[0]] + p.0@);
                }
                Ok((out, p.1))
            },
            Err(e) => Err(e),
        }
    }
}

/// Expand `${name}` references in `s` against `scope`, rescanning the
/// result until it settles, at most `MAX_PASSES` times.
pub fn expand_str(s: &str, scope: &Scope) -> (r: Result<String, Error>)
    ensures
        match r {
            Ok(out) => spec_expand(s@, scope@) == Expansion::Expanded(out@),
            Err(Error::UndefinedVariable(n)) => spec_expand(s@, scope@) == Expansion::Undefined(
                n@,
            ),
            Err(Error::CircularVariableReference) => spec_expand(s@, scope@)
                == Expansion::Circular,
            Err(_) => false,
        },
{
    let mut cur = String::from_str(s);
    let mut passes: usize = 0;
    loop
        invariant
            passes <= MAX_PASSES,
            spec_expand(s@, scope@) == spec_expand_from(cur@, scope@, passes as nat),
        decreases MAX_PASSES - passes,
    {
        if !has_ref(cur.as_str()) {
            return Ok(cur);
        }
        if passes >= MAX_PASSES {
            return Err(Error::CircularVariableReference);
        }
        match expand_pass(cur.as_str(), scope) {
            Err(name) => {
                return Err(Error::UndefinedVariable(name));
            },
            Ok(p) => {
                if !p.1 {
                    return Ok(p.0);
                }
                cur = p.0;
                passes = passes + 1;
            },
        }
    }
}

/// A pass that replaced nothing found no token at all: its output is its
/// input, which holds no `${`.
proof fn lemma_pass_unchanged(s: Seq<char>, m: Map<Seq<char>, Seq<char>>)
    ensures
        forall|t: Seq<char>|
            spec_pass(s, m) == Ok::<(Seq<char>, bool), Seq<char>>((t, false)) ==> t == s
                && !contains_ref(s),
    decreases s.len(),
{
    if s.len() >= 2 && s[0] == '$' && s[1] == '{' {
        // any Ok here carries `true`
    } else if s.len() == 0 {
        assert(!contains_ref(s));
    } else {
        lemma_pass_unchanged(s.skip(1), m);
        assert forall|t: Seq<char>|
            spec_pass(s, m) == Ok::<(Seq<char>, bool), Seq<char>>((t, false)) implies t == s
            && !contains_ref(s) by {
            match spec_pass(s.skip(1), m) {
                Ok(p) => {
                    if !p.1 {
                        assert(p.0 == s.skip(1));
                        assert(seq![s[0]] + s.skip(1) =~= s);
                        assert(!contains_ref(s.skip(1)));
                        assert forall|i: int|
                            0 <= i && i + 1 < s.len() implies !(#[trigger] s[i] == '$' && s[i + 1] == '{') by {
                            if i == 0 {
                                // the token branch above was not taken
                            } else {
                                assert(s.skip(1)[i - 1] == s[i]);
                                assert(s.skip(1)[i] == s[i + 1]);
                            }
                        }
                    }
                },
                Err(_) => {},
            }
        }
    }
}

/// A successful expansion leaves no `${` behind.
proof fn lemma_expand_result_ref_free(s: Seq<char>, m: Map<Seq<char>, Seq<char>>, passes: nat)
    requires
        passes <= MAX_PASSES,
    ensures
        forall|t: Seq<char>|
            spec_expand_from(s, m, passes) == Expansion::Expanded(t) ==> !contains_ref(t),
    decreases MAX_PASSES - passes,
{
    if !contains_ref(s) {
    } else if passes >= MAX_PASSES {
    } else {
        match spec_pass(s, m) {
            Err(_) => {},
            Ok(p) => {
                if !p.1 {
                    lemma_pass_unchanged(s, m);
                } else {
                    lemma_expand_result_ref_free(p.0, m, passes + 1);
                }
            },
        }
    }
}

/// Expansion is the identity on strings holding no `${`, and a successful
/// expansion yields such a string; expanding twice therefore equals
/// expanding once.
pub proof fn lemma_expand_idempotent(s: Seq<char>, m: Map<Seq<char>, Seq<char>>)
    ensures
        !contains_ref(s) ==> spec_expand(s, m) == Expansion::Expanded(s),
        forall|t: Seq<char>|
            spec_expand(s, m) == Expansion::Expanded(t) ==> spec_expand(t, m)
                == Expansion::Expanded(t),
{
    lemma_expand_result_ref_free(s, m, 0);
}

/// A value that cannot take part in any reference: nonempty, and free of
/// the `$` and `{` characters.
pub open spec fn plain_value(v: Seq<char>) -> bool {
    v.len() > 0 && forall|i: int| 0 <= i && i < v.len() ==> v[i] != '$' && v[i] != '{'
}

/// Under a scope of plain values, one pass erases every `${` and splices
/// no new one in, and the pass output starts with `{` only if the input did.
proof fn lemma_pass_plain(s: Seq<char>, m: Map<Seq<char>, Seq<char>>)
    requires
        forall|k: Seq<char>| m.contains_key(k) ==> plain_value(#[trigger] m[k]),
    ensures
        forall|t: Seq<char>, ch: bool|
            spec_pass(s, m) == Ok::<(Seq<char>, bool), Seq<char>>((t, ch)) ==> !contains_ref(t) && (
            t.len() > 0 && t[0] == '{' ==> s.len() > 0 && s[0] == '{'),
    decreases s.len(),
{
    if s.len() >= 2 && s[0] == '$' && s[1] == '{' {
        lemma_find_close_bounds(s, 2);
        let close = find_close(s, 2);
        let name = s.subrange(2, close);
        let rest = if close >= s.len() {
            Seq::<char>::empty()
        } else {
            s.subrange(close + 1, s.len() as int)
        };
        if m.contains_key(name) {
            lemma_pass_plain(rest, m);
            match spec_pass(rest, m) {
                Ok(p) => {
                    let v = m[name];
                    let t = v + p.0;
                    assert(plain_value(v));
                    assert forall|i: int|
                        0 <= i && i + 1 < t.len() implies !(#[trigger] t[i] == '$' && t[i + 1] == '{') by {
                        if i + 1 < v.len() {
                            assert(t[i] == v[i]);
                        } else if i < v.len() {
                            assert(t[i] == v[i]);
                        } else {
                            assert(t[i] == p.0[i - v.len()]);
                            assert(t[i + 1] == p.0[i + 1 - v.len()]);
                            assert(!contains_ref(p.0));
                        }
                    }
                    assert(t[0] == v[0] && v[0] != '{');
                },
                Err(_) => {},
            }
        }
    } else if s.len() == 0 {
    } else {
        lemma_pass_plain(s.skip(1), m);
        assert forall|t: Seq<char>, ch: bool|
            spec_pass(s, m) == Ok::<(Seq<char>, bool), Seq<char>>((t, ch)) implies !contains_ref(t)
            && (t.len() > 0 && t[0] == '{' ==> s.len() > 0 && s[0] == '{') by {
            match spec_pass(s.skip(1), m) {
                Ok(p) => {
                    assert(t == seq![s[0]] + p.0);
                    assert(t[0] == s[0]);
                    assert forall|i: int|
                        0 <= i && i + 1 < t.len() implies !(#[trigger] t[i] == '$' && t[i + 1] == '{') by {
                        if i == 0 {
                            if t.len() > 1 && t[0] == '$' && t[1] == '{' {
                                assert(p.0[0] == '{');
                                // p.0 starts with `{`, so skip(1) does too
                                if s.len() == 1 {
                                    assert(s.skip(1).len() == 0);
                                    assert(p.0 == s.skip(1));
                                    assert(false);
                                } else {
                                    assert(s.skip(1)[0] == s[1]);
                                    assert(s[1] == '{');
                                    // but then the token branch would have run
                                    assert(false);
                                }
                            }
                        } else {
                            assert(t[i] == p.0[i - 1]);
                            assert(t[i + 1] == p.0[i]);
                            assert(!contains_ref(p.0));
                        }
                    }
                },
                Err(_) => {},
            }
        }
    }
}

/// Under a scope whose values are plain (so the reference graph is
/// trivially acyclic and no replacement can splice a new token together),
/// expansion never exceeds the pass bound: it settles after at most one
/// replacement pass, with either a result or an undefined name.
pub proof fn lemma_plain_scope_never_circular(s: Seq<char>, m: Map<Seq<char>, Seq<char>>)
    requires
        forall|k: Seq<char>| m.contains_key(k) ==> plain_value(#[trigger] m[k]),
    ensures
        spec_expand(s, m) != Expansion::Circular,
{
    if contains_ref(s) {
        lemma_pass_plain(s, m);
        match spec_pass(s, m) {
            Err(name) => {
                assert(spec_expand_from(s, m, 0) == Expansion::Undefined(name));
            },
            Ok(p) => {
                assert(!contains_ref(p.0));
                if p.1 {
                    assert(spec_expand_from(p.0, m, 1) == Expansion::Expanded(p.0));
                    assert(spec_expand_from(s, m, 0) == Expansion::Expanded(p.0));
                } else {
                    assert(spec_expand_from(s, m, 0) == Expansion::Expanded(p.0));
                }
            },
        }
    } else {
        assert(spec_expand_from(s, m, 0) == Expansion::Expanded(s));
    }
}

} // verus!
