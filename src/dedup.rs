//! Collapsing repeated library flags, keeping the last occurrence of each.

use vstd::prelude::*;
use crate::text::{has_prefix, starts_with, token_views};

verus! {

/// A token that asks the linker for a library (`-l...`).
pub open spec fn is_lib_flag(t: Seq<char>) -> bool {
    has_prefix(t, seq!['-', 'l'])
}

/// `s` with every library flag dropped that has an equal token later on.
pub open spec fn collapse(s: Seq<Seq<char>>) -> Seq<Seq<char>>
    decreases s.len(),
{
    if s.len() == 0 {
        Seq::empty()
    } else {
        let rest = collapse(s.drop_first());
        if is_lib_flag(s[0]) && s.drop_first().contains(s[0]) {
            rest
        } else {
            seq![s[0]] + rest
        }
    }
}

/// No library flag in `s` is followed by an equal token.
pub open spec fn is_collapsed(s: Seq<Seq<char>>) -> bool {
    forall|i: int, j: int|
        0 <= i < j < s.len() && is_lib_flag(#[trigger] s[i]) ==> s[i] != #[trigger] s[j]
}

/// Collapsing keeps every distinct token: a token occurs in the result exactly
/// when it occurs in the input.
pub proof fn lemma_collapse_members(s: Seq<Seq<char>>)
    ensures
        forall|x: Seq<char>| collapse(s).contains(x) <==> s.contains(x),
    decreases s.len(),
{
    if s.len() > 0 {
        let t = s.drop_first();
        lemma_collapse_members(t);
        assert(s =~= seq![s[0]] + t);
        assert forall|x: Seq<char>| s.contains(x) <==> (x == s[0] || t.contains(x)) by {
            if s.contains(x) {
                let k = choose|k: int| 0 <= k < s.len() && s[k] == x;
                if k > 0 {
                    assert(t[k - 1] == x);
                }
            }
            if t.contains(x) {
                let k = choose|k: int| 0 <= k < t.len() && t[k] == x;
                assert(s[k + 1] == x);
            }
            if x == s[0] {
                assert(s[0] == x);
            }
        }
        let rest = collapse(t);
        if !(is_lib_flag(s[0]) && t.contains(s[0])) {
            let r = seq![s[0]] + rest;
            assert forall|x: Seq<char>| r.contains(x) <==> (x == s[0] || rest.contains(x)) by {
                if r.contains(x) {
                    let k = choose|k: int| 0 <= k < r.len() && r[k] == x;
                    if k > 0 {
                        assert(rest[k - 1] == x);
                    }
                }
                if rest.contains(x) {
                    let k = choose|k: int| 0 <= k < rest.len() && rest[k] == x;
                    assert(r[k + 1] == x);
                }
                if x == s[0] {
                    assert(r[0] == x);
                }
            }
        }
    }
}

/// The result of collapsing has no library flag followed by an equal token.
pub proof fn lemma_collapse_is_collapsed(s: Seq<Seq<char>>)
    ensures
        is_collapsed(collapse(s)),
    decreases s.len(),
{
    if s.len() > 0 {
        let t = s.drop_first();
        lemma_collapse_is_collapsed(t);
        lemma_collapse_members(t);
        let rest = collapse(t);
        if !(is_lib_flag(s[0]) && t.contains(s[0])) {
            let r = seq![s[0]] + rest;
            assert forall|i: int, j: int|
                0 <= i < j < r.len() && is_lib_flag(#[trigger] r[i]) implies r[i] != #[trigger] r[j] by {
                if i == 0 {
                    assert(r[j] == rest[j - 1]);
                    if r[i] == r[j] {
                        assert(rest.contains(rest[j - 1]));
                    }
                } else {
                    assert(r[i] == rest[i - 1] && r[j] == rest[j - 1]);
                }
            }
        }
    }
}

/// Collapsing a list that has no repeated library flag leaves it as it is.
pub proof fn lemma_collapse_fixed(s: Seq<Seq<char>>)
    requires
        is_collapsed(s),
    ensures
        collapse(s) == s,
    decreases s.len(),
{
    if s.len() > 0 {
        let t = s.drop_first();
        assert forall|i: int, j: int|
            0 <= i < j < t.len() && is_lib_flag(#[trigger] t[i]) implies t[i] != #[trigger] t[j] by {
            assert(t[i] == s[i + 1] && t[j] == s[j + 1]);
        }
        lemma_collapse_fixed(t);
        if is_lib_flag(s[0]) && t.contains(s[0]) {
            let k = choose|k: int| 0 <= k < t.len() && t[k] == s[0];
            assert(s[k + 1] == s[0]);
        }
        assert(s =~= seq![s[0]] + t);
    }
}

/// Collapsing twice gives what collapsing once gives.
pub proof fn lemma_collapse_idempotent(s: Seq<Seq<char>>)
    ensures
        collapse(collapse(s)) == collapse(s),
{
    lemma_collapse_is_collapsed(s);
    lemma_collapse_fixed(collapse(s));
}

/// Whether `t` is one of the tokens of `v`.
pub fn contains_token(v: &Vec<String>, t: &String) -> (r: bool)
    ensures
        r == token_views(v@).contains(t@),
{
    let mut k: usize = 0;
    while k < v.len()
        invariant
            k <= v@.len(),
            forall|j: int| 0 <= j < k ==> v@[j]@ != t@,
        decreases v@.len() - k,
    {
        if v[k] == *t {
            assert(token_views(v@)[k as int] == t@);
            return true;
        }
        k = k + 1;
    }
    assert(!token_views(v@).contains(t@)) by {
        if token_views(v@).contains(t@) {
            let j = choose|j: int| 0 <= j < token_views(v@).len() && token_views(v@)[j] == t@;
            assert(v@[j]@ == t@);
        }
    }
    false
}

/// Drops each library flag (`-l...`) that has an equal token later in `args`,
/// so that only the last occurrence of each distinct library flag remains.
/// Other tokens stay, in their order.
pub fn remove_duplicate_libs(args: Vec<String>) -> (r: Vec<String>)
    ensures
        token_views(r@) == collapse(token_views(args@)),
{
    let ghost s = token_views(args@);
    let ghost n = s.len();
    let mut rest = args;
    let mut out: Vec<String> = Vec::new();
    proof {
        assert(token_views(rest@) =~= s.subrange(0, n as int));
        assert(s.subrange(n as int, n as int) =~= Seq::<Seq<char>>::empty());
    }
    while rest.len() > 0
        invariant
            n == s.len(),
            rest@.len() <= n,
            token_views(rest@) == s.subrange(0, rest@.len() as int),
            token_views(out@) == collapse(s.subrange(rest@.len() as int, n as int)),
        decreases rest@.len(),
    {
        let ghost i = (rest@.len() - 1) as int;
        let ghost old_rest = rest@;
        proof {
            assert(token_views(old_rest)[i] == s.subrange(0, i + 1)[i]);
        }
        let tok = rest.pop().unwrap();
        let ghost t = s.subrange(i, n as int);
        proof {
            assert(tok == old_rest[i]);
            assert(token_views(rest@) =~= s.subrange(0, i));
            assert(tok@ == s[i]);
            assert(t.drop_first() =~= s.subrange(i + 1, n as int));
            assert(t[0] == tok@);
            lemma_collapse_members(t.drop_first());
            reveal_strlit("-l");
            assert("-l"@ =~= seq!['-', 'l']);
            assert(collapse(t) == if is_lib_flag(t[0]) && t.drop_first().contains(t[0]) {
                collapse(t.drop_first())
            } else {
                seq![t[0]] + collapse(t.drop_first())
            });
        }
        let lib = starts_with(tok.as_str(), "-l");
        let dup = lib && contains_token(&out, &tok);
        if !dup {
            let ghost before = out@;
            out.insert(0, tok);
            proof {
                assert(token_views(out@) =~= seq![tok@] + token_views(before));
            }
        }
        assert(token_views(out@) == collapse(t));
    }
    proof {
        assert(s.subrange(0, n as int) =~= s);
    }
    out
}

/// The arguments collapsed where collapsing was asked for, and as they are
/// otherwise.
pub fn collapse_if_requested(args: Vec<String>, requested: bool) -> (r: Vec<String>)
    ensures
        requested ==> token_views(r@) == collapse(token_views(args@)),
        !requested ==> r@ == args@,
{
    if requested {
        remove_duplicate_libs(args)
    } else {
        args
    }
}

} // verus!
