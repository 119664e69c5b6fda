//! Taking the proxy's own control flags out of the linker arguments.

use vstd::prelude::*;
use vstd::string::*;
use crate::text::{has_prefix, same_text, starts_with, string_of, token_views};

verus! {

/// Names the real linker; takes a value.
pub const LINKER_FLAG: &'static str = "--ldproxy-linker";

/// The real linker, with its value in the same token.
pub const LINKER_FLAG_EQ: &'static str = "--ldproxy-linker=";

/// Asks for repeated library flags to be collapsed; takes no value.
pub const DEDUP_LIBS_FLAG: &'static str = "--ldproxy-dedup-libs";

/// Names the directory to run the linker in; takes a value.
pub const CWD_FLAG: &'static str = "--ldproxy-cwd";

/// The working directory, with its value in the same token.
pub const CWD_FLAG_EQ: &'static str = "--ldproxy-cwd=";

/// What extraction yields: the remaining tokens, the linker, whether
/// collapsing was asked for, and the working directory.
pub type Extraction = (Seq<Seq<char>>, Option<Seq<char>>, bool, Option<Seq<char>>);

/// The value given later wins over the one given earlier.
pub open spec fn later(earlier: Option<Seq<char>>, latest: Option<Seq<char>>) -> Option<Seq<char>> {
    if latest is Some {
        latest
    } else {
        earlier
    }
}

/// The effect of a prefix of the tokens followed by the effect of the rest.
pub open spec fn combine(p: Extraction, r: Extraction) -> Extraction {
    (p.0 + r.0, later(p.1, r.1), p.2 || r.2, later(p.3, r.3))
}

/// A token is one of the proxy's control flags, in either form.
pub open spec fn is_control_token(a: Seq<char>) -> bool {
    a == LINKER_FLAG@ || a == CWD_FLAG@ || a == DEDUP_LIBS_FLAG@ || has_prefix(a, LINKER_FLAG_EQ@)
        || has_prefix(a, CWD_FLAG_EQ@)
}

/// The token after index `i`, if there is one.
pub open spec fn next_value(s: Seq<Seq<char>>, i: int) -> Option<Seq<char>> {
    if i + 1 < s.len() {
        Some(s[i + 1])
    } else {
        None
    }
}

/// How many tokens the scan consumes at index `i`: a flag that takes a value
/// as the next token consumes that token too.
pub open spec fn step_len(s: Seq<Seq<char>>, i: int) -> int {
    if (s[i] == LINKER_FLAG@ || s[i] == CWD_FLAG@) && i + 1 < s.len() {
        2
    } else {
        1
    }
}

/// The effect of the token at index `i` (with its value, if it has one).
pub open spec fn step_effect(s: Seq<Seq<char>>, i: int) -> Extraction {
    let a = s[i];
    let none = Seq::<Seq<char>>::empty();
    if a == LINKER_FLAG@ {
        (none, next_value(s, i), false, None)
    } else if a == CWD_FLAG@ {
        (none, None, false, next_value(s, i))
    } else if a == DEDUP_LIBS_FLAG@ {
        (none, None, true, None)
    } else if has_prefix(a, LINKER_FLAG_EQ@) {
        (none, Some(a.subrange(LINKER_FLAG_EQ@.len() as int, a.len() as int)), false, None)
    } else if has_prefix(a, CWD_FLAG_EQ@) {
        (none, None, false, Some(a.subrange(CWD_FLAG_EQ@.len() as int, a.len() as int)))
    } else {
        (seq![a], None, false, None)
    }
}

/// Scanning the tokens from index `i` on.
pub open spec fn extract_from(s: Seq<Seq<char>>, i: int) -> Extraction
    decreases s.len() - i,
{
    if i < 0 || i >= s.len() {
        (Seq::empty(), None, false, None)
    } else {
        combine(step_effect(s, i), extract_from(s, i + step_len(s, i)))
    }
}

/// Scanning all the tokens.
pub open spec fn extract(s: Seq<Seq<char>>) -> Extraction {
    extract_from(s, 0)
}

/// The characters of an optional string.
pub open spec fn opt_view(o: Option<String>) -> Option<Seq<char>> {
    match o {
        Some(s) => Some(s@),
        None => None,
    }
}

/// The proxy's control values.
pub struct ControlFlags {
    /// The last value given for the linker flag.
    pub linker: Option<String>,
    /// Whether the collapsing flag was given.
    pub dedup_libs: bool,
    /// The last value given for the working-directory flag.
    pub cwd: Option<String>,
}

proof fn lemma_combine_assoc(a: Extraction, b: Extraction, c: Extraction)
    ensures
        combine(a, combine(b, c)) == combine(combine(a, b), c),
{
    assert(a.0 + (b.0 + c.0) =~= (a.0 + b.0) + c.0);
}

proof fn lemma_rest_clean_from(s: Seq<Seq<char>>, i: int)
    ensures
        forall|k: int|
            0 <= k < extract_from(s, i).0.len() ==> !is_control_token(#[trigger] extract_from(s, i).0[k]),
    decreases s.len() - i,
{
    if 0 <= i < s.len() {
        let j = i + step_len(s, i);
        lemma_rest_clean_from(s, j);
        let e = step_effect(s, i);
        let r = extract_from(s, j);
        assert(extract_from(s, i).0 == e.0 + r.0);
        assert forall|k: int| 0 <= k < e.0.len() implies !is_control_token(#[trigger] e.0[k]) by {
            assert(e.0 == seq![s[i]]);
        }
        assert forall|k: int| 0 <= k < (e.0 + r.0).len() implies !is_control_token(#[trigger] (e.0 + r.0)[k]) by {
            if k >= e.0.len() {
                assert((e.0 + r.0)[k] == r.0[k - e.0.len()]);
            }
        }
    }
}

/// After extraction no control flag is left among the tokens.
pub proof fn lemma_extract_leaves_no_flag(s: Seq<Seq<char>>)
    ensures
        forall|k: int| 0 <= k < extract(s).0.len() ==> !is_control_token(#[trigger] extract(s).0[k]),
{
    lemma_rest_clean_from(s, 0);
}

proof fn lemma_passthrough_from(s: Seq<Seq<char>>, i: int)
    requires
        0 <= i <= s.len(),
        forall|k: int| 0 <= k < s.len() ==> !is_control_token(#[trigger] s[k]),
    ensures
        extract_from(s, i) == (s.subrange(i, s.len() as int), None::<Seq<char>>, false, None::<Seq<char>>),
    decreases s.len() - i,
{
    if i < s.len() {
        assert(!is_control_token(s[i]));
        lemma_passthrough_from(s, i + 1);
        assert(seq![s[i]] + s.subrange(i + 1, s.len() as int) =~= s.subrange(i, s.len() as int));
    } else {
        assert(s.subrange(i, s.len() as int) =~= Seq::<Seq<char>>::empty());
    }
}

/// Tokens among which no control flag stands pass through extraction
/// unchanged, and no control value is found.
pub proof fn lemma_extract_passthrough(s: Seq<Seq<char>>)
    requires
        forall|k: int| 0 <= k < s.len() ==> !is_control_token(#[trigger] s[k]),
    ensures
        extract(s) == (s, None::<Seq<char>>, false, None::<Seq<char>>),
{
    lemma_passthrough_from(s, 0);
    assert(s.subrange(0, s.len() as int) =~= s);
}

/// Takes the control flags and their values out of `args`. A flag followed by
/// a value takes the next token as that value; the `=` forms carry it in the
/// same token. The last value given for a flag wins. All other tokens stay,
/// in their order.
pub fn extract_control_flags(args: &Vec<String>) -> (r: (Vec<String>, ControlFlags))
    ensures
        token_views(r.0@) == extract(token_views(args@)).0,
        opt_view(r.1.linker) == extract(token_views(args@)).1,
        r.1.dedup_libs == extract(token_views(args@)).2,
        opt_view(r.1.cwd) == extract(token_views(args@)).3,
{
    let ghost s = token_views(args@);
    let n = args.len();
    let mut out: Vec<String> = Vec::new();
    let mut linker: Option<String> = None;
    let mut dedup_libs = false;
    let mut cwd: Option<String> = None;
    let mut i: usize = 0;
    proof {
        assert(combine((Seq::empty(), None, false, None), extract_from(s, 0)) =~= extract_from(s, 0));
    }
    while i < n
        invariant
            n == args@.len(),
            s == token_views(args@),
            i <= n,
            combine((token_views(out@), opt_view(linker), dedup_libs, opt_view(cwd)), extract_from(s, i as int)) == extract(s),
        decreases n - i,
    {
        let ghost state = (token_views(out@), opt_view(linker), dedup_libs, opt_view(cwd));
        let a = &args[i];
        let ghost av = s[i as int];
        assert(a@ == av);
        let ghost eff = step_effect(s, i as int);
        let ghost k = step_len(s, i as int);
        let mut step: usize = 1;
        if same_text(a.as_str(), LINKER_FLAG) || same_text(a.as_str(), CWD_FLAG) {
            let value: Option<String> = if i + 1 < n {
                step = 2;
                Some(args[i + 1].clone())
            } else {
                None
            };
            assert(opt_view(value) == next_value(s, i as int));
            if same_text(a.as_str(), LINKER_FLAG) {
                if value.is_some() {
                    linker = value;
                }
            } else {
                if value.is_some() {
                    cwd = value;
                }
            }
        } else if same_text(a.as_str(), DEDUP_LIBS_FLAG) {
            dedup_libs = true;
        } else if starts_with(a.as_str(), LINKER_FLAG_EQ) {
            let p = LINKER_FLAG_EQ.unicode_len();
            let len = a.as_str().unicode_len();
            linker = Some(string_of(a.as_str().substring_char(p, len)));
        } else if starts_with(a.as_str(), CWD_FLAG_EQ) {
            let p = CWD_FLAG_EQ.unicode_len();
            let len = a.as_str().unicode_len();
            cwd = Some(string_of(a.as_str().substring_char(p, len)));
        } else {
            let ghost before = out@;
            out.push(a.clone());
            proof {
                assert(token_views(out@) =~= token_views(before) + seq![av]);
            }
        }
        proof {
            assert(step as int == k);
            assert((token_views(out@), opt_view(linker), dedup_libs, opt_view(cwd)) == combine(state, eff));
            lemma_combine_assoc(state, eff, extract_from(s, i + k));
        }
        i = i + step;
    }
    proof {
        assert(combine((token_views(out@), opt_view(linker), dedup_libs, opt_view(cwd)), extract_from(s, n as int)) =~= (token_views(out@), opt_view(linker), dedup_libs, opt_view(cwd)));
    }
    (out, ControlFlags { linker, dedup_libs, cwd })
}

} // verus!
