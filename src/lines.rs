//! Splitting text into lines: at each `\n`, with one `\r` before it dropped.

use vstd::prelude::*;
use vstd::string::*;
use crate::text::chars_of;

verus! {

/// The index of the first `\n` at or after `i`, or the length of `s`.
pub open spec fn line_end(s: Seq<char>, i: int) -> int
    decreases s.len() - i,
{
    if i < 0 || i >= s.len() {
        s.len() as int
    } else if s[i] == '\n' {
        i
    } else {
        line_end(s, i + 1)
    }
}

/// A line without the `\r` that ended it.
pub open spec fn strip_cr(l: Seq<char>) -> Seq<char> {
    if l.len() > 0 && l.last() == '\r' {
        l.drop_last()
    } else {
        l
    }
}

/// The lines of `s` from index `i` on. A last line without `\n` is kept as
/// it is; text that ends in `\n` has no empty line after it.
pub open spec fn lines_from(s: Seq<char>, i: int) -> Seq<Seq<char>>
    decreases s.len() - i
    via lines_from_decreases
{
    if i < 0 || i >= s.len() {
        Seq::empty()
    } else {
        let j = line_end(s, i);
        if j >= s.len() {
            seq![s.subrange(i, s.len() as int)]
        } else {
            seq![strip_cr(s.subrange(i, j))] + lines_from(s, j + 1)
        }
    }
}

#[via_fn]
proof fn lines_from_decreases(s: Seq<char>, i: int) {
    if 0 <= i < s.len() {
        lemma_line_end_bounds(s, i);
    }
}

/// The lines of `s`.
pub open spec fn lines_of(s: Seq<char>) -> Seq<Seq<char>> {
    lines_from(s, 0)
}

proof fn lemma_line_end_bounds(s: Seq<char>, i: int)
    requires
        0 <= i <= s.len(),
    ensures
        i <= line_end(s, i) <= s.len(),
        line_end(s, i) < s.len() ==> s[line_end(s, i)] == '\n',
        forall|k: int| i <= k < line_end(s, i) ==> s[k] != '\n',
    decreases s.len() - i,
{
    if i < s.len() && s[i] != '\n' {
        lemma_line_end_bounds(s, i + 1);
    }
}

proof fn lemma_line_end_shift(p: Seq<char>, b: Seq<char>, j: int)
    requires
        0 <= j <= b.len(),
    ensures
        line_end(p + b, p.len() + j) == p.len() + line_end(b, j),
    decreases b.len() - j,
{
    if j < b.len() {
        assert((p + b)[p.len() + j] == b[j]);
        lemma_line_end_shift(p, b, j + 1);
    }
}

proof fn lemma_lines_shift(p: Seq<char>, b: Seq<char>, j: int)
    requires
        0 <= j <= b.len(),
    ensures
        lines_from(p + b, p.len() + j) == lines_from(b, j),
    decreases b.len() - j,
{
    let s = p + b;
    let i = p.len() + j;
    if j < b.len() {
        lemma_line_end_shift(p, b, j);
        lemma_line_end_bounds(b, j);
        let e = line_end(b, j);
        if e >= b.len() {
            assert(s.subrange(i, s.len() as int) =~= b.subrange(j, b.len() as int));
        } else {
            assert(s.subrange(i, p.len() + e) =~= b.subrange(j, e));
            lemma_lines_shift(p, b, e + 1);
        }
    }
}

proof fn lemma_line_end_no_newline(s: Seq<char>, i: int, n: int)
    requires
        0 <= i <= n < s.len(),
        s[n] == '\n',
        forall|k: int| i <= k < n ==> s[k] != '\n',
    ensures
        line_end(s, i) == n,
    decreases n - i,
{
    if i < n {
        lemma_line_end_no_newline(s, i + 1, n);
    }
}

/// A line without `\n` and not ending in `\r`, followed by `\n`, is the first
/// line, and the lines of what follows come after it.
pub proof fn lemma_lines_cons(a: Seq<char>, b: Seq<char>)
    requires
        forall|k: int| 0 <= k < a.len() ==> a[k] != '\n',
        !(a.len() > 0 && a.last() == '\r'),
    ensures
        lines_of(a + seq!['\n'] + b) == seq![a] + lines_of(b),
{
    let p = a + seq!['\n'];
    let s = p + b;
    assert(s == a + seq!['\n'] + b);
    assert forall|k: int| 0 <= k < a.len() implies s[k] != '\n' by {
        assert(s[k] == a[k]);
    }
    assert(s[a.len() as int] == '\n');
    lemma_line_end_no_newline(s, 0, a.len() as int);
    assert(s.subrange(0, a.len() as int) =~= a);
    lemma_lines_shift(p, b, 0);
}

/// A single line without `\n`, not empty, is the only line.
pub proof fn lemma_lines_single(a: Seq<char>)
    requires
        a.len() > 0,
        forall|k: int| 0 <= k < a.len() ==> a[k] != '\n',
    ensures
        lines_of(a) == seq![a],
{
    assert forall|i: int| 0 <= i <= a.len() implies line_end(a, i) == a.len() by {
        lemma_line_end_bounds(a, i);
    }
    assert(a.subrange(0, a.len() as int) =~= a);
}

/// The characters `from..to` of `c`, as a string.
fn string_from_chars(c: &Vec<char>, s: &str, from: usize, to: usize) -> (r: String)
    requires
        c@ == s@,
        from <= to <= c@.len(),
    ensures
        r@ == c@.subrange(from as int, to as int),
{
    String::from_str(s.substring_char(from, to))
}

/// Splits `s` into its lines.
pub fn split_lines(s: &str) -> (r: Vec<String>)
    ensures
        r@.map_values(|l: String| l@) == lines_of(s@),
{
    let c = chars_of(s);
    let n = c.len();
    let mut out: Vec<String> = Vec::new();
    let mut i: usize = 0;
    proof {
        assert(Seq::<Seq<char>>::empty() + lines_from(s@, 0) =~= lines_from(s@, 0));
    }
    while i < n
        invariant
            c@ == s@,
            n == c@.len(),
            i <= n,
            out@.map_values(|l: String| l@) + lines_from(s@, i as int) == lines_of(s@),
        decreases n - i,
    {
        let ghost before = out@.map_values(|l: String| l@);
        let mut j: usize = i;
        while j < n && c[j] != '\n'
            invariant
                c@ == s@,
                n == c@.len(),
                i <= j <= n,
                line_end(s@, i as int) == line_end(s@, j as int),
            decreases n - j,
        {
            j = j + 1;
        }
        proof {
            lemma_line_end_bounds(s@, i as int);
        }
        if j >= n {
            let line = string_from_chars(&c, s, i, n);
            out.push(line);
            proof {
                assert(out@.map_values(|l: String| l@) =~= before + seq![s@.subrange(i as int, n as int)]);
                assert(lines_from(s@, n as int) =~= Seq::<Seq<char>>::empty());
                assert(out@.map_values(|l: String| l@) + lines_from(s@, n as int) =~= before + lines_from(s@, i as int));
            }
            i = n;
        } else {
            let mut end: usize = j;
            if j > i && c[j - 1] == '\r' {
                end = j - 1;
            }
            let line = string_from_chars(&c, s, i, end);
            proof {
                let l = s@.subrange(i as int, j as int);
                assert(line@ == strip_cr(l)) by {
                    if l.len() > 0 && l.last() == '\r' {
                        assert(l.drop_last() =~= s@.subrange(i as int, end as int));
                    }
                }
            }
            out.push(line);
            proof {
                let l = s@.subrange(i as int, j as int);
                assert(out@.map_values(|l: String| l@) =~= before + seq![strip_cr(l)]);
                assert(out@.map_values(|l: String| l@) + lines_from(s@, j + 1) =~= before + lines_from(s@, i as int));
            }
            i = j + 1;
        }
    }
    proof {
        assert(lines_from(s@, n as int) =~= Seq::<Seq<char>>::empty());
        assert(out@.map_values(|l: String| l@) + lines_from(s@, n as int) =~= out@.map_values(|l: String| l@));
    }
    out
}

} // verus!
