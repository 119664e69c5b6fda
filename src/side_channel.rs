//! The companion build-output file: finding it, reading its link-argument
//! directives, and merging what they give into the linker arguments.

use vstd::prelude::*;
use vstd::string::*;
use crate::flags::{later, CWD_FLAG, LINKER_FLAG};
use crate::lines::{lines_of, split_lines};
use crate::text::{has_prefix, same_text, starts_with, string_of, token_views};

verus! {

/// The start of each directive line.
pub const DIRECTIVE_PREFIX: &'static str = "cargo:rustc-link-arg=";

/// The start of every flag that belongs to the proxy itself.
pub const PROXY_FLAG_PREFIX: &'static str = "--ldproxy";

/// The start of the name of the build directory that holds the file.
pub const COMPANION_DIR_PREFIX: &'static str = "esp-idf-sys-";

/// What the directive before the current one announced.
#[derive(PartialEq, Eq, Structural, Clone, Copy)]
pub enum Pending {
    /// Nothing: the current directive stands for itself.
    Nothing,
    /// The current directive is the working directory.
    WorkingDir,
    /// The current directive is a linker path, which is skipped.
    Linker,
}

/// What the directives of the file give: extra arguments, in file order, and
/// a working directory, the last one given.
pub type Directives = (Seq<Seq<char>>, Option<Seq<char>>);

/// The directives of `ls` from index `i` on, after a directive that announced `p`.
pub open spec fn scan(ls: Seq<Seq<char>>, i: int, p: Pending) -> Directives
    decreases ls.len() - i,
{
    if i < 0 || i >= ls.len() {
        (Seq::empty(), None)
    } else if !has_prefix(ls[i], DIRECTIVE_PREFIX@) {
        scan(ls, i + 1, p)
    } else {
        let v = ls[i].subrange(DIRECTIVE_PREFIX@.len() as int, ls[i].len() as int);
        if v == CWD_FLAG@ {
            scan(ls, i + 1, Pending::WorkingDir)
        } else if p == Pending::WorkingDir {
            let r = scan(ls, i + 1, Pending::Nothing);
            (r.0, later(Some(v), r.1))
        } else if p == Pending::Linker {
            scan(ls, i + 1, Pending::Nothing)
        } else if v == LINKER_FLAG@ {
            scan(ls, i + 1, Pending::Linker)
        } else if has_prefix(v, PROXY_FLAG_PREFIX@) {
            scan(ls, i + 1, Pending::Nothing)
        } else {
            let r = scan(ls, i + 1, Pending::Nothing);
            (seq![v] + r.0, r.1)
        }
    }
}

/// What the file with text `content` gives.
pub open spec fn directives_of(content: Seq<char>) -> Directives {
    scan(lines_of(content), 0, Pending::Nothing)
}

proof fn lemma_scan_excludes_proxy_flags(ls: Seq<Seq<char>>, i: int, p: Pending)
    ensures
        forall|k: int|
            0 <= k < scan(ls, i, p).0.len() ==> !has_prefix(#[trigger] scan(ls, i, p).0[k], PROXY_FLAG_PREFIX@),
    decreases ls.len() - i,
{
    if 0 <= i < ls.len() {
        lemma_scan_excludes_proxy_flags(ls, i + 1, Pending::Nothing);
        lemma_scan_excludes_proxy_flags(ls, i + 1, Pending::WorkingDir);
        lemma_scan_excludes_proxy_flags(ls, i + 1, Pending::Linker);
        lemma_scan_excludes_proxy_flags(ls, i + 1, p);
        if !has_prefix(ls[i], DIRECTIVE_PREFIX@) {
            assert(scan(ls, i, p).0 == scan(ls, i + 1, p).0);
        } else {
            let r = scan(ls, i + 1, Pending::Nothing);
            let v = ls[i].subrange(DIRECTIVE_PREFIX@.len() as int, ls[i].len() as int);
            if v == CWD_FLAG@ {
                assert(scan(ls, i, p).0 == scan(ls, i + 1, Pending::WorkingDir).0);
            } else if p == Pending::WorkingDir || p == Pending::Linker || v == LINKER_FLAG@ || has_prefix(v, PROXY_FLAG_PREFIX@) {
                assert(scan(ls, i, p).0 == r.0 || scan(ls, i, p).0 == scan(ls, i + 1, Pending::Linker).0);
            }
            if !(v == CWD_FLAG@) && p == Pending::Nothing && !(v == LINKER_FLAG@) && !has_prefix(
                v,
                PROXY_FLAG_PREFIX@,
            ) {
                let a = seq![v] + r.0;
                assert(scan(ls, i, p).0 == a);
                assert forall|k: int| 0 <= k < a.len() implies !has_prefix(
                    #[trigger] a[k],
                    PROXY_FLAG_PREFIX@,
                ) by {
                    if k > 0 {
                        assert(a[k] == r.0[k - 1]);
                    }
                }
            }
        }
    }
}

/// No extra argument that a companion file gives starts with the proxy's own
/// flag prefix.
pub proof fn lemma_directives_exclude_proxy_flags(content: Seq<char>)
    ensures
        forall|k: int|
            0 <= k < directives_of(content).0.len() ==> !has_prefix(
                #[trigger] directives_of(content).0[k],
                PROXY_FLAG_PREFIX@,
            ),
{
    lemma_scan_excludes_proxy_flags(lines_of(content), 0, Pending::Nothing);
}

/// What the companion file gives.
pub struct SideChannel {
    /// Extra linker arguments, in file order.
    pub link_args: Vec<String>,
    /// The working directory that the file names, if it names one.
    pub cwd: Option<String>,
}

/// Reads the directives of a companion file. A directive whose value is the
/// working-directory flag makes the next directive the working directory; one
/// whose value is the linker flag makes the next directive a linker path,
/// which is skipped. Other values are extra arguments, but for those that
/// start with the proxy's own flag prefix, which are dropped. Lines that are
/// no directive are ignored.
pub fn parse_side_channel(content: &str) -> (r: SideChannel)
    ensures
        token_views(r.link_args@) == directives_of(content@).0,
        match r.cwd {
            Some(c) => directives_of(content@).1 == Some(c@),
            None => directives_of(content@).1 is None,
        },
{
    let ls = split_lines(content);
    let ghost l = token_views(ls@);
    assert(l == lines_of(content@));
    let n = ls.len();
    let mut out: Vec<String> = Vec::new();
    let mut cwd: Option<String> = None;
    let mut pending = Pending::Nothing;
    let mut i: usize = 0;
    let ghost full = scan(l, 0, Pending::Nothing);
    proof {
        assert(token_views(out@) + full.0 =~= full.0);
    }
    while i < n
        invariant
            n == ls@.len(),
            l == token_views(ls@),
            full == scan(l, 0, Pending::Nothing),
            i <= n,
            token_views(out@) + scan(l, i as int, pending).0 == full.0,
            later(
                match cwd {
                    Some(c) => Some(c@),
                    None => None,
                },
                scan(l, i as int, pending).1,
            ) == full.1,
        decreases n - i,
    {
        let line = &ls[i];
        assert(line@ == l[i as int]);
        let ghost before = token_views(out@);
        let ghost p0 = pending;
        if starts_with(line.as_str(), DIRECTIVE_PREFIX) {
            let len = line.as_str().unicode_len();
            let v = line.as_str().substring_char(DIRECTIVE_PREFIX.unicode_len(), len);
            if same_text(v, CWD_FLAG) {
                pending = Pending::WorkingDir;
            } else if pending == Pending::WorkingDir {
                cwd = Some(string_of(v));
                pending = Pending::Nothing;
            } else if pending == Pending::Linker {
                pending = Pending::Nothing;
            } else if same_text(v, LINKER_FLAG) {
                pending = Pending::Linker;
            } else if starts_with(v, PROXY_FLAG_PREFIX) {
                pending = Pending::Nothing;
            } else {
                out.push(string_of(v));
                proof {
                    assert(token_views(out@) + scan(l, i + 1, pending).0 =~= before + scan(l, i as int, p0).0);
                }
            }
        }
        i = i + 1;
    }
    SideChannel { link_args: out, cwd }
}

/// The index of the first entry that is a directory whose name starts with
/// the companion prefix; the scan stops there.
pub fn find_companion_dir(names: &Vec<String>, is_dir: &Vec<bool>) -> (r: Option<usize>)
    requires
        names@.len() == is_dir@.len(),
    ensures
        match r {
            Some(i) => i < names@.len() && is_dir@[i as int] && has_prefix(names@[i as int]@, COMPANION_DIR_PREFIX@)
                && forall|k: int| 0 <= k < i ==> !(is_dir@[k] && has_prefix(names@[k]@, COMPANION_DIR_PREFIX@)),
            None => forall|k: int| 0 <= k < names@.len() ==> !(is_dir@[k] && has_prefix(names@[k]@, COMPANION_DIR_PREFIX@)),
        },
{
    let mut i: usize = 0;
    while i < names.len()
        invariant
            names@.len() == is_dir@.len(),
            i <= names@.len(),
            forall|k: int| 0 <= k < i ==> !(is_dir@[k] && has_prefix(names@[k]@, COMPANION_DIR_PREFIX@)),
        decreases names@.len() - i,
    {
        if is_dir[i] && starts_with(names[i].as_str(), COMPANION_DIR_PREFIX) {
            return Some(i);
        }
        i = i + 1;
    }
    None
}

/// Merges what the companion file gave into the arguments and the working
/// directory: its arguments go after all existing ones, in file order, and a
/// working directory that it names replaces the current one. Without a
/// companion file nothing changes.
pub fn merge_side_channel(args: &mut Vec<String>, cwd: &mut Option<String>, side: Option<SideChannel>)
    ensures
        match side {
            Some(sc) => {
                &&& final(args)@ == old(args)@ + sc.link_args@
                &&& *final(cwd) == if sc.cwd is Some { sc.cwd } else { *old(cwd) }
            },
            None => final(args)@ == old(args)@ && *final(cwd) == *old(cwd),
        },
{
    match side {
        Some(sc) => {
            let mut extra = sc.link_args;
            args.append(&mut extra);
            if sc.cwd.is_some() {
                *cwd = sc.cwd;
            }
        },
        None => {},
    }
}

} // verus!
