//! Deciding how to run the real linker, and judging how it went.

use vstd::prelude::*;
use vstd::string::*;
use crate::lines::{lemma_lines_cons, lemma_lines_single, lines_of};
use crate::text::{string_of, token_views};

verus! {

/// Above this many arguments the linker gets them through a response file.
pub const RESPONSE_FILE_THRESHOLD: usize = 500;

/// The decimal digits, in order.
pub const DIGITS: &'static str = "0123456789";

/// The decimal form of `n`.
pub open spec fn decimal(n: nat) -> Seq<char>
    decreases n,
{
    if n < 10 {
        seq![DIGITS@[n as int]]
    } else {
        decimal(n / 10) + seq![DIGITS@[(n % 10) as int]]
    }
}

/// The tokens, one per line, with no newline after the last.
pub open spec fn join_lines(ts: Seq<Seq<char>>) -> Seq<char>
    decreases ts.len(),
{
    if ts.len() == 0 {
        Seq::empty()
    } else if ts.len() == 1 {
        ts[0]
    } else {
        join_lines(ts.drop_last()) + seq!['\n'] + ts.last()
    }
}

proof fn lemma_join_front(ts: Seq<Seq<char>>)
    requires
        ts.len() >= 2,
    ensures
        join_lines(ts) == ts[0] + seq!['\n'] + join_lines(ts.drop_first()),
    decreases ts.len(),
{
    let nl = seq!['\n'];
    if ts.len() == 2 {
        assert(ts.drop_last() =~= seq![ts[0]]);
        assert(ts.drop_first() =~= seq![ts[1]]);
        assert(join_lines(ts.drop_last()) == ts[0]);
        assert(join_lines(ts.drop_first()) == ts[1]);
    } else {
        let dl = ts.drop_last();
        let df = ts.drop_first();
        lemma_join_front(dl);
        assert(dl.drop_first() =~= df.drop_last());
        assert(df.last() == ts.last());
        assert(join_lines(df) == join_lines(df.drop_last()) + nl + df.last());
        assert(join_lines(ts) == join_lines(dl) + nl + ts.last());
        assert(join_lines(dl) == dl[0] + nl + join_lines(dl.drop_first()));
        assert(ts[0] + nl + join_lines(df) =~= ts[0] + nl + join_lines(df.drop_last()) + nl + ts.last());
        assert(join_lines(ts) =~= ts[0] + nl + join_lines(df.drop_last()) + nl + ts.last());
    }
}

/// A token that can stand on a line of its own: no `\n` in it, and no `\r`
/// at its end.
pub open spec fn is_line_safe(t: Seq<char>) -> bool {
    (forall|k: int| 0 <= k < t.len() ==> t[k] != '\n') && !(t.len() > 0 && t.last() == '\r')
}

/// Read back line by line, the text of a response file gives the tokens
/// again, one line each and in order, where each token can stand on a line
/// of its own and the last one is not empty.
pub proof fn lemma_response_file_lines(ts: Seq<Seq<char>>)
    requires
        ts.len() > 0,
        forall|k: int| 0 <= k < ts.len() ==> is_line_safe(#[trigger] ts[k]),
        ts.last().len() > 0,
    ensures
        lines_of(join_lines(ts)) == ts,
    decreases ts.len(),
{
    assert(is_line_safe(ts[0]));
    if ts.len() == 1 {
        lemma_lines_single(ts[0]);
        assert(seq![ts[0]] =~= ts);
    } else {
        let rest = ts.drop_first();
        assert forall|k: int| 0 <= k < rest.len() implies is_line_safe(#[trigger] rest[k]) by {
            assert(rest[k] == ts[k + 1]);
        }
        lemma_response_file_lines(rest);
        lemma_join_front(ts);
        lemma_lines_cons(ts[0], join_lines(rest));
        assert(seq![ts[0]] + rest =~= ts);
    }
}

/// The name of the response file of the process with identifier `pid`.
pub open spec fn response_file_name_of(pid: nat) -> Seq<char> {
    "ldproxy-"@ + decimal(pid) + ".rsp"@
}

/// The message that reports a failed linker run.
pub open spec fn failure_message_of(linker: Seq<char>, status: Seq<char>, stderr: Seq<char>) -> Seq<char> {
    "Linker "@ + linker + " failed: "@ + status + "\nSTDERR OUTPUT:\n"@ + stderr
}

/// Why a run of the proxy failed.
pub enum ProxyError {
    /// No linker was named by flag or environment, and none was found on the search path.
    NoLinker,
    /// The linker ran and did not succeed; the message holds its status and its error output.
    LinkerFailed { message: String },
    /// The linker succeeded, but failure was asked for.
    FailureRequested,
}

/// Whether `count` arguments go to the linker through a response file.
pub fn needs_response_file(count: usize) -> (r: bool)
    ensures
        r == (count > RESPONSE_FILE_THRESHOLD),
{
    count > RESPONSE_FILE_THRESHOLD
}

fn digit(d: u32) -> (r: &'static str)
    requires
        d < 10,
    ensures
        r@ == seq![DIGITS@[d as int]],
{
    proof {
        reveal_strlit("0123456789");
    }
    let s = DIGITS.substring_char(d as usize, d as usize + 1);
    assert(s@ =~= seq![DIGITS@[d as int]]);
    s
}

/// The decimal form of `n`.
pub fn decimal_string(n: u32) -> (r: String)
    ensures
        r@ == decimal(n as nat),
    decreases n,
{
    if n < 10 {
        string_of(digit(n))
    } else {
        let mut s = decimal_string(n / 10);
        s.append(digit(n % 10));
        s
    }
}

/// The name of the response file of the process with identifier `pid`, so
/// that concurrent runs write different files.
pub fn response_file_name(pid: u32) -> (r: String)
    ensures
        r@ == response_file_name_of(pid as nat),
{
    let mut s = string_of("ldproxy-");
    let d = decimal_string(pid);
    s.append(d.as_str());
    s.append(".rsp");
    s
}

/// The text of a response file: the arguments, one per line, unquoted.
pub fn response_file_contents(args: &Vec<String>) -> (r: String)
    ensures
        r@ == join_lines(token_views(args@)),
{
    let ghost ts = token_views(args@);
    let mut out = String::new();
    let mut i: usize = 0;
    while i < args.len()
        invariant
            ts == token_views(args@),
            i <= args@.len(),
            out@ == join_lines(ts.subrange(0, i as int)),
        decreases args@.len() - i,
    {
        let ghost before = ts.subrange(0, i as int);
        let ghost after = ts.subrange(0, i + 1);
        assert(after.drop_last() =~= before);
        assert(after.last() == args@[i as int]@);
        if i > 0 {
            out.append("\n");
            proof {
                reveal_strlit("\n");
                assert("\n"@ =~= seq!['\n']);
            }
        } else {
            assert(out@ + args@[i as int]@ =~= after[0]);
        }
        out.append(args[i].as_str());
        proof {
            if i > 0 {
                assert(out@ =~= join_lines(before) + seq!['\n'] + after.last());
            }
        }
        i = i + 1;
    }
    proof {
        assert(ts.subrange(0, args@.len() as int) =~= ts);
    }
    out
}

/// The arguments the linker is run with. Where there are more than the
/// threshold and a response file was written, the single argument `@path`;
/// otherwise the arguments themselves, in order.
pub fn invocation_args(args: Vec<String>, response_file: Option<String>) -> (r: Vec<String>)
    ensures
        args@.len() <= RESPONSE_FILE_THRESHOLD ==> r@ == args@,
        response_file is None ==> r@ == args@,
        match response_file {
            Some(p) => args@.len() > RESPONSE_FILE_THRESHOLD ==> token_views(r@) == seq!["@"@ + p@],
            None => true,
        },
{
    match response_file {
        Some(p) => {
            if needs_response_file(args.len()) {
                let mut a = string_of("@");
                a.append(p.as_str());
                let mut r: Vec<String> = Vec::new();
                r.push(a);
                assert(token_views(r@) =~= seq!["@"@ + p@]);
                r
            } else {
                args
            }
        },
        None => args,
    }
}

/// The message that reports a failed linker run: the linker, its exit
/// status, and its whole error output.
pub fn linker_failure_message(linker: &str, status: &str, stderr: &str) -> (r: String)
    ensures
        r@ == failure_message_of(linker@, status@, stderr@),
{
    let mut s = string_of("Linker ");
    s.append(linker);
    s.append(" failed: ");
    s.append(status);
    s.append("\nSTDERR OUTPUT:\n");
    s.append(stderr);
    s
}

/// Judges a finished linker run: a linker that did not succeed fails the run
/// with its status and error output; one that succeeded fails it only where
/// failure was asked for.
pub fn link_result(linker: &str, succeeded: bool, status: &str, stderr: &str, failure_requested: bool) -> (r: Result<(), ProxyError>)
    ensures
        !succeeded ==> (r matches Err(ProxyError::LinkerFailed { message }) && message@
            == failure_message_of(linker@, status@, stderr@)),
        succeeded && failure_requested ==> r matches Err(ProxyError::FailureRequested),
        succeeded && !failure_requested ==> r is Ok,
{
    if !succeeded {
        Err(ProxyError::LinkerFailed { message: linker_failure_message(linker, status, stderr) })
    } else if failure_requested {
        Err(ProxyError::FailureRequested)
    } else {
        Ok(())
    }
}

} // verus!
