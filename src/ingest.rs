//! Reading the linker arguments: one level of `@file` response files.

use vstd::prelude::*;
use vstd::string::*;
use crate::text::{has_prefix, starts_with, string_of, token_views};

verus! {

/// The shell words of a text, as a Unix shell splits them.
pub uninterp spec fn shell_words_of(s: Seq<char>) -> Seq<Seq<char>>;

/// Relies on embuild::cli::UnixCommandArgs (shlex's `Shlex`): it splits a text
/// into words by the shell's quoting and escaping rules, and the words depend
/// on the text alone.
#[verifier::external_body]
fn shell_words(s: &str) -> (r: Vec<String>)
    ensures
        token_views(r@) == shell_words_of(s@),
{
    embuild::cli::UnixCommandArgs::new(s).collect()
}

/// An argument that refers to a response file.
pub open spec fn is_response_ref(a: Seq<char>) -> bool {
    a.len() > 0 && a[0] == '@'
}

/// The words given for the `i`-th argument, if any.
pub open spec fn words_at(words: Seq<Option<Seq<Seq<char>>>>, i: int) -> Option<Seq<Seq<char>>> {
    if 0 <= i < words.len() {
        words[i]
    } else {
        None
    }
}

/// What the argument `a` becomes: the words of its response file, where it
/// refers to one and words were read for it; otherwise the argument itself.
pub open spec fn piece(a: Seq<char>, w: Option<Seq<Seq<char>>>) -> Seq<Seq<char>> {
    if is_response_ref(a) && w is Some {
        w->0
    } else {
        seq![a]
    }
}

/// The first `i` arguments, each expanded.
pub open spec fn expanded_upto(raw: Seq<Seq<char>>, words: Seq<Option<Seq<Seq<char>>>>, i: int) -> Seq<Seq<char>>
    decreases i,
{
    if i <= 0 || i > raw.len() {
        Seq::empty()
    } else {
        expanded_upto(raw, words, i - 1) + piece(raw[i - 1], words_at(words, i - 1))
    }
}

/// All arguments, each expanded.
pub open spec fn expanded(raw: Seq<Seq<char>>, words: Seq<Option<Seq<Seq<char>>>>) -> Seq<Seq<char>> {
    expanded_upto(raw, words, raw.len() as int)
}

/// The words of each optional word list.
pub open spec fn word_lists(w: Seq<Option<Vec<String>>>) -> Seq<Option<Seq<Seq<char>>>> {
    w.map_values(|o: Option<Vec<String>>| word_list(o))
}

/// The shell words of each text that was read.
pub open spec fn content_words(c: Seq<Option<String>>) -> Seq<Option<Seq<Seq<char>>>> {
    c.map_values(|o: Option<String>| text_words(o))
}

/// The characters of the words of an optional word list.
pub open spec fn word_list(o: Option<Vec<String>>) -> Option<Seq<Seq<char>>> {
    match o {
        Some(v) => Some(token_views(v@)),
        None => None,
    }
}

/// The shell words of an optional text.
pub open spec fn text_words(o: Option<String>) -> Option<Seq<Seq<char>>> {
    match o {
        Some(s) => Some(shell_words_of(s@)),
        None => None,
    }
}

fn append_all(out: &mut Vec<String>, ws: &Vec<String>)
    ensures
        token_views(final(out)@) == token_views(old(out)@) + token_views(ws@),
{
    let ghost start = token_views(out@);
    let mut j: usize = 0;
    while j < ws.len()
        invariant
            j <= ws@.len(),
            out@.len() == start.len() + j,
            token_views(out@) == start + token_views(ws@).subrange(0, j as int),
        decreases ws@.len() - j,
    {
        let ghost prev = out@;
        let w = ws[j].clone();
        out.push(w);
        assert(out@ == prev.push(w));
        assert(w@ == token_views(ws@)[j as int]);
        assert forall|k: int| 0 <= k < out@.len() implies #[trigger] token_views(out@)[k] == (start + token_views(ws@).subrange(0, j + 1))[k] by {
            if k < prev.len() {
                assert(token_views(out@)[k] == token_views(prev)[k]);
            }
        }
        assert(token_views(out@) =~= start + token_views(ws@).subrange(0, j + 1));
        j = j + 1;
    }
    assert(token_views(ws@).subrange(0, ws@.len() as int) =~= token_views(ws@));
}

/// The path of the response file that `arg` refers to (`@path`), if it refers to one.
pub fn response_file_path(arg: &str) -> (r: Option<String>)
    ensures
        is_response_ref(arg@) ==> (r matches Some(p) && p@ == arg@.subrange(1, arg@.len() as int)),
        !is_response_ref(arg@) ==> r is None,
{
    proof {
        reveal_strlit("@");
        assert("@"@ =~= seq!['@']);
        if arg@.len() > 0 {
                assert(arg@.subrange(0, 1) =~= seq![arg@[0]]);
            assert(arg@[0] == arg@.subrange(0, 1)[0]);
        }
    }
    if starts_with(arg, "@") {
        let len = arg.unicode_len();
        Some(string_of(arg.substring_char(1, len)))
    } else {
        None
    }
}

/// Replaces each argument that refers to a response file, and for which
/// `words[i]` holds the file's words, by those words; every other argument
/// stays as it is. The words are not scanned again.
pub fn expand_with_words(raw: &Vec<String>, words: &Vec<Option<Vec<String>>>) -> (r: Vec<String>)
    ensures
        token_views(r@) == expanded(token_views(raw@), word_lists(words@)),
{
    let ghost rv = token_views(raw@);
    let ghost wv = word_lists(words@);
    let mut out: Vec<String> = Vec::new();
    let mut i: usize = 0;
    while i < raw.len()
        invariant
            rv == token_views(raw@),
            wv == word_lists(words@),
            i <= raw@.len(),
            token_views(out@) == expanded_upto(rv, wv, i as int),
        decreases raw@.len() - i,
    {
        let a = &raw[i];
        assert(a@ == rv[i as int]);
        proof {
            reveal_strlit("@");
            assert("@"@ =~= seq!['@']);
            if a@.len() > 0 {
                assert(a@.subrange(0, 1) =~= seq![a@[0]]);
                assert(a@[0] == a@.subrange(0, 1)[0]);
            }
            assert(is_response_ref(a@) == has_prefix(a@, "@"@));
        }
        let ghost before = token_views(out@);
        let mut used = false;
        if i < words.len() {
            match &words[i] {
                Some(ws) => {
                    assert(wv[i as int] == Some(token_views(ws@)));
                    if starts_with(a.as_str(), "@") {
                        used = true;
                        append_all(&mut out, ws);
                        assert(words_at(wv, i as int) == Some(token_views(ws@)));
                    }
                },
                None => {},
            }
        }
        if !used {
            out.push(a.clone());
            assert(token_views(out@) =~= before + seq![rv[i as int]]);
        }
        assert(expanded_upto(rv, wv, i + 1) == before + piece(rv[i as int], words_at(wv, i as int)));
        i = i + 1;
    }
    out
}

/// Expands one level of response files: `contents[i]`, where it is there, is
/// the text of the file that the `i`-th argument refers to, and the argument
/// is replaced by the shell words of that text. Arguments for which no text
/// was read (no such file) are passed through as they are.
pub fn expand_response_files(raw: &Vec<String>, contents: &Vec<Option<String>>) -> (r: Vec<String>)
    ensures
        token_views(r@) == expanded(token_views(raw@), content_words(contents@)),
{
    let mut words: Vec<Option<Vec<String>>> = Vec::new();
    let mut i: usize = 0;
    while i < contents.len()
        invariant
            i <= contents@.len(),
            words@.len() == i,
            word_lists(words@) == content_words(contents@).subrange(0, i as int),
        decreases contents@.len() - i,
    {
        let ghost prev = words@;
        match &contents[i] {
            Some(c) => {
                let ws = shell_words(c.as_str());
                assert(word_list(Some(ws)) == text_words(contents@[i as int]));
                words.push(Some(ws));
            },
            None => {
                words.push(None);
            },
        }
        assert(words@ == prev.push(words@[i as int]));
        assert(word_lists(words@)[i as int] == content_words(contents@)[i as int]);
        assert(word_lists(words@) =~= content_words(contents@).subrange(0, i + 1));
        i = i + 1;
    }
    assert(content_words(contents@).subrange(0, contents@.len() as int) =~= content_words(contents@));
    expand_with_words(raw, &words)
}

} // verus!
