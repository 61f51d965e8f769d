//! What the library makes of tmux's and fzf's output, and the arguments every
//! fzf picker starts with.

use vstd::prelude::*;

use crate::text::{chars_of, slice_of, string_of, string_views, trim_end_char};
use crate::trusted::{lossy_string, utf8_lossy};

verus! {

/// Decoded tmux output without one trailing newline.
pub open spec fn reply_text_of(s: Seq<char>) -> Seq<char> {
    if s.len() > 0 && s.last() == '\n' {
        s.drop_last()
    } else {
        s
    }
}

/// A reply from tmux: its output decoded (invalid UTF-8 replaced), without
/// one trailing newline.
pub open spec fn query_output_of(stdout: Seq<u8>) -> Seq<char> {
    reply_text_of(utf8_lossy(stdout))
}

/// Decoded tmux output without one trailing newline ([`reply_text_of`]).
pub fn reply_text(text: &str) -> (s: String)
    ensures
        s@ == reply_text_of(text@),
{
    let v = chars_of(text);
    let n = v.len();
    if n > 0 && v[n - 1] == '\n' {
        let kept = slice_of(&v, 0, n - 1);
        assert(kept@ =~= v@.drop_last());
        string_of(&kept)
    } else {
        string_of(&v)
    }
}

/// tmux's output as text ([`query_output_of`]).
pub fn query_output(stdout: &[u8]) -> (s: String)
    ensures
        s@ == query_output_of(stdout@),
{
    let text = lossy_string(stdout);
    reply_text(text.as_str())
}

/// The chrome every picker wears: list on top, the input line under it,
/// preview below, the counter on its own ruled line, and the key help on the
/// list's top border. They go first, so a caller that repeats an option wins.
pub open spec fn style() -> Seq<Seq<char>> {
    seq![
        "--layout=default"@,
        "--info=default"@,
        "--separator=─"@,
        "--no-scrollbar"@,
        "--marker= "@,
        "--prompt=› "@,
        "--list-border=top"@,
        "--list-label-pos=2"@,
    ]
}

/// The views of a slice of string slices.
pub open spec fn str_views(args: Seq<&str>) -> Seq<Seq<char>> {
    args.map_values(|a: &str| a@)
}

/// The full fzf argument list of a picker: the shared style, then `args`.
pub fn picker_args(args: &[&str]) -> (all: Vec<String>)
    ensures
        string_views(all@) == style() + str_views(args@),
{
    let mut all: Vec<String> = Vec::new();
    all.push(String::from_str("--layout=default"));
    all.push(String::from_str("--info=default"));
    all.push(String::from_str("--separator=─"));
    all.push(String::from_str("--no-scrollbar"));
    all.push(String::from_str("--marker= "));
    all.push(String::from_str("--prompt=› "));
    all.push(String::from_str("--list-border=top"));
    all.push(String::from_str("--list-label-pos=2"));
    assert(string_views(all@) =~= style());
    let n = args.len();
    for i in 0..n
        invariant
            n == args@.len(),
            string_views(all@) == style() + str_views(args@).take(i as int),
    {
        let ghost before = all@;
        all.push(String::from_str(args[i]));
        assert(string_views(all@) =~= string_views(before).push(args@[i as int]@));
        assert(str_views(args@).take(i + 1) =~= str_views(args@).take(i as int).push(
            args@[i as int]@,
        ));
    }
    assert(str_views(args@).take(n as int) =~= str_views(args@));
    all
}

/// The picked line in fzf's decoded output: without its trailing newlines,
/// or nothing when that leaves it empty.
pub open spec fn selection_of(text: Seq<char>) -> Option<Seq<char>> {
    let sel = trim_end_char(text, '\n');
    if sel.len() == 0 {
        None
    } else {
        Some(sel)
    }
}

/// What fzf's exit and output mean: nothing picked when it failed (Esc, no
/// match); otherwise the [`selection_of`] its decoded output.
pub open spec fn picked_of(success: bool, stdout: Seq<u8>) -> Option<Seq<char>> {
    if !success {
        None
    } else {
        selection_of(utf8_lossy(stdout))
    }
}

/// The picked line in fzf's decoded output ([`selection_of`]).
pub fn selection(text: &str) -> (r: Option<String>)
    ensures
        match r {
            Some(s) => selection_of(text@) == Some(s@),
            None => selection_of(text@) is None,
        },
{
    let v = chars_of(text);
    let mut end = v.len();
    assert(v@.take(end as int) =~= v@);
    while end > 0 && v[end - 1] == '\n'
        invariant
            end <= v.len(),
            trim_end_char(v@, '\n') == trim_end_char(v@.take(end as int), '\n'),
        decreases end,
    {
        assert(v@.take(end as int).drop_last() =~= v@.take(end - 1));
        end = end - 1;
    }
    if end == 0 {
        None
    } else {
        let kept = slice_of(&v, 0, end);
        assert(kept@ =~= v@.take(end as int));
        Some(string_of(&kept))
    }
}

/// The line fzf picked ([`picked_of`]).
pub fn picked(success: bool, stdout: &[u8]) -> (r: Option<String>)
    ensures
        match r {
            Some(s) => picked_of(success, stdout@) == Some(s@),
            None => picked_of(success, stdout@) is None,
        },
{
    if !success {
        return None;
    }
    let text = lossy_string(stdout);
    selection(text.as_str())
}

} // verus!
