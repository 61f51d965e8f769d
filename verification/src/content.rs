//! Content search: captured panes turned into searchable rows, the blank-line
//! test, and the arguments and selections of the content picker.

use vstd::prelude::*;

use crate::order::Order;
use crate::rows::{current_first, current_first_of};
use crate::sorting::{strip_sort_keys, strip_sort_keys_of};
use crate::text::{
    decimal_is_the_digits_of_n, first_index, is_digit, lemma_first_index_some, lemma_split_concat,
    lemma_split_len, lemma_split_without_sep, parsing_a_written_number_gives_it_back, trim_end,
    trim_start,
    chars_of, decimal, extend, lines, lines_of, parse_i64, parse_i64_chars, push_decimal, split,
    split_chars, split_once, split_once_chars, string_of, string_views, trim, trim_chars, views,
};
use crate::trusted::{erase_matches, regex_erase};

verus! {

/// The terminal escape sequences a blank captured row can be made of: CSI
/// (colour and the like), OSC (terminated by BEL or ST), and two-byte escapes.
pub const ESCAPES: &'static str = r"\x1b\[[0-9;:?]*[ -/]*[@-~]|\x1b\][^\x07\x1b]*(?:\x07|\x1b\\)|\x1b.";

/// Whether a captured line shows nothing, given `erased`, the line with its
/// escape sequences removed (`None` when that could not be computed): the line
/// is whitespace, or what is left once the escapes are gone is.
pub open spec fn blank_after_of(line: Seq<char>, erased: Option<Seq<char>>) -> bool {
    trim(line).len() == 0 || match erased {
        Some(rest) => trim(rest).len() == 0,
        None => false,
    }
}

/// Whether a captured line shows nothing: it is whitespace, or it is only
/// escape sequences and whitespace.
pub open spec fn blank(line: Seq<char>) -> bool {
    blank_after_of(line, regex_erase(ESCAPES@, line))
}

/// The blank-line decision for `line` once its escape sequences have been
/// removed into `erased` ([`blank_after_of`]).
pub fn blank_after(line: &str, erased: Option<&str>) -> (b: bool)
    ensures
        b == blank_after_of(
            line@,
            match erased {
                Some(e) => Some(e@),
                None => None,
            },
        ),
{
    let v = chars_of(line);
    if trim_chars(&v).len() == 0 {
        return true;
    }
    match erased {
        Some(e) => {
            let r = chars_of(e);
            trim_chars(&r).len() == 0
        },
        None => false,
    }
}

/// A captured line with nothing visible on it ([`blank`]). The cheap test comes
/// first; the escape sequences are removed only when it fails.
pub fn is_blank(line: &str) -> (b: bool)
    ensures
        b == blank(line@),
{
    let v = chars_of(line);
    if trim_chars(&v).len() == 0 {
        return true;
    }
    match erase_matches(ESCAPES, line) {
        Some(rest) => blank_after(line, Some(rest.as_str())),
        None => blank_after(line, None),
    }
}

/// One picker row: `target<TAB>lineno<TAB>line<NEWLINE>`.
pub open spec fn content_row(target: Seq<char>, lineno: nat, line: Seq<char>) -> Seq<char> {
    target + seq!['\t'] + decimal(lineno) + seq!['\t'] + line + seq!['\n']
}

/// The rows for the captured lines `ls`, numbered by their place in `ls`
/// (from 1), blank lines dropped.
pub open spec fn rows_for(target: Seq<char>, ls: Seq<Seq<char>>) -> Seq<char>
    decreases ls.len(),
{
    if ls.len() == 0 {
        Seq::empty()
    } else {
        let before = rows_for(target, ls.drop_last());
        if blank(ls.last()) {
            before
        } else {
            before + content_row(target, ls.len(), ls.last())
        }
    }
}

/// What [`content_rows`] returns.
pub open spec fn content_rows_of(target: Seq<char>, pane: Seq<char>) -> Seq<char> {
    rows_for(target, lines(pane))
}

/// One window's picker rows: `target<TAB>lineno<TAB>content` per captured
/// line, blank lines dropped. The line number is the line's place in the
/// capture, not in this list, so the preview and the jump land on it.
pub fn content_rows(target: &str, pane: &str) -> (out: String)
    ensures
        out@ == content_rows_of(target@, pane@),
{
    let tv = chars_of(target);
    let pv = chars_of(pane);
    let ls = lines_of(&pv);
    let n = ls.len();
    let mut out: Vec<char> = Vec::new();
    assert(views(ls@).take(0) =~= Seq::<Seq<char>>::empty());
    for i in 0..n
        invariant
            n == ls.len(),
            tv@ == target@,
            views(ls@) == lines(pane@),
            out@ == rows_for(target@, views(ls@).take(i as int)),
    {
        let ghost prefix = views(ls@).take(i + 1);
        assert(prefix.drop_last() =~= views(ls@).take(i as int));
        assert(prefix.last() == ls@[i as int]@);
        let line = string_of(&ls[i]);
        if !is_blank(line.as_str()) {
            extend(&mut out, &tv);
            out.push('\t');
            push_decimal(&mut out, (i as u64) + 1);
            out.push('\t');
            extend(&mut out, &ls[i]);
            out.push('\n');
            assert(out@ =~= rows_for(target@, views(ls@).take(i as int)) + content_row(
                target@,
                (i + 1) as nat,
                ls@[i as int]@,
            ));
        }
    }
    assert(views(ls@).take(n as int) =~= views(ls@));
    string_of(&out)
}

/// The session part of a `session:index` target (empty when there is no
/// `:`). Session names cannot contain `:`, so the first one is the split.
pub open spec fn session_of_target(cur: Seq<char>) -> Seq<char> {
    match split_once(cur, ':') {
        Some((s, _)) => s,
        None => Seq::empty(),
    }
}

/// The session of the window the client is on.
pub fn session_of(cur: &str) -> (s: String)
    ensures
        s@ == session_of_target(cur@),
{
    let v = chars_of(cur);
    match split_once_chars(&v, ':') {
        Some((a, _)) => string_of(&a),
        None => String::new(),
    }
}

/// The client's current `session:index` from tmux's reply (`None` when the
/// query failed): the reply trimmed, or empty, which reads as "no current
/// window".
pub fn current_window(reply: Option<&str>) -> (s: String)
    ensures
        s@ == match reply {
            Some(r) => trim(r@),
            None => Seq::empty(),
        },
{
    match reply {
        Some(r) => {
            let v = chars_of(r);
            let t = trim_chars(&v);
            string_of(&t)
        },
        None => String::new(),
    }
}

/// The `list-windows` format of content search: two sort keys, then the target.
pub const CONTENT_FORMAT: &'static str = "#{window_activity} #{session_last_attached} #{session_name}:#{window_index}";

/// The tmux arguments that list the windows content search covers: every
/// session's with `all`, otherwise the named session's. `None` when the scope is
/// one session and no session is known: there is nothing to search.
pub fn content_list_args(all: bool, sess: &str) -> (r: Option<Vec<String>>)
    ensures
        all ==> r is Some && string_views(r->0@) == seq![
            "list-windows"@,
            "-a"@,
            "-F"@,
            CONTENT_FORMAT@,
        ],
        !all && sess@.len() == 0 ==> r is None,
        !all && sess@.len() > 0 ==> r is Some && string_views(r->0@) == seq![
            "list-windows"@,
            "-t"@,
            sess@,
            "-F"@,
            CONTENT_FORMAT@,
        ],
{
    let mut args: Vec<String> = Vec::new();
    args.push(String::from_str("list-windows"));
    if all {
        args.push(String::from_str("-a"));
    } else if sess.is_empty() {
        return None;
    } else {
        args.push(String::from_str("-t"));
        args.push(String::from_str(sess));
    }
    args.push(String::from_str("-F"));
    args.push(String::from_str(CONTENT_FORMAT));
    proof {
        if all {
            assert(string_views(args@) =~= seq![
                "list-windows"@,
                "-a"@,
                "-F"@,
                CONTENT_FORMAT@,
            ]);
        } else {
            assert(string_views(args@) =~= seq![
                "list-windows"@,
                "-t"@,
                sess@,
                "-F"@,
                CONTENT_FORMAT@,
            ]);
        }
    }
    Some(args)
}

/// The order content search reads windows in: recency, with the window the
/// client is on hoisted to the front.
pub fn content_order(listing: &str, cur: &str) -> (out: String)
    ensures
        out@ == current_first_of(strip_sort_keys_of(listing@, Order::Recency), cur@),
{
    let ordered = strip_sort_keys(listing, Order::Recency);
    current_first(ordered.as_str(), cur)
}

/// The tmux arguments that capture a window's pane from the start of its
/// scrollback, with colours.
pub fn capture_args(target: &str) -> (args: Vec<String>)
    ensures
        string_views(args@) == seq!["capture-pane"@, "-ep"@, "-S"@, "-"@, "-t"@, target@],
{
    let mut args: Vec<String> = Vec::new();
    args.push(String::from_str("capture-pane"));
    args.push(String::from_str("-ep"));
    args.push(String::from_str("-S"));
    args.push(String::from_str("-"));
    args.push(String::from_str("-t"));
    args.push(String::from_str(target));
    assert(string_views(args@) =~= seq![
        "capture-pane"@,
        "-ep"@,
        "-S"@,
        "-"@,
        "-t"@,
        target@,
    ]);
    args
}

/// The content picker's border label: it names the session when one session
/// is the scope.
pub fn content_label(all: bool, sess: &str) -> (label: String)
    ensures
        label@ == if all {
            "--list-label= content · enter jump "@
        } else {
            "--list-label= content · "@ + sess@ + " · enter jump "@
        },
{
    if all {
        String::from_str("--list-label= content · enter jump ")
    } else {
        let mut l = String::from_str("--list-label= content · ");
        l.append(sess);
        l.append(" · enter jump ");
        l
    }
}

/// The content picker's preview: the capture with the picked line reversed.
pub const CONTENT_PREVIEW: &'static str = "--preview=tmux capture-pane -ep -S - -t {1} | awk -v n={2} 'NR==n{print \"\\033[7m\" $0 \"\\033[0m\"; next}{print}'";

/// The fzf arguments of the content picker, after the shared style.
pub fn content_picker_args(label: &str) -> (args: Vec<String>)
    ensures
        string_views(args@) == seq![
            "--tiebreak=index"@,
            "--delimiter=\t"@,
            "--with-nth=3.."@,
            "--ansi"@,
            label@,
            CONTENT_PREVIEW@,
            "--preview-window=down,55%,border-top,+{2}-/2"@,
        ],
{
    let mut args: Vec<String> = Vec::new();
    args.push(String::from_str("--tiebreak=index"));
    args.push(String::from_str("--delimiter=\t"));
    args.push(String::from_str("--with-nth=3.."));
    args.push(String::from_str("--ansi"));
    args.push(String::from_str(label));
    args.push(String::from_str(CONTENT_PREVIEW));
    args.push(String::from_str("--preview-window=down,55%,border-top,+{2}-/2"));
    assert(string_views(args@) =~= seq![
        "--tiebreak=index"@,
        "--delimiter=\t"@,
        "--with-nth=3.."@,
        "--ansi"@,
        label@,
        CONTENT_PREVIEW@,
        "--preview-window=down,55%,border-top,+{2}-/2"@,
    ]);
    args
}

/// What a picked content row means: its first tab field is the window, and its
/// second, trimmed and read as a number, the line to land on.
pub open spec fn content_choice_of(sel: Seq<char>) -> (Seq<char>, Option<i64>) {
    let fields = split(sel, '\t');
    (fields[0], if fields.len() >= 2 {
        parse_i64(trim(fields[1]))
    } else {
        None
    })
}

/// The window and line number of a picked content row.
pub fn content_choice(sel: &str) -> (r: (String, Option<i64>))
    ensures
        r.0@ == content_choice_of(sel@).0,
        r.1 == content_choice_of(sel@).1,
{
    let v = chars_of(sel);
    let fields = split_chars(&v, '\t');
    proof {
        crate::text::lemma_split_len(v@, '\t');
    }
    assert(views(fields@)[0] == fields@[0]@);
    let target = string_of(&fields[0]);
    let n = if fields.len() >= 2 {
        assert(views(fields@)[1] == fields@[1]@);
        let t = trim_chars(&fields[1]);
        parse_i64_chars(&t)
    } else {
        None
    };
    (target, n)
}

/// A picked content row reads back as the window and line number it was
/// written with: `target<TAB>lineno<TAB>line` (fzf prints it without the
/// newline) gives `target` and `lineno` back, whatever the line holds.
pub proof fn a_picked_row_reads_back_as_its_window_and_line(
    target: Seq<char>,
    n: nat,
    line: Seq<char>,
)
    requires
        !target.contains('\t'),
        n <= i64::MAX,
    ensures
        content_row(target, n, line) == target + seq!['\t'] + decimal(n) + seq!['\t'] + line
            + seq!['\n'],
        content_choice_of(target + seq!['\t'] + decimal(n) + seq!['\t'] + line) == (
            target,
            Some(n as i64),
        ),
{
    let d = decimal(n);
    let rest = d + seq!['\t'] + line;
    let sel = target + seq!['\t'] + decimal(n) + seq!['\t'] + line;
    assert(sel =~= target + seq!['\t'] + rest);
    decimal_is_the_digits_of_n(n);
    parsing_a_written_number_gives_it_back(n);
    assert(!d.contains('\t')) by {
        if d.contains('\t') {
            let k = choose|k: int| 0 <= k < d.len() && d[k] == '\t';
            assert(is_digit(d[k]));
        }
    }
    lemma_split_concat(target, '\t', rest);
    lemma_split_without_sep(target, '\t');
    lemma_split_concat(d, '\t', line);
    lemma_split_without_sep(d, '\t');
    lemma_split_len(line, '\t');
    let fields = split(sel, '\t');
    assert(fields == seq![target] + (seq![d] + split(line, '\t')));
    assert(fields[0] == target);
    assert(fields[1] == d);
    assert(is_digit(d[0]) && is_digit(d.last()));
    assert(trim_start(d) == d);
    assert(trim_end(d) == d);
}

/// The session of a `session:index` target is what precedes its first `:`; it
/// holds no `:` itself, and a target without `:` names no session.
pub proof fn the_session_precedes_the_first_colon(cur: Seq<char>)
    ensures
        !session_of_target(cur).contains(':'),
        cur.contains(':') ==> cur.take(session_of_target(cur).len() as int) == session_of_target(
            cur,
        ) && cur[session_of_target(cur).len() as int] == ':',
        !cur.contains(':') ==> session_of_target(cur).len() == 0,
{
    lemma_first_index_some(cur, ':');
    if let Some(i) = first_index(cur, ':') {
        let s = cur.take(i);
        assert(s.len() == i);
        if s.contains(':') {
            let k = choose|k: int| 0 <= k < s.len() && s[k] == ':';
            assert(cur[k] == ':');
        }
    } else {
        assert(session_of_target(cur) =~= Seq::<char>::empty());
    }
}

} // verus!
