//! The window picker: its fzf arguments, what a picked row means, the preview
//! of a pane, and the guarded kill.

use vstd::prelude::*;

use crate::order::{alerts_header, alerts_header_of, windows_header, windows_header_of, Order};
use crate::text::{
    byte_views, chars_eq, chars_of, has_char, join, parse_i64, parse_i64_chars, parse_usize,
    parse_usize_chars, split, split_bytes, string_of, string_views, trim, trim_chars, views, words,
    words_of,
};

verus! {

/// fzf's field that holds the window target: the first, or the second when
/// the state marker leads the row.
pub open spec fn target_field(alerts: bool) -> Seq<char> {
    if alerts {
        "{2}"@
    } else {
        "{1}"@
    }
}

/// The flag that keeps a reload in the view it came from.
pub open spec fn mode_flag(alerts: bool) -> Seq<char> {
    if alerts {
        " --alerts"@
    } else {
        ""@
    }
}

/// The window picker's fzf arguments (after the shared style) for the
/// program at `exe`, in the alerts view or the full one, with order `mode`:
/// index tiebreak, the header label, ctrl-g to flip the order, the preview,
/// its window, ctrl-x to kill, ctrl-j to capture.
pub open spec fn windows_picker_args_of(exe: Seq<char>, alerts: bool, mode: Order) -> Seq<
    Seq<char>,
> {
    let tgt = target_field(alerts);
    let m = mode_flag(alerts);
    seq![
        "--tiebreak=index"@,
        "--list-label="@ + if alerts {
            alerts_header_of(mode)
        } else {
            windows_header_of(mode)
        },
        "--bind=ctrl-g:execute-silent("@ + exe + " sort --toggle)+reload("@ + exe
            + " windows --list"@ + m + ")+transform-list-label("@ + exe + " sort --header)"@,
        "--preview="@ + exe + " peek "@ + tgt,
        "--preview-window=down,55%,border-top"@,
        "--bind=ctrl-x:execute-silent("@ + exe + " kill "@ + tgt + ")+reload("@ + exe
            + " windows --list"@ + m + ")"@,
        "--bind=ctrl-j:execute-silent("@ + exe + " capture --pager nvim --target "@ + tgt
            + ")+abort"@,
    ]
}

/// The window picker's fzf arguments ([`windows_picker_args_of`]).
pub fn windows_picker_args(exe: &str, alerts: bool, mode: Order) -> (args: Vec<String>)
    ensures
        string_views(args@) == windows_picker_args_of(exe@, alerts, mode),
{
    let tgt = if alerts {
        "{2}"
    } else {
        "{1}"
    };
    let m = if alerts {
        " --alerts"
    } else {
        ""
    };
    let mut header = String::from_str("--list-label=");
    if alerts {
        let h = alerts_header(mode);
        header.append(h.as_str());
    } else {
        let h = windows_header(mode);
        header.append(h.as_str());
    }
    let mut order = String::from_str("--bind=ctrl-g:execute-silent(");
    order.append(exe);
    order.append(" sort --toggle)+reload(");
    order.append(exe);
    order.append(" windows --list");
    order.append(m);
    order.append(")+transform-list-label(");
    order.append(exe);
    order.append(" sort --header)");
    let mut preview = String::from_str("--preview=");
    preview.append(exe);
    preview.append(" peek ");
    preview.append(tgt);
    let mut kill = String::from_str("--bind=ctrl-x:execute-silent(");
    kill.append(exe);
    kill.append(" kill ");
    kill.append(tgt);
    kill.append(")+reload(");
    kill.append(exe);
    kill.append(" windows --list");
    kill.append(m);
    kill.append(")");
    let mut capture = String::from_str("--bind=ctrl-j:execute-silent(");
    capture.append(exe);
    capture.append(" capture --pager nvim --target ");
    capture.append(tgt);
    capture.append(")+abort");
    let mut args: Vec<String> = Vec::new();
    args.push(String::from_str("--tiebreak=index"));
    args.push(header);
    args.push(order);
    args.push(preview);
    args.push(String::from_str("--preview-window=down,55%,border-top"));
    args.push(kill);
    args.push(capture);
    assert(string_views(args@) =~= windows_picker_args_of(exe@, alerts, mode));
    args
}

/// The first word of `ws` that holds a `:`, the shape of a window target.
pub open spec fn first_target(ws: Seq<Seq<char>>) -> Option<Seq<char>>
    decreases ws.len(),
{
    if ws.len() == 0 {
        None
    } else if ws[0].contains(':') {
        Some(ws[0])
    } else {
        first_target(ws.drop_first())
    }
}

/// The window a picked row names: its first whitespace field that looks like
/// a `session:index` target. In the alerts view the state marker comes first,
/// so the first field is not always the target.
pub fn selected_window(sel: &str) -> (r: Option<String>)
    ensures
        match r {
            Some(t) => first_target(words(sel@)) == Some(t@),
            None => first_target(words(sel@)) is None,
        },
{
    let v = chars_of(sel);
    let ws = words_of(&v);
    let n = ws.len();
    let ghost all = views(ws@);
    assert(all.skip(0) =~= all);
    for i in 0..n
        invariant
            n == ws.len(),
            all == views(ws@),
            all == words(sel@),
            first_target(all) == first_target(all.skip(i as int)),
    {
        let ghost rest = all.skip(i as int);
        assert(rest[0] == ws@[i as int]@);
        if has_char(&ws[i], ':') {
            assert(rest.len() > 0);
            assert(first_target(rest) == Some(rest[0]));
            return Some(string_of(&ws[i]));
        }
        assert(rest.drop_first() =~= all.skip(i + 1));
    }
    assert(all.skip(n as int) =~= Seq::<Seq<char>>::empty());
    None
}

/// How many lines the preview shows: fzf's `$FZF_PREVIEW_LINES` when it is a
/// number, else 40.
pub open spec fn preview_height(var: Option<Seq<char>>) -> int {
    match var {
        Some(s) => match parse_usize(s) {
            Some(n) => n as int,
            None => 40,
        },
        None => 40,
    }
}

/// What [`peek_view`] shows of the pane's screen `raw`: all of it, top-down,
/// when an alternate-screen program (a TUI) is running; otherwise only its last
/// lines, bottom-aligned like `tail`.
pub open spec fn peek_view_of(raw: Seq<u8>, alternate: Seq<char>, var: Option<Seq<char>>) -> Seq<
    u8,
> {
    if trim(alternate) == "1"@ {
        raw
    } else {
        let ls = split(raw, 10u8);
        let n = preview_height(var);
        let start = if ls.len() > n {
            ls.len() - n
        } else {
            0
        };
        join(ls.skip(start), seq![10u8])
    }
}

/// The pane preview: `raw` is the captured screen, `alternate` tmux's
/// `#{alternate_on}`, `preview_lines` the preview height fzf exports. Works
/// on bytes, so colour escapes pass through intact.
pub fn peek_view(raw: &[u8], alternate: &str, preview_lines: Option<&str>) -> (out: Vec<u8>)
    ensures
        out@ == peek_view_of(
            raw@,
            alternate@,
            match preview_lines {
                Some(s) => Some(s@),
                None => None,
            },
        ),
{
    let av = chars_of(alternate);
    let at = trim_chars(&av);
    let one = chars_of("1");
    if chars_eq(&at, &one) {
        let mut out: Vec<u8> = Vec::new();
        let n = raw.len();
        for i in 0..n
            invariant
                n == raw@.len(),
                out@ == raw@.take(i as int),
        {
            out.push(raw[i]);
            assert(raw@.take(i + 1) =~= raw@.take(i as int).push(raw@[i as int]));
        }
        assert(raw@.take(n as int) =~= raw@);
        return out;
    }
    let height: usize = match preview_lines {
        Some(s) => {
            let sv = chars_of(s);
            match parse_usize_chars(&sv) {
                Some(h) => h,
                None => 40,
            }
        },
        None => 40,
    };
    let ls = split_bytes(raw, 10u8);
    let len = ls.len();
    let start = if len > height {
        len - height
    } else {
        0
    };
    let mut kept: Vec<Vec<u8>> = Vec::new();
    for i in start..len
        invariant
            len == ls.len(),
            start <= len,
            byte_views(kept@) == byte_views(ls@).subrange(start as int, i as int),
    {
        let line = crate::text::dup(&ls[i]);
        let ghost before = kept@;
        kept.push(line);
        assert(byte_views(kept@) =~= byte_views(before).push(line@));
        assert(byte_views(ls@).subrange(start as int, i + 1) =~= byte_views(ls@).subrange(
            start as int,
            i as int,
        ).push(ls@[i as int]@));
    }
    assert(byte_views(ls@).subrange(start as int, len as int) =~= byte_views(ls@).skip(
        start as int,
    ));
    crate::text::join_bytes(&kept, 10u8)
}

/// The popup body that refuses to kill the last window of a session.
pub open spec fn last_window_warning(target: Seq<char>) -> Seq<char> {
    "printf '\\n  \\033[1;33m"@ + target
        + "\\033[0m is the only window in its session.\\n  Killing it would kill the session — left untouched.\\n\\n  Press Enter to dismiss…'; read -r _ </dev/tty"@
}

/// What [`kill_command`] runs: `kill-window` when the session has more than
/// one window (the reply `count_reply` to `#{session_windows}`, trimmed, read
/// as a number, 0 when unreadable); otherwise a warning popup, so the session
/// is never killed with its last window.
pub open spec fn kill_command_of(target: Seq<char>, count_reply: Seq<char>) -> Seq<Seq<char>> {
    let count = match parse_i64(trim(count_reply)) {
        Some(c) => c as int,
        None => 0,
    };
    if count > 1 {
        seq!["kill-window"@, "-t"@, target]
    } else {
        seq![
            "display-popup"@,
            "-E"@,
            "-T"@,
            " won't kill last window "@,
            "-w"@,
            "60%"@,
            "-h"@,
            "30%"@,
            "sh"@,
            "-c"@,
            last_window_warning(target),
        ]
    }
}

/// The tmux command that kills `target`, or warns instead when it is the only
/// window in its session ([`kill_command_of`]).
pub fn kill_command(target: &str, count_reply: &str) -> (args: Vec<String>)
    ensures
        string_views(args@) == kill_command_of(target@, count_reply@),
{
    let cv = chars_of(count_reply);
    let ct = trim_chars(&cv);
    let count: i64 = match parse_i64_chars(&ct) {
        Some(c) => c,
        None => 0,
    };
    let mut args: Vec<String> = Vec::new();
    if count > 1 {
        args.push(String::from_str("kill-window"));
        args.push(String::from_str("-t"));
        args.push(String::from_str(target));
        assert(string_views(args@) =~= kill_command_of(target@, count_reply@));
        return args;
    }
    let mut body = String::from_str("printf '\\n  \\033[1;33m");
    body.append(target);
    body.append(
        "\\033[0m is the only window in its session.\\n  Killing it would kill the session — left untouched.\\n\\n  Press Enter to dismiss…'; read -r _ </dev/tty",
    );
    args.push(String::from_str("display-popup"));
    args.push(String::from_str("-E"));
    args.push(String::from_str("-T"));
    args.push(String::from_str(" won't kill last window "));
    args.push(String::from_str("-w"));
    args.push(String::from_str("60%"));
    args.push(String::from_str("-h"));
    args.push(String::from_str("30%"));
    args.push(String::from_str("sh"));
    args.push(String::from_str("-c"));
    args.push(body);
    assert(string_views(args@) =~= kill_command_of(target@, count_reply@));
    args
}

/// The picked row's target is its first whitespace field holding a `:`, not a
/// later one (a pane title may hold one too); with no such field there is none.
pub proof fn the_target_is_the_first_field_with_a_colon(ws: Seq<Seq<char>>, i: int)
    requires
        0 <= i < ws.len(),
        ws[i].contains(':'),
        forall|j: int| 0 <= j < i ==> !(#[trigger] ws[j]).contains(':'),
    ensures
        first_target(ws) == Some(ws[i]),
    decreases i,
{
    if i > 0 {
        let rest = ws.drop_first();
        assert forall|j: int| 0 <= j < i - 1 implies !(#[trigger] rest[j]).contains(':') by {
            assert(rest[j] == ws[j + 1]);
        }
        assert(!ws[0].contains(':'));
        assert(rest[i - 1] == ws[i]);
        the_target_is_the_first_field_with_a_colon(rest, i - 1);
    }
}

/// A row with no field holding a `:` names no window.
pub proof fn no_colon_no_target(ws: Seq<Seq<char>>)
    requires
        forall|j: int| 0 <= j < ws.len() ==> !(#[trigger] ws[j]).contains(':'),
    ensures
        first_target(ws) is None,
    decreases ws.len(),
{
    if ws.len() > 0 {
        let rest = ws.drop_first();
        assert forall|j: int| 0 <= j < rest.len() implies !(#[trigger] rest[j]).contains(':') by {
            assert(rest[j] == ws[j + 1]);
        }
        assert(!ws[0].contains(':'));
        no_colon_no_target(rest);
    }
}

/// A window is killed whenever its session has at least two windows; only a
/// count of one or less (or an unreadable one) brings up the warning instead.
pub proof fn a_window_is_killed_unless_it_is_the_last(target: Seq<char>, count_reply: Seq<char>)
    ensures
        (parse_i64(trim(count_reply)) matches Some(c) && c >= 2) ==> kill_command_of(
            target,
            count_reply,
        ) == seq!["kill-window"@, "-t"@, target],
        !(parse_i64(trim(count_reply)) matches Some(c) && c >= 2) ==> kill_command_of(
            target,
            count_reply,
        )[0] == "display-popup"@ && kill_command_of(target, count_reply).len() == 11,
{
}

/// The preview of an alternate-screen program is the screen as it is; the
/// preview of a shell is the screen's last lines, as many as the preview is
/// high (all of them when there are fewer), unchanged and in order.
pub proof fn a_shell_preview_is_the_last_lines(
    raw: Seq<u8>,
    alternate: Seq<char>,
    var: Option<Seq<char>>,
)
    ensures
        trim(alternate) == "1"@ ==> peek_view_of(raw, alternate, var) == raw,
        trim(alternate) != "1"@ && preview_height(var) >= 1 ==> ({
            let ls = split(raw, 10u8);
            let shown = if ls.len() > preview_height(var) {
                preview_height(var)
            } else {
                ls.len() as int
            };
            split(peek_view_of(raw, alternate, var), 10u8) == ls.subrange(
                ls.len() - shown,
                ls.len() as int,
            )
        }),
{
    let ls = split(raw, 10u8);
    crate::text::lemma_split_len(raw, 10u8);
    if trim(alternate) != "1"@ && preview_height(var) >= 1 {
        let n = preview_height(var);
        let start = if ls.len() > n {
            ls.len() - n
        } else {
            0
        };
        let kept = ls.skip(start);
        assert(kept.len() >= 1);
        assert forall|i: int| 0 <= i < kept.len() implies !(#[trigger] kept[i]).contains(10u8) by {
            let q = kept[i];
            assert(q == ls[start + i]);
            if q.contains(10u8) {
                let j = choose|j: int| 0 <= j < q.len() && q[j] == 10u8;
                crate::text::lemma_split_pieces(raw, 10u8, start + i, j);
            }
        }
        crate::text::lemma_split_of_join(kept, 10u8);
        assert(kept =~= ls.subrange(start, ls.len() as int));
    }
}

} // verus!
