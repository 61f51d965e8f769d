//! Capturing a pane's scrollback into a new window: which pane, which flags,
//! where the viewer opens, which viewer, and what the window inherits.

use vstd::prelude::*;

use crate::position::{top_line, top_line_fits, top_line_of, word_number, word_or_zero};
use crate::text::{
    chars_eq, chars_of, decimal, parse_i64_chars, push_decimal, split_chars, string_of,
    string_views, trim, trim_chars, views, words, words_of,
};
use crate::env::record_name;
use crate::trusted::{erase_byte_matches, regex_erase_bytes};

verus! {

/// The viewer a capture opens in.
#[derive(Clone, Copy, PartialEq, Eq, Structural, Debug)]
pub enum Pager {
    /// nvim, colours kept (through baleia when it is installed).
    Nvim,
    /// less, colours kept.
    Less,
    /// nvim, colours dropped: plain text.
    Plain,
}

/// `-t <target>` when a target is given: every read then goes to that pane,
/// otherwise to the current one.
pub open spec fn target_flag(target: Option<Seq<char>>) -> Seq<Seq<char>> {
    match target {
        Some(t) => seq!["-t"@, t],
        None => Seq::empty(),
    }
}

/// The view of an optional string.
pub open spec fn opt_view(o: Option<&str>) -> Option<Seq<char>> {
    match o {
        Some(s) => Some(s@),
        None => None,
    }
}

/// Appends `-t <target>` when there is a target.
fn push_target(args: &mut Vec<String>, target: Option<&str>)
    ensures
        string_views(final(args)@) == string_views(old(args)@) + target_flag(opt_view(target)),
{
    let ghost before = args@;
    match target {
        Some(t) => {
            args.push(String::from_str("-t"));
            args.push(String::from_str(t));
            assert(string_views(args@) =~= string_views(before) + seq!["-t"@, t@]);
        },
        None => {
            assert(string_views(args@) =~= string_views(before) + Seq::<Seq<char>>::empty());
        },
    }
}

/// The tmux arguments that ask the pane about `fmt`.
pub fn display_args(target: Option<&str>, fmt: &str) -> (args: Vec<String>)
    ensures
        string_views(args@) == seq!["display-message"@, "-p"@] + target_flag(opt_view(target))
            + seq![fmt@],
{
    let mut args: Vec<String> = Vec::new();
    args.push(String::from_str("display-message"));
    args.push(String::from_str("-p"));
    assert(string_views(args@) =~= seq!["display-message"@, "-p"@]);
    push_target(&mut args, target);
    let ghost before = args@;
    args.push(String::from_str(fmt));
    assert(string_views(args@) =~= string_views(before).push(fmt@));
    args
}

/// The `capture-pane` flags for a viewer: the plain one drops colour escapes.
pub open spec fn capture_flag(pager: Pager) -> Seq<char> {
    match pager {
        Pager::Plain => "-p"@,
        _ => "-pe"@,
    }
}

/// The tmux arguments that capture the whole scrollback of the pane.
pub fn capture_pane_args(pager: Pager, target: Option<&str>) -> (args: Vec<String>)
    ensures
        string_views(args@) == seq!["capture-pane"@, capture_flag(pager), "-S"@, "-"@]
            + target_flag(opt_view(target)),
{
    let mut args: Vec<String> = Vec::new();
    args.push(String::from_str("capture-pane"));
    match pager {
        Pager::Plain => args.push(String::from_str("-p")),
        _ => args.push(String::from_str("-pe")),
    }
    args.push(String::from_str("-S"));
    args.push(String::from_str("-"));
    assert(string_views(args@) =~= seq!["capture-pane"@, capture_flag(pager), "-S"@, "-"@]);
    push_target(&mut args, target);
    args
}

/// The viewer's first line for the reply `disp` to
/// `#{history_size} #{scroll_position}`: the history size (0 when missing or
/// unreadable) and the scroll position (`None` when missing or unreadable).
pub open spec fn capture_top_of(disp: Seq<char>) -> int {
    let ws = words(disp);
    top_line_of(word_or_zero(ws, 0), word_number(ws, 1))
}

/// The vim command that opens the capture on its top line: `normal! <n>Gzt`,
/// or `None` when the numbers are too large to compute the line.
pub open spec fn capture_position_of(disp: Seq<char>) -> Option<Seq<char>> {
    let ws = words(disp);
    if top_line_fits(word_or_zero(ws, 0), word_number(ws, 1)) {
        Some("normal! "@ + decimal(capture_top_of(disp) as nat) + "Gzt"@)
    } else {
        None
    }
}

/// The vim command that puts the capture's first visible line where the pane
/// shows its own ([`capture_position_of`]).
pub fn capture_position(disp: &str) -> (r: Option<String>)
    ensures
        match r {
            Some(s) => capture_position_of(disp@) == Some(s@),
            None => capture_position_of(disp@) is None,
        },
{
    let dv = chars_of(disp);
    let ws = words_of(&dv);
    let hist = if ws.len() > 0 {
        assert(views(ws@)[0] == ws@[0]@);
        match parse_i64_chars(&ws[0]) {
            Some(h) => h,
            None => 0,
        }
    } else {
        0
    };
    let scroll = if ws.len() > 1 {
        assert(views(ws@)[1] == ws@[1]@);
        parse_i64_chars(&ws[1])
    } else {
        None
    };
    assert(hist as int == word_or_zero(views(ws@), 0));
    assert(scroll == word_number(views(ws@), 1));
    if hist == i64::MAX {
        return None;
    }
    match scroll {
        Some(sp) => {
            if sp > 0 && (hist as i128) + 1 - (sp as i128) < i64::MIN as i128 {
                return None;
            }
        },
        None => {},
    }
    let top = top_line(hist, scroll);
    let mut v: Vec<char> = Vec::new();
    let mut s = String::from_str("normal! ");
    push_decimal(&mut v, top as u64);
    assert(v@ =~= decimal(top as nat));
    let num = string_of(&v);
    s.append(num.as_str());
    s.append("Gzt");
    Some(s)
}

/// The shell command that views the capture file `path`, opening on `pos`.
pub open spec fn pager_command_of(pager: Pager, pos: Seq<char>, path: Seq<char>) -> Seq<char> {
    match pager {
        Pager::Plain => "nvim -n -c '"@ + pos + "' '"@ + path + "'"@,
        Pager::Less => "less -RN +G '"@ + path + "'"@,
        Pager::Nvim => "nvim -n -c 'lua pcall(function() require([[baleia]]).setup().once(0) end)' -c '"@
            + pos + "' '"@ + path + "'"@,
    }
}

/// The shell command that views the capture: nvim (through baleia for
/// colour), less, or plain nvim.
pub fn pager_command(pager: Pager, pos: &str, path: &str) -> (cmd: String)
    ensures
        cmd@ == pager_command_of(pager, pos@, path@),
{
    match pager {
        Pager::Plain => {
            let mut c = String::from_str("nvim -n -c '");
            c.append(pos);
            c.append("' '");
            c.append(path);
            c.append("'");
            c
        },
        Pager::Less => {
            let mut c = String::from_str("less -RN +G '");
            c.append(path);
            c.append("'");
            c
        },
        Pager::Nvim => {
            let mut c = String::from_str(
                "nvim -n -c 'lua pcall(function() require([[baleia]]).setup().once(0) end)' -c '",
            );
            c.append(pos);
            c.append("' '");
            c.append(path);
            c.append("'");
            c
        },
    }
}

/// `-e NAME=VALUE` for each record, in order.
pub open spec fn env_flags(records: Seq<Seq<char>>) -> Seq<Seq<char>>
    decreases records.len(),
{
    if records.len() == 0 {
        Seq::empty()
    } else {
        env_flags(records.drop_last()) + seq!["-e"@, records.last()]
    }
}

/// Appends `-e NAME=VALUE` for each record.
fn push_env(args: &mut Vec<String>, records: &Vec<String>)
    ensures
        string_views(final(args)@) == string_views(old(args)@) + env_flags(
            string_views(records@),
        ),
{
    let ghost start = string_views(args@);
    let ghost recs = string_views(records@);
    assert(recs.take(0) =~= Seq::<Seq<char>>::empty());
    assert(start + env_flags(recs.take(0)) =~= start);
    let n = records.len();
    for i in 0..n
        invariant
            n == records.len(),
            recs == string_views(records@),
            string_views(args@) == start + env_flags(recs.take(i as int)),
    {
        let ghost before = args@;
        args.push(String::from_str("-e"));
        args.push(records[i].clone());
        assert(recs.take(i + 1).drop_last() =~= recs.take(i as int));
        assert(recs[i as int] == records@[i as int]@);
        assert(string_views(args@) =~= string_views(before) + seq!["-e"@, recs[i as int]]);
    }
    assert(recs.take(n as int) =~= recs);
}

/// The tmux arguments that open the capture window: in the pane's directory,
/// with the pane's exported environment, running the viewer.
pub fn new_window_args(cwd: &str, records: &Vec<String>, shell: &str) -> (args: Vec<String>)
    ensures
        string_views(args@) == seq!["new-window"@, "-c"@, cwd@] + env_flags(string_views(records@))
            + seq![shell@],
{
    let mut args: Vec<String> = Vec::new();
    args.push(String::from_str("new-window"));
    args.push(String::from_str("-c"));
    args.push(String::from_str(cwd));
    assert(string_views(args@) =~= seq!["new-window"@, "-c"@, cwd@]);
    push_env(&mut args, records);
    let ghost before = args@;
    args.push(String::from_str(shell));
    assert(string_views(args@) =~= string_views(before).push(shell@));
    args
}

/// Whether the capture opens in place, in a popup over its pane: the
/// `@capture-overlay` option (tmux's reply `overlay_reply`, trimmed) is `on`,
/// and the viewer is nvim (plain or coloured); less always gets a window.
pub open spec fn overlay_wanted_of(pager: Pager, overlay_reply: Seq<char>) -> bool {
    pager != Pager::Less && trim(overlay_reply) == "on"@
}

/// Whether the capture opens in place ([`overlay_wanted_of`]).
pub fn overlay_wanted(pager: Pager, overlay_reply: &str) -> (b: bool)
    ensures
        b == overlay_wanted_of(pager, overlay_reply@),
{
    if pager == Pager::Less {
        return false;
    }
    let v = chars_of(overlay_reply);
    let t = trim_chars(&v);
    chars_eq(&t, &chars_of("on"))
}

/// Whether `c` may stand in a variable name the promoted window passes on:
/// an ASCII letter, digit or `_`.
pub open spec fn is_name_char(c: char) -> bool {
    let u = c as u32;
    (48 <= u <= 57) || (65 <= u <= 90) || (97 <= u <= 122) || u == 95
}

/// Whether a variable name is plain (non-empty, letters, digits and `_`),
/// so it can be written into the promotion mapping as it is.
pub open spec fn plain_name(n: Seq<char>) -> bool {
    n.len() > 0 && forall|i: int| 0 <= i < n.len() ==> is_name_char(#[trigger] n[i])
}

/// The `-e NAME=<value>` arguments the promotion mapping passes to the new
/// window, one for each record with a plain name; the values are read from
/// the viewer's own environment, which the popup was given from the records.
pub open spec fn promote_env(records: Seq<Seq<char>>) -> Seq<char>
    decreases records.len(),
{
    if records.len() == 0 {
        Seq::empty()
    } else {
        let name = record_name(records.last());
        promote_env(records.drop_last()) + if plain_name(name) {
            ", \"-e\", \""@ + name + "=\" . getenv(\""@ + name + "\")"@
        } else {
            ""@
        }
    }
}

/// The colour setup of the promoted viewer, written inside a vim string.
pub open spec fn promoted_colour(pager: Pager) -> Seq<char> {
    if pager == Pager::Plain {
        ""@
    } else {
        "-c \\\"lua pcall(function() require([[baleia]]).setup().once(0) end)\\\" "@
    }
}

/// The viewer for the popup: nvim without its gutter, statusline, cmdline and
/// scrolloff, each of which would shift the text against the lines it is drawn
/// over, opening on `pos`. `P` promotes it to a window of its own at the line
/// under the cursor: in the same directory (the popup's), with the same
/// records passed on, the same colour setup and the `@capture` flag, after
/// which the popup closes. The coloured viewer runs the capture through baleia.
pub open spec fn popup_viewer_of(
    pager: Pager,
    pos: Seq<char>,
    path: Seq<char>,
    records: Seq<Seq<char>>,
) -> Seq<char> {
    let colour = if pager == Pager::Plain {
        ""@
    } else {
        "-c 'lua pcall(function() require([[baleia]]).setup().once(0) end)' "@
    };
    "nvim -n "@ + colour
        + "-c 'setlocal nonumber norelativenumber signcolumn=no foldcolumn=0' -c 'set laststatus=0 cmdheight=0 scrolloff=0' -c 'nnoremap <buffer> P <Cmd>call system([\"tmux\", \"new-window\", \"-c\", getcwd()"@
        + promote_env(records) + ", \"tmux set -w @capture 1; nvim -n "@ + promoted_colour(pager)
        + "+\" . line(\".\") . \" "@ + path + "\"])<Bar>qa!<CR>' -c '"@ + pos + "' '"@ + path
        + "'"@
}

/// Whether `name` is plain ([`plain_name`]).
fn is_plain_name(name: &Vec<char>) -> (b: bool)
    ensures
        b == plain_name(name@),
{
    let n = name.len();
    if n == 0 {
        return false;
    }
    for i in 0..n
        invariant
            n == name.len(),
            forall|j: int| 0 <= j < i ==> is_name_char(#[trigger] name@[j]),
    {
        let u = name[i] as u32;
        if !((48 <= u && u <= 57) || (65 <= u && u <= 90) || (97 <= u && u <= 122) || u == 95) {
            return false;
        }
    }
    true
}

/// Appends the promotion mapping's `-e` arguments ([`promote_env`]).
fn push_promote_env(out: &mut String, records: &Vec<String>)
    ensures
        final(out)@ == old(out)@ + promote_env(string_views(records@)),
{
    let ghost start = out@;
    let ghost recs = string_views(records@);
    assert(recs.take(0) =~= Seq::<Seq<char>>::empty());
    assert(start + promote_env(recs.take(0)) =~= start);
    let n = records.len();
    for i in 0..n
        invariant
            n == records.len(),
            recs == string_views(records@),
            out@ == start + promote_env(recs.take(i as int)),
    {
        let kv = chars_of(records[i].as_str());
        let pieces = split_chars(&kv, '=');
        proof {
            crate::text::lemma_split_len(kv@, '=');
        }
        assert(views(pieces@)[0] == pieces@[0]@);
        assert(recs.take(i + 1).drop_last() =~= recs.take(i as int));
        assert(recs.take(i + 1).last() == records@[i as int]@);
        let ghost before = out@;
        if is_plain_name(&pieces[0]) {
            let name = string_of(&pieces[0]);
            out.append(", \"-e\", \"");
            out.append(name.as_str());
            out.append("=\" . getenv(\"");
            out.append(name.as_str());
            out.append("\")");
            assert(out@ =~= before + (", \"-e\", \""@ + name@ + "=\" . getenv(\""@ + name@
                + "\")"@));
        } else {
            proof {
                reveal_strlit("");
            }
            assert(out@ =~= before + ""@);
        }
    }
    assert(recs.take(n as int) =~= recs);
}

/// The popup's viewer ([`popup_viewer_of`]).
pub fn popup_viewer(pager: Pager, pos: &str, path: &str, records: &Vec<String>) -> (cmd: String)
    ensures
        cmd@ == popup_viewer_of(pager, pos@, path@, string_views(records@)),
{
    let mut c = String::from_str("nvim -n ");
    proof {
        reveal_strlit("");
        assert("nvim -n "@ + ""@ =~= "nvim -n "@);
    }
    if pager != Pager::Plain {
        c.append("-c 'lua pcall(function() require([[baleia]]).setup().once(0) end)' ");
    }
    c.append(
        "-c 'setlocal nonumber norelativenumber signcolumn=no foldcolumn=0' -c 'set laststatus=0 cmdheight=0 scrolloff=0' -c 'nnoremap <buffer> P <Cmd>call system([\"tmux\", \"new-window\", \"-c\", getcwd()",
    );
    push_promote_env(&mut c, records);
    c.append(", \"tmux set -w @capture 1; nvim -n ");
    let ghost mid = c@;
    if pager != Pager::Plain {
        c.append("-c \\\"lua pcall(function() require([[baleia]]).setup().once(0) end)\\\" ");
    } else {
        assert(c@ =~= mid + ""@);
    }
    c.append("+\" . line(\".\") . \" ");
    c.append(path);
    c.append("\"])<Bar>qa!<CR>' -c '");
    c.append(pos);
    c.append("' '");
    c.append(path);
    c.append("'");
    assert(c@ =~= popup_viewer_of(pager, pos@, path@, string_views(records@)));
    c
}

/// The pane's size from tmux's reply to `#{pane_width} #{pane_height}`:
/// both present and positive, or `None`.
pub open spec fn pane_size_of(geometry: Seq<char>) -> Option<(i64, i64)> {
    let ws = words(geometry);
    match (word_number(ws, 0), word_number(ws, 1)) {
        (Some(w), Some(h)) => if w > 0 && h > 0 {
            Some((w, h))
        } else {
            None
        },
        _ => None,
    }
}

/// The command that opens the capture, with the `@capture` window flag raised
/// while it is up. In place ([`overlay_wanted_of`], and the pane's size is
/// known): a borderless popup of the pane's size pinned to its bottom-left
/// corner, in its directory and environment, lowering the flag on the pane's
/// window when it closes. Otherwise a new window running the viewer, whose flag
/// goes with it.
pub open spec fn capture_command_of(
    pager: Pager,
    overlay_reply: Seq<char>,
    geometry: Seq<char>,
    pane_id: Seq<char>,
    cwd: Seq<char>,
    records: Seq<Seq<char>>,
    pos: Seq<char>,
    path: Seq<char>,
) -> Seq<Seq<char>> {
    match pane_size_of(geometry) {
        Some((w, h)) if overlay_wanted_of(pager, overlay_reply) => seq![
            "display-popup"@,
            "-E"@,
            "-B"@,
            "-x"@,
            "P"@,
            "-y"@,
            "P"@,
            "-w"@,
            decimal(w as nat),
            "-h"@,
            decimal(h as nat),
            "-d"@,
            cwd,
        ] + env_flags(records) + seq![
            "tmux set -w -t "@ + pane_id + " @capture 1; "@ + popup_viewer_of(pager, pos, path, records)
                + "; tmux set -wu -t "@ + pane_id + " @capture"@,
        ],
        _ => seq!["new-window"@, "-c"@, cwd] + env_flags(records) + seq![
            "tmux set -w @capture 1; "@ + pager_command_of(pager, pos, path),
        ],
    }
}

/// The pane's size ([`pane_size_of`]).
fn pane_size(geometry: &str) -> (r: Option<(i64, i64)>)
    ensures
        r == pane_size_of(geometry@),
{
    let gv = chars_of(geometry);
    let ws = words_of(&gv);
    if ws.len() < 2 {
        return None;
    }
    assert(views(ws@)[0] == ws@[0]@);
    assert(views(ws@)[1] == ws@[1]@);
    match (parse_i64_chars(&ws[0]), parse_i64_chars(&ws[1])) {
        (Some(w), Some(h)) => if w > 0 && h > 0 {
            Some((w, h))
        } else {
            None
        },
        _ => None,
    }
}

/// A positive number's decimal representation as a `String`.
fn number_string(n: i64) -> (s: String)
    requires
        n >= 0,
    ensures
        s@ == decimal(n as nat),
{
    let mut v: Vec<char> = Vec::new();
    push_decimal(&mut v, n as u64);
    assert(v@ =~= decimal(n as nat));
    string_of(&v)
}

/// The tmux command that opens the capture, in place or in a window
/// ([`capture_command_of`]). `overlay_reply` is tmux's reply to
/// `#{@capture-overlay}`, `geometry` its reply to
/// `#{pane_width} #{pane_height}`, `pane_id` the captured pane.
pub fn capture_command(
    pager: Pager,
    overlay_reply: &str,
    geometry: &str,
    pane_id: &str,
    cwd: &str,
    records: &Vec<String>,
    pos: &str,
    path: &str,
) -> (args: Vec<String>)
    ensures
        string_views(args@) == capture_command_of(
            pager,
            overlay_reply@,
            geometry@,
            pane_id@,
            cwd@,
            string_views(records@),
            pos@,
            path@,
        ),
{
    let overlay = overlay_wanted(pager, overlay_reply);
    let size = pane_size(geometry);
    match size {
        Some((w, h)) => {
            if overlay {
                let mut args: Vec<String> = Vec::new();
                args.push(String::from_str("display-popup"));
                args.push(String::from_str("-E"));
                args.push(String::from_str("-B"));
                args.push(String::from_str("-x"));
                args.push(String::from_str("P"));
                args.push(String::from_str("-y"));
                args.push(String::from_str("P"));
                args.push(String::from_str("-w"));
                args.push(number_string(w));
                args.push(String::from_str("-h"));
                args.push(number_string(h));
                args.push(String::from_str("-d"));
                args.push(String::from_str(cwd));
                let ghost head = string_views(args@);
                push_env(&mut args, records);
                let mut shell = String::from_str("tmux set -w -t ");
                shell.append(pane_id);
                shell.append(" @capture 1; ");
                let viewer = popup_viewer(pager, pos, path, records);
                shell.append(viewer.as_str());
                shell.append("; tmux set -wu -t ");
                shell.append(pane_id);
                shell.append(" @capture");
                let ghost before = args@;
                args.push(shell);
                assert(string_views(args@) =~= string_views(before).push(shell@));
                return args;
            }
        },
        None => {},
    }
    let mut shell = String::from_str("tmux set -w @capture 1; ");
    let viewer = pager_command(pager, pos, path);
    shell.append(viewer.as_str());
    new_window_args(cwd, records, shell.as_str())
}

/// OSC-8 hyperlinks: `ESC ]8;` up to the nearest BEL or `ESC \`.
pub const OSC8: &'static str = r"\x1b\]8;.*?(?:\x07|\x1b\\)";

/// What [`strip_osc8`] returns: `bytes` without their hyperlink sequences.
pub open spec fn strip_osc8_of(bytes: Seq<u8>) -> Seq<u8> {
    osc8_result_of(bytes, regex_erase_bytes(OSC8@, bytes))
}

/// The stripped capture, given `erased`, the bytes with the hyperlinks removed
/// (`None` when that could not be computed: the bytes are kept as they are).
pub open spec fn osc8_result_of(bytes: Seq<u8>, erased: Option<Seq<u8>>) -> Seq<u8> {
    match erased {
        Some(rest) => rest,
        None => bytes,
    }
}

/// The stripped capture ([`osc8_result_of`]).
pub fn osc8_result(bytes: &[u8], erased: Option<Vec<u8>>) -> (out: Vec<u8>)
    ensures
        out@ == osc8_result_of(
            bytes@,
            match erased {
                Some(e) => Some(e@),
                None => None,
            },
        ),
{
    match erased {
        Some(rest) => rest,
        None => {
            let mut out: Vec<u8> = Vec::new();
            let n = bytes.len();
            for i in 0..n
                invariant
                    n == bytes@.len(),
                    out@ == bytes@.take(i as int),
            {
                out.push(bytes[i]);
                assert(bytes@.take(i + 1) =~= bytes@.take(i as int).push(bytes@[i as int]));
            }
            assert(bytes@.take(n as int) =~= bytes@);
            out
        },
    }
}

/// Remove OSC-8 hyperlink sequences so viewers that only understand SGR colour
/// escapes do not show them as text. SGR sequences are kept.
pub fn strip_osc8(bytes: &[u8]) -> (out: Vec<u8>)
    ensures
        out@ == strip_osc8_of(bytes@),
{
    let erased = erase_byte_matches(OSC8, bytes);
    osc8_result(bytes, erased)
}

/// Only the plain viewer drops colours: nvim (through baleia) and less (`-R`)
/// capture with escapes (`-pe`), plain nvim without (`-p`).
pub proof fn only_the_plain_viewer_drops_colour(pager: Pager)
    ensures
        capture_flag(pager) == "-p"@ <==> pager == Pager::Plain,
        capture_flag(pager) == "-pe"@ <==> pager != Pager::Plain,
        capture_flag(Pager::Less) == "-pe"@,
        capture_flag(Pager::Nvim) == "-pe"@,
{
    reveal_strlit("-p");
    reveal_strlit("-pe");
    assert("-p"@.len() != "-pe"@.len());
}

} // verus!
