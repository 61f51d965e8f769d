//! Where copy-mode and the capture viewer have to sit so that a chosen line of
//! a `capture-pane -S -` capture is the one in front of you.

use vstd::prelude::*;

use crate::text::{
    chars_of, decimal, parse_i64, parse_i64_chars, push_decimal, string_of, string_views, words,
    words_of, views,
};

verus! {

/// `x` clamped into `[lo, hi]`, as `i64::clamp` does for `lo <= hi`.
pub open spec fn clamp(x: int, lo: int, hi: int) -> int {
    if x < lo {
        lo
    } else if x > hi {
        hi
    } else {
        x
    }
}

/// Half of `h`, rounded toward zero as `i64` division does.
pub open spec fn half(h: int) -> int {
    if h >= 0 {
        h / 2
    } else {
        -((-h) / 2)
    }
}

/// The larger of two integers.
pub open spec fn max(a: int, b: int) -> int {
    if a >= b {
        a
    } else {
        b
    }
}

/// Whether `v` is an `i64` value.
pub open spec fn fits(v: int) -> bool {
    i64::MIN <= v <= i64::MAX
}

/// Whether [`copy_position`]'s arithmetic stays within `i64` for these inputs,
/// every intermediate value included.
pub open spec fn copy_position_fits(hist: int, height: int, n: int) -> bool {
    let oy = clamp(hist + 1 - n + half(height), 0, max(hist, 0));
    &&& fits(hist + 1)
    &&& fits(hist + 1 - n)
    &&& fits(hist + 1 - n + half(height))
    &&& fits(n - hist)
    &&& fits(n - hist - 1)
    &&& fits(n - hist - 1 + oy)
    &&& fits(height - 1)
}

/// The copy-mode placement for capture line `n`: the scroll offset from the
/// bottom, which centres the line but never leaves the buffer, and the screen
/// row of the line at that offset, kept on the screen.
pub open spec fn copy_position_of(hist: int, height: int, n: int) -> (int, int) {
    let oy = clamp(hist + 1 - n + half(height), 0, max(hist, 0));
    let row = clamp(n - hist - 1 + oy, 0, max(height - 1, 0));
    (oy, row)
}

/// Where copy-mode has to sit for capture line `n` (of a pane with `hist`
/// scrollback lines and `height` visible ones) to be under the cursor:
/// `(scroll offset from the bottom, screen row from the top)`.
pub fn copy_position(hist: i64, height: i64, n: i64) -> (r: (i64, i64))
    requires
        copy_position_fits(hist as int, height as int, n as int),
    ensures
        (r.0 as int, r.1 as int) == copy_position_of(hist as int, height as int, n as int),
{
    let line = n;
    let centre = height / 2;
    let top = if hist > 0 {
        hist
    } else {
        0
    };
    let raw_oy = hist + 1 - line + centre;
    let oy = if raw_oy < 0 {
        0
    } else if raw_oy > top {
        top
    } else {
        raw_oy
    };
    let bottom = if height - 1 > 0 {
        height - 1
    } else {
        0
    };
    let raw_row = line - hist - 1 + oy;
    let row = if raw_row < 0 {
        0
    } else if raw_row > bottom {
        bottom
    } else {
        raw_row
    };
    (oy, row)
}

/// Every line of the capture lands under the cursor: with copy-mode scrolled
/// `oy` lines off the bottom the top row shows line `hist + 1 - oy`, so the
/// cursor row `row` shows line `hist + 1 - oy + row`, and that is `n` whenever
/// `n` is a line of the capture (`1 <= n <= hist + height`).
pub proof fn every_captured_line_lands_under_the_cursor(hist: int, height: int, n: int)
    requires
        hist >= 0,
        height >= 1,
        1 <= n <= hist + height,
    ensures
        ({
            let (oy, row) = copy_position_of(hist, height, n);
            &&& 0 <= oy <= hist
            &&& 0 <= row < height
            &&& hist + 1 - oy + row == n
        }),
{
}

/// The scroll offset and row never leave the buffer and the screen, whatever
/// the inputs: that is what keeps a stale line number from turning into a
/// giant cursor walk.
pub proof fn copy_position_is_clamped(hist: int, height: int, n: int)
    ensures
        ({
            let (oy, row) = copy_position_of(hist, height, n);
            &&& 0 <= oy <= max(hist, 0)
            &&& 0 <= row <= max(height - 1, 0)
        }),
{
}

/// The first line of the pane's view, as a line number of the capture:
/// `hist + 1`, less the copy-mode scroll when it is scrolled up, never below 1.
pub open spec fn top_line_of(hist: int, scroll: Option<i64>) -> int {
    let top = match scroll {
        Some(sp) => if sp > 0 {
            hist + 1 - sp
        } else {
            hist + 1
        },
        None => hist + 1,
    };
    max(top, 1)
}

/// Whether [`top_line`]'s arithmetic stays within `i64`.
pub open spec fn top_line_fits(hist: int, scroll: Option<i64>) -> bool {
    &&& fits(hist + 1)
    &&& match scroll {
        Some(sp) => sp > 0 ==> fits(hist + 1 - sp),
        None => true,
    }
}

/// The buffer line a capture should open on: the pane's first visible line,
/// so the new window shows what the pane shows.
pub fn top_line(hist: i64, scroll: Option<i64>) -> (t: i64)
    requires
        top_line_fits(hist as int, scroll),
    ensures
        t as int == top_line_of(hist as int, scroll),
{
    let top = match scroll {
        Some(sp) => if sp > 0 {
            hist + 1 - sp
        } else {
            hist + 1
        },
        None => hist + 1,
    };
    if top > 1 {
        top
    } else {
        1
    }
}

/// The capture opens no lower than line 1, and exactly on the pane's first
/// visible line whenever that is a line of the buffer.
pub proof fn top_line_stays_in_the_buffer(hist: int, scroll: Option<i64>)
    ensures
        top_line_of(hist, scroll) >= 1,
        ({
            let want = match scroll {
                Some(sp) => if sp > 0 {
                    hist + 1 - sp
                } else {
                    hist + 1
                },
                None => hist + 1,
            };
            want >= 1 ==> top_line_of(hist, scroll) == want
        }),
{
}

/// Word `i` of `ws` read as an `i64`, or 0 when it is missing or no number.
pub open spec fn word_or_zero(ws: Seq<Seq<char>>, i: int) -> int {
    if i < ws.len() {
        match parse_i64(ws[i]) {
            Some(v) => v as int,
            None => 0,
        }
    } else {
        0
    }
}

/// Word `i` of `ws` read as an `i64`.
pub open spec fn word_number(ws: Seq<Seq<char>>, i: int) -> Option<i64> {
    if i < ws.len() {
        parse_i64(ws[i])
    } else {
        None
    }
}

/// Word `i` of `ws` read as an `i64` (see [`word_number`]).
fn read_word(ws: &Vec<Vec<char>>, i: usize) -> (r: Option<i64>)
    ensures
        r == word_number(views(ws@), i as int),
{
    if i < ws.len() {
        assert(views(ws@)[i as int] == ws@[i as int]@);
        parse_i64_chars(&ws[i])
    } else {
        None
    }
}

/// The tmux commands that put copy-mode on capture line `n` of `target`,
/// given the reply `disp` to `#{history_size} #{pane_height}` (a missing or
/// unreadable number counts as 0): enter copy-mode, scroll to the offset, pin
/// the cursor to the top row, then walk it down to the line.
pub open spec fn jump_commands_of(target: Seq<char>, disp: Seq<char>, n: int) -> Option<
    Seq<Seq<Seq<char>>>,
> {
    let ws = words(disp);
    let hist = word_or_zero(ws, 0);
    let height = word_or_zero(ws, 1);
    if !copy_position_fits(hist, height, n) {
        None
    } else {
        let (oy, row) = copy_position_of(hist, height, n);
        let base = seq![
            seq!["copy-mode"@, "-t"@, target],
            seq!["send-keys"@, "-t"@, target, "-X"@, "goto-line"@, decimal(oy as nat)],
            seq!["send-keys"@, "-t"@, target, "-X"@, "top-line"@],
        ];
        Some(
            if row > 0 {
                base.push(
                    seq![
                        "send-keys"@,
                        "-t"@,
                        target,
                        "-X"@,
                        "-N"@,
                        decimal(row as nat),
                        "cursor-down"@,
                    ],
                )
            } else {
                base
            },
        )
    }
}

/// The views of a list of tmux commands.
pub open spec fn command_views(cmds: Seq<Vec<String>>) -> Seq<Seq<Seq<char>>> {
    cmds.map_values(|c: Vec<String>| string_views(c@))
}

/// A number's decimal representation as a `String`.
fn decimal_string(n: u64) -> (s: String)
    ensures
        s@ == decimal(n as nat),
{
    let mut v: Vec<char> = Vec::new();
    push_decimal(&mut v, n);
    assert(v@ =~= decimal(n as nat));
    string_of(&v)
}

/// The placement for line `n` ([`copy_position_of`]), or `None` when its
/// arithmetic would leave `i64`.
pub fn checked_copy_position(hist: i64, height: i64, n: i64) -> (r: Option<(i64, i64)>)
    ensures
        match r {
            Some(p) => copy_position_fits(hist as int, height as int, n as int) && (
            p.0 as int,
            p.1 as int,
            ) == copy_position_of(hist as int, height as int, n as int),
            None => !copy_position_fits(hist as int, height as int, n as int),
        },
{
    // Checked in i128, where none of it can overflow.
    let h = hist as i128;
    let ht = height as i128;
    let m = n as i128;
    let centre = if ht >= 0 {
        ht / 2
    } else {
        -((-ht) / 2)
    };
    let top = if h > 0 {
        h
    } else {
        0
    };
    let raw_oy = h + 1 - m + centre;
    let oy = if raw_oy < 0 {
        0
    } else if raw_oy > top {
        top
    } else {
        raw_oy
    };
    let lo = i64::MIN as i128;
    let hi = i64::MAX as i128;
    if lo <= h + 1 && h + 1 <= hi && lo <= h + 1 - m && h + 1 - m <= hi && lo <= raw_oy && raw_oy
        <= hi && lo <= m - h && m - h <= hi && lo <= m - h - 1 && m - h - 1 <= hi && lo <= m - h
        - 1 + oy && m - h - 1 + oy <= hi && lo <= ht - 1 && ht - 1 <= hi {
        Some(copy_position(hist, height, n))
    } else {
        None
    }
}

/// The four (or three, when the row is 0) tmux commands for a placement.
fn jump_command_list(target: &str, oy: i64, row: i64) -> (cmds: Vec<Vec<String>>)
    requires
        oy >= 0,
        row >= 0,
    ensures
        command_views(cmds@) == ({
            let base = seq![
                seq!["copy-mode"@, "-t"@, target@],
                seq!["send-keys"@, "-t"@, target@, "-X"@, "goto-line"@, decimal(oy as nat)],
                seq!["send-keys"@, "-t"@, target@, "-X"@, "top-line"@],
            ];
            if row > 0 {
                base.push(
                    seq![
                        "send-keys"@,
                        "-t"@,
                        target@,
                        "-X"@,
                        "-N"@,
                        decimal(row as nat),
                        "cursor-down"@,
                    ],
                )
            } else {
                base
            }
        }),
{
    let mut cmds: Vec<Vec<String>> = Vec::new();
    let mut c1: Vec<String> = Vec::new();
    c1.push(String::from_str("copy-mode"));
    c1.push(String::from_str("-t"));
    c1.push(String::from_str(target));
    let mut c2: Vec<String> = Vec::new();
    c2.push(String::from_str("send-keys"));
    c2.push(String::from_str("-t"));
    c2.push(String::from_str(target));
    c2.push(String::from_str("-X"));
    c2.push(String::from_str("goto-line"));
    c2.push(decimal_string(oy as u64));
    let mut c3: Vec<String> = Vec::new();
    c3.push(String::from_str("send-keys"));
    c3.push(String::from_str("-t"));
    c3.push(String::from_str(target));
    c3.push(String::from_str("-X"));
    c3.push(String::from_str("top-line"));
    let ghost v1 = string_views(c1@);
    let ghost v2 = string_views(c2@);
    let ghost v3 = string_views(c3@);
    assert(v1 =~= seq!["copy-mode"@, "-t"@, target@]);
    assert(v2 =~= seq!["send-keys"@, "-t"@, target@, "-X"@, "goto-line"@, decimal(oy as nat)]);
    assert(v3 =~= seq!["send-keys"@, "-t"@, target@, "-X"@, "top-line"@]);
    cmds.push(c1);
    cmds.push(c2);
    cmds.push(c3);
    assert(command_views(cmds@) =~= seq![v1, v2, v3]);
    if row > 0 {
        let mut c4: Vec<String> = Vec::new();
        c4.push(String::from_str("send-keys"));
        c4.push(String::from_str("-t"));
        c4.push(String::from_str(target));
        c4.push(String::from_str("-X"));
        c4.push(String::from_str("-N"));
        c4.push(decimal_string(row as u64));
        c4.push(String::from_str("cursor-down"));
        let ghost v4 = string_views(c4@);
        assert(v4 =~= seq![
            "send-keys"@,
            "-t"@,
            target@,
            "-X"@,
            "-N"@,
            decimal(row as nat),
            "cursor-down"@,
        ]);
        cmds.push(c4);
        assert(command_views(cmds@) =~= seq![v1, v2, v3, v4]);
    }
    cmds
}

/// The tmux commands that land copy-mode on line `n` ([`jump_commands_of`]);
/// `None` when the numbers are too large for the placement to be computed.
pub fn jump_commands(target: &str, disp: &str, n: i64) -> (r: Option<Vec<Vec<String>>>)
    ensures
        match r {
            Some(cmds) => jump_commands_of(target@, disp@, n as int) == Some(command_views(cmds@)),
            None => jump_commands_of(target@, disp@, n as int) is None,
        },
{
    let dv = chars_of(disp);
    let ws = words_of(&dv);
    let hist = match read_word(&ws, 0) {
        Some(h) => h,
        None => 0,
    };
    let height = match read_word(&ws, 1) {
        Some(h) => h,
        None => 0,
    };
    assert(hist as int == word_or_zero(views(ws@), 0));
    assert(height as int == word_or_zero(views(ws@), 1));
    match checked_copy_position(hist, height, n) {
        Some((oy, row)) => {
            proof {
                copy_position_is_clamped(hist as int, height as int, n as int);
            }
            Some(jump_command_list(target, oy, row))
        },
        None => None,
    }
}

/// The hit is centred: whenever the scroll can put it in the middle of the
/// screen (it is neither in the first nor in the last half-screen of the
/// buffer), the cursor row is the middle row.
pub proof fn a_hit_away_from_the_ends_is_centred(hist: int, height: int, n: int)
    requires
        height >= 1,
        0 <= hist + 1 - n + half(height) <= hist,
    ensures
        copy_position_of(hist, height, n).1 == half(height),
        copy_position_of(hist, height, n).0 == hist + 1 - n + half(height),
{
}

} // verus!
