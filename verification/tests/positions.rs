use omni::capture::{
    capture_command, capture_pane_args, capture_position, display_args, new_window_args,
    osc8_result, overlay_wanted, pager_command, popup_viewer, strip_osc8, Pager,
};
use omni::position::{copy_position, jump_commands, top_line};

#[test]
fn osc8_stripped_both_terminators_sgr_kept() {
    let input = b"\x1b]8;;file:///a\x07link\x1b]8;;\x07 \x1b[31mred\x1b[0m \x1b]8;;http://x\x1b\\y\x1b]8;;\x1b\\";
    let out = strip_osc8(input);
    assert_eq!(out, b"link \x1b[31mred\x1b[0m y".to_vec());
}

#[test]
fn osc8_noop_when_absent() {
    assert_eq!(strip_osc8(b"plain text"), b"plain text".to_vec());
}

#[test]
fn top_line_follows_pane_view() {
    assert_eq!(top_line(398, None), 399);
    assert_eq!(top_line(398, Some(0)), 399);
    assert_eq!(top_line(398, Some(90)), 309);
    assert_eq!(top_line(398, Some(398)), 1);
    assert_eq!(top_line(398, Some(500)), 1);
    assert_eq!(top_line(0, None), 1);
}

#[test]
fn a_hit_is_centred_and_the_row_follows_the_scroll() {
    assert_eq!(copy_position(278, 24, 151), (140, 12));
    assert_eq!(copy_position(278, 24, 100), (191, 12));
}

#[test]
fn both_ends_clamp_the_scroll_and_spend_the_rest_on_the_row() {
    assert_eq!(copy_position(278, 24, 2), (278, 1));
    assert_eq!(copy_position(278, 24, 13), (278, 12));
    assert_eq!(copy_position(278, 24, 295), (0, 16));
    assert_eq!(copy_position(278, 24, 302), (0, 23));
}

#[test]
fn a_line_past_the_capture_cannot_become_a_giant_cursor_walk() {
    assert_eq!(copy_position(0, 24, 9_999), (0, 23));
    assert_eq!(copy_position(0, 0, 1), (0, 0));
}

#[test]
fn every_line_of_a_small_capture_lands_under_the_cursor() {
    let (hist, height) = (7i64, 5i64);
    for n in 1..=hist + height {
        let (oy, row) = copy_position(hist, height, n);
        assert_eq!(hist + 1 - oy + row, n);
    }
}

#[test]
fn a_negative_height_halves_toward_zero() {
    assert_eq!(copy_position(10, -3, 5), (5, 0));
}

#[test]
fn jump_commands_scroll_then_walk_the_cursor() {
    let cmds = jump_commands("s:1", "278 24", 151).unwrap();
    assert_eq!(cmds.len(), 4);
    assert_eq!(cmds[0], vec!["copy-mode", "-t", "s:1"]);
    assert_eq!(cmds[1], vec!["send-keys", "-t", "s:1", "-X", "goto-line", "140"]);
    assert_eq!(cmds[2], vec!["send-keys", "-t", "s:1", "-X", "top-line"]);
    assert_eq!(cmds[3], vec!["send-keys", "-t", "s:1", "-X", "-N", "12", "cursor-down"]);
    // Row 0: no walk at all; unreadable numbers count as 0.
    let cmds = jump_commands("s:1", "junk", 1).unwrap();
    assert_eq!(cmds.len(), 3);
    assert_eq!(cmds[1][5], "0");
    // Numbers too large to place: nothing to do.
    assert!(jump_commands("s:1", "9223372036854775807 24", 1).is_none());
}

#[test]
fn capture_opens_on_the_panes_first_visible_line() {
    assert_eq!(capture_position("398 90").unwrap(), "normal! 309Gzt");
    assert_eq!(capture_position("398").unwrap(), "normal! 399Gzt");
    assert_eq!(capture_position("").unwrap(), "normal! 1Gzt");
    assert!(capture_position("9223372036854775807 0").is_none());
}

#[test]
fn capture_commands_follow_the_pager() {
    assert_eq!(capture_pane_args(Pager::Plain, None), vec!["capture-pane", "-p", "-S", "-"]);
    assert_eq!(
        capture_pane_args(Pager::Nvim, Some("s:2")),
        vec!["capture-pane", "-pe", "-S", "-", "-t", "s:2"]
    );
    assert_eq!(display_args(Some("s:2"), "#{pane_id}"), vec!["display-message", "-p", "-t", "s:2", "#{pane_id}"]);
    assert_eq!(pager_command(Pager::Less, "p", "/f"), "less -RN +G '/f'");
    assert_eq!(pager_command(Pager::Plain, "normal! 1Gzt", "/f"), "nvim -n -c 'normal! 1Gzt' '/f'");
    assert!(pager_command(Pager::Nvim, "x", "/f").contains("baleia"));
    let recs = vec!["A=1".to_string(), "B=2".to_string()];
    assert_eq!(
        new_window_args("/w", &recs, "sh"),
        vec!["new-window", "-c", "/w", "-e", "A=1", "-e", "B=2", "sh"]
    );
}

#[test]
fn osc8_result_is_the_erased_bytes_or_the_input() {
    assert_eq!(osc8_result(b"ab", Some(b"a".to_vec())), b"a".to_vec());
    assert_eq!(osc8_result(b"ab", None), b"ab".to_vec());
}

#[test]
fn the_overlay_is_opt_in_and_nvim_only() {
    assert!(overlay_wanted(Pager::Nvim, "on\n"));
    assert!(overlay_wanted(Pager::Plain, " on"));
    assert!(!overlay_wanted(Pager::Less, "on"));
    assert!(!overlay_wanted(Pager::Nvim, "off"));
    assert!(!overlay_wanted(Pager::Nvim, ""));
}

#[test]
fn the_overlay_pins_a_popup_over_the_pane() {
    let recs = vec!["A=1".to_string()];
    let args = capture_command(Pager::Plain, "on", "80 24", "%3", "/w", &recs, "normal! 5Gzt", "/f");
    assert_eq!(
        &args[..15],
        &["display-popup", "-E", "-B", "-x", "P", "-y", "P", "-w", "80", "-h", "24", "-d", "/w", "-e", "A=1"]
    );
    let shell = &args[15];
    assert!(shell.starts_with("tmux set -w -t %3 @capture 1; nvim -n -c 'setlocal nonumber"));
    assert!(shell.contains("set laststatus=0 cmdheight=0 scrolloff=0"));
    assert!(shell.contains("nnoremap <buffer> P"));
    assert!(shell.ends_with("-c 'normal! 5Gzt' '/f'; tmux set -wu -t %3 @capture"));
    assert!(popup_viewer(Pager::Nvim, "p", "/f", &recs).contains("baleia"));
}

#[test]
fn without_the_overlay_the_capture_gets_a_flagged_window() {
    let recs: Vec<String> = Vec::new();
    let args = capture_command(Pager::Nvim, "off", "80 24", "%3", "/w", &recs, "p", "/f");
    assert_eq!(args[0], "new-window");
    assert!(args[3].starts_with("tmux set -w @capture 1; nvim -n -c 'lua"));
    // An unknown pane size falls back to the window too.
    let args = capture_command(Pager::Nvim, "on", "", "%3", "/w", &recs, "p", "/f");
    assert_eq!(args[0], "new-window");
}

#[test]
fn promoting_the_popup_keeps_directory_env_and_colour() {
    let recs = vec!["VIRTUAL_ENV=/venv".to_string(), "ODD NAME=x".to_string()];
    let coloured = popup_viewer(Pager::Nvim, "normal! 3Gzt", "/f", &recs);
    assert!(coloured.contains(
        "P <Cmd>call system([\"tmux\", \"new-window\", \"-c\", getcwd(), \"-e\", \"VIRTUAL_ENV=\" . getenv(\"VIRTUAL_ENV\"), \"tmux set -w @capture 1; nvim -n -c \\\"lua pcall(function() require([[baleia]]).setup().once(0) end)\\\" +\" . line(\".\") . \" /f\"])<Bar>qa!<CR>'"
    ));
    assert!(!coloured.contains("ODD NAME"));
    let plain = popup_viewer(Pager::Plain, "normal! 3Gzt", "/f", &recs);
    assert!(plain.contains("\"tmux set -w @capture 1; nvim -n +\" . line(\".\")"));
    assert!(!plain.contains("baleia"));
}
