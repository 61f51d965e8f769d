use omni::order::Order;
use omni::picker::{kill_command, peek_view, selected_window, windows_picker_args};
use omni::tmux::{picked, picker_args, query_output, reply_text, selection};
use omni::env::keeps_record;

#[test]
fn the_target_is_the_first_field_that_looks_like_one() {
    assert_eq!(selected_window("[!]  s:1   zsh").as_deref(), Some("s:1"));
    assert_eq!(selected_window("s:12  nvim").as_deref(), Some("s:12"));
    assert_eq!(selected_window("no target here"), None);
}

#[test]
fn alerts_reach_one_field_further() {
    let args = windows_picker_args("/bin/omni", true, Order::Recency);
    assert_eq!(args.len(), 7);
    assert_eq!(args[3], "--preview=/bin/omni peek {2}");
    assert!(args[5].ends_with("reload(/bin/omni windows --list --alerts)"));
    let args = windows_picker_args("/bin/omni", false, Order::Session);
    assert_eq!(args[3], "--preview=/bin/omni peek {1}");
    assert!(args[1].starts_with("--list-label= session ·"));
}

#[test]
fn a_shell_preview_keeps_the_last_lines() {
    assert_eq!(peek_view(b"a\nb\nc\nd", "0", Some("2")), b"c\nd".to_vec());
    assert_eq!(peek_view(b"a\nb", "0", Some("not a number")), b"a\nb".to_vec());
    assert_eq!(peek_view(b"a\nb\nc", "1\n", Some("1")), b"a\nb\nc".to_vec());
}

#[test]
fn the_last_window_is_never_killed() {
    assert_eq!(kill_command("s:1", "3\n"), vec!["kill-window", "-t", "s:1"]);
    let warn = kill_command("s:1", "1");
    assert_eq!(warn[0], "display-popup");
    assert!(warn[10].contains("s:1\\033[0m is the only window in its session."));
    assert_eq!(kill_command("s:1", "junk")[0], "display-popup");
}

#[test]
fn tmux_replies_lose_one_newline() {
    assert_eq!(query_output(b"a\n\n"), "a\n");
    assert_eq!(query_output(b"a"), "a");
}

#[test]
fn fzf_selection_is_trimmed_or_absent() {
    assert_eq!(picked(true, b"row\n").as_deref(), Some("row"));
    assert_eq!(picked(true, b"\n"), None);
    assert_eq!(picked(false, b"row\n"), None);
    let all = picker_args(&["--x"]);
    assert_eq!(all.len(), 9);
    assert_eq!(all[0], "--layout=default");
    assert_eq!(all[8], "--x");
}

#[test]
fn decoded_replies_and_selections() {
    assert_eq!(reply_text("x\n"), "x");
    assert_eq!(reply_text("x"), "x");
    assert_eq!(selection("row\n\n").as_deref(), Some("row"));
    assert_eq!(selection("\n"), None);
}

#[test]
fn records_are_kept_by_name() {
    assert!(keeps_record("PATH=/bin"));
    assert!(!keeps_record("TMUX=x"));
    assert!(!keeps_record("=x"));
    assert!(keeps_record("NOEQUALS"));
}
