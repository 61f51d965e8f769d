use omni::env::{env_dir, parse, record_path};

#[test]
fn keeps_normal_vars_drops_denylisted() {
    let blob = b"PATH=/usr/bin\0TMUX=/tmp/x,1,0\0VIRTUAL_ENV=/venv\0PWD=/here\0";
    assert_eq!(parse(blob), vec!["PATH=/usr/bin", "VIRTUAL_ENV=/venv"]);
}

#[test]
fn values_with_spaces_and_equals_round_trip() {
    let blob = b"MSG=a b c\0EXPR=x=y=z\0";
    assert_eq!(parse(blob), vec!["MSG=a b c", "EXPR=x=y=z"]);
}

#[test]
fn empty_and_trailing_nul_are_ignored() {
    assert!(parse(b"").is_empty());
    assert_eq!(parse(b"A=1\0"), vec!["A=1"]);
}

#[test]
fn every_denied_name_is_dropped_and_nameless_records_too() {
    let blob = b"TMUX_PANE=%1\0TMUX_TMPDIR=/t\0TERM=xterm\0TERM_PROGRAM=x\0TERM_PROGRAM_VERSION=1\0\
WINDOWID=3\0SHLVL=2\0OLDPWD=/o\0COLUMNS=80\0LINES=24\0_=/bin/ls\0=nameless\0NOEQUALS\0KEEP=1";
    assert_eq!(parse(blob), vec!["NOEQUALS", "KEEP=1"]);
}

#[test]
fn a_name_that_only_starts_like_a_denied_one_is_kept() {
    assert_eq!(parse(b"TMUXX=1\0PWD2=2\0"), vec!["TMUXX=1", "PWD2=2"]);
}

#[test]
fn invalid_utf8_is_replaced_not_dropped() {
    assert_eq!(parse(b"A=\xff\0"), vec!["A=\u{FFFD}"]);
}

#[test]
fn env_dir_prefers_the_cache_home_and_falls_back_to_home() {
    assert_eq!(env_dir(Some("/c"), Some("/h")), "/c/omni/env");
    assert_eq!(env_dir(Some(""), Some("/h")), "/h/.cache/omni/env");
    assert_eq!(env_dir(None, Some("/h")), "/h/.cache/omni/env");
    assert_eq!(env_dir(None, None), "/.cache/omni/env");
}

#[test]
fn record_path_drops_the_pane_ids_percent() {
    assert_eq!(record_path("/c/omni/env", "%3"), "/c/omni/env/3");
    assert_eq!(record_path("/d", "%%12"), "/d/12");
    assert_eq!(record_path("/d", "7"), "/d/7");
}

#[test]
fn joined_snapshots_give_joined_records() {
    let a: &[u8] = b"A=1\0TMUX=x";
    let b: &[u8] = b"B=2\0";
    let joined = [a, b"\0", b].concat();
    let mut expected = parse(a);
    expected.extend(parse(b));
    assert_eq!(parse(&joined), expected);
}
