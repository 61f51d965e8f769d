use omni::order::{alerts_header, order_label, order_path, parse_order, toggled, windows_header, Order};
use omni::rows::{align_columns, current_first, drop_alarm_cols, mark_alerts, window_rows};
use omni::sorting::{strip_sort_keys, strip_window_keys};

#[test]
fn alerts_keep_only_alarmed_rows_and_lead_with_state() {
    // flags column is bell/silence/activity; armed is monitor-a/monitor-s.
    let body = "\
a:1\tzsh\ttitle\t[1p zsh]\t/p\t100\t00\n\
a:2\tzsh\ttitle\t[1p zsh]\t/p\t010\t01\n\
a:3\tzsh\ttitle\t[1p zsh]\t/p\t001\t10\n\
a:4\tzsh\ttitle\t[1p zsh]\t/p\t000\t01\n\
a:5\tzsh\ttitle\t[1p zsh]\t/p\t000\t00";
    let out = mark_alerts(body);
    let states: Vec<&str> = out.lines().map(|l| l.split('\t').next().unwrap()).collect();
    // a:5 is neither flagged nor armed and is gone; the rest lead with state.
    assert_eq!(states, ["[!]", "[~]", "[*]", "[.]"]);
    // The displayed columns survive untouched, alarm columns stripped.
    assert_eq!(out.lines().next().unwrap(), "[!]\ta:1\tzsh\ttitle\t[1p zsh]\t/p");
}

#[test]
fn silence_outranks_activity_when_both_flags_stand() {
    // Both raised: the window has stopped, which is the newer fact.
    let body = "a:1\tzsh\tt\t[1p zsh]\t/p\t011\t11";
    assert!(mark_alerts(body).starts_with("[~]"));
}

#[test]
fn plain_mode_drops_the_alarm_columns() {
    let body = "a:1\tzsh\tt\t[1p zsh]\t/p\t000\t00";
    assert_eq!(drop_alarm_cols(body), "a:1\tzsh\tt\t[1p zsh]\t/p");
}

#[test]
fn align_pads_every_column_but_the_last() {
    let body = "a\tlong-window\tx\nbbbb\tw\tyy";
    let out = align_columns(body);
    // col0 padded to 4 ("bbbb"), col1 to 11 ("long-window"), col2 free.
    assert_eq!(out, "a     long-window  x\nbbbb  w            yy");
    // no row ends in whitespace
    for line in out.lines() {
        assert_eq!(line, line.trim_end(), "trailing space on: {line:?}");
    }
}

#[test]
fn align_keeps_first_field_a_clean_target_for_fzf() {
    // fzf's {1} is the first WHITESPACE field; padding must not glue the
    // pane target to the next column.
    let out = align_columns("s:1\tzsh\tp\nlonger-session:12\tnvim\tq");
    let first = out.lines().next().unwrap().split_whitespace().next().unwrap();
    assert_eq!(first, "s:1");
}

#[test]
fn align_survives_a_row_with_fewer_columns() {
    let out = align_columns("a\tb\tc\nsolo");
    assert_eq!(out.lines().count(), 2);
    assert!(out.lines().any(|l| l == "solo"));
}

#[test]
fn the_window_you_are_on_leads_the_content_order() {
    let ordered = "rc:2\ncosmos-main:2\nmisc:2\nagents:1\nagents:2\nbtw:1";
    assert_eq!(
        current_first(ordered, "agents:2"),
        "agents:2\nrc:2\ncosmos-main:2\nmisc:2\nagents:1\nbtw:1"
    );
}

#[test]
fn an_unknown_current_window_is_never_invented() {
    let ordered = "rc:2\nbtw:1";
    assert_eq!(current_first(ordered, ""), ordered);
    assert_eq!(current_first(ordered, "gone:9"), ordered);
    assert_eq!(current_first("", "rc:2"), "");
}

#[test]
fn a_current_window_already_first_stays_put() {
    let ordered = "rc:2\nbtw:1";
    assert_eq!(current_first(ordered, "rc:2"), ordered);
}

#[test]
fn hoisting_matches_on_the_whole_target_not_a_prefix() {
    let ordered = "agents:12\nagents:1\ncosmos:1\ncosmos-main:1";
    assert_eq!(
        current_first(ordered, "agents:1"),
        "agents:1\nagents:12\ncosmos:1\ncosmos-main:1"
    );
    assert_eq!(
        current_first(ordered, "cosmos:1"),
        "cosmos:1\nagents:12\nagents:1\ncosmos-main:1"
    );
}

#[test]
fn recency_is_descending_and_strips_both_keys() {
    let raw = "100 1 alpha\n300 1 gamma\n200 1 beta\n";
    assert_eq!(strip_sort_keys(raw, Order::Recency), "gamma\nbeta\nalpha");
}

#[test]
fn session_last_attached_breaks_an_activity_tie() {
    let raw = "500 10 old-session\n500 90 recent-session\n500 50 mid-session\n";
    assert_eq!(
        strip_sort_keys(raw, Order::Recency),
        "recent-session\nmid-session\nold-session"
    );
}

#[test]
fn session_order_keeps_tmux_listing_order_and_still_strips_keys() {
    let raw = "100 1 alpha\n300 9 gamma\n200 5 beta\n";
    assert_eq!(strip_sort_keys(raw, Order::Session), "alpha\ngamma\nbeta");
}

#[test]
fn a_missing_second_key_degrades_without_eating_the_row() {
    assert_eq!(strip_sort_keys("100 alpha\n", Order::Recency), "alpha");
}

#[test]
fn rows_tied_on_both_keys_keep_their_listing_order() {
    let raw = "5 5 first\n9 1 top\n5 5 second\n5 5 third\n";
    assert_eq!(strip_sort_keys(raw, Order::Recency), "top\nfirst\nsecond\nthird");
}

#[test]
fn a_field_that_is_not_a_number_stays_in_the_row() {
    assert_eq!(strip_sort_keys("100 foo bar\n", Order::Recency), "foo bar");
    let raw = "x y late\n\n-5 0 early\n+7 0 mid\n";
    assert_eq!(strip_sort_keys(raw, Order::Recency), "mid\nx y late\nearly");
}

#[test]
fn visited_ranks_by_the_stamp_then_by_recency() {
    let raw = "0 900 1 busy\n7 100 1 read\n0 500 1 idle\n3 50 1 older\n";
    assert_eq!(strip_window_keys(raw, Order::Visited), "read\nolder\nbusy\nidle");
    assert_eq!(strip_window_keys(raw, Order::Recency), "busy\nidle\nread\nolder");
    assert_eq!(strip_window_keys(raw, Order::Session), "busy\nread\nidle\nolder");
}

#[test]
fn visited_with_nothing_recorded_reads_as_recency() {
    let raw = "0 100 1 a\n0 300 1 b\n0 300 2 c\n";
    assert_eq!(
        strip_window_keys(raw, Order::Visited),
        strip_window_keys(raw, Order::Recency)
    );
    assert_eq!(strip_window_keys(raw, Order::Visited), "c\nb\na");
}

#[test]
fn window_rows_strip_sort_align_and_mark() {
    let raw = "0 1 1 s:1\tzsh\tt\t[1p zsh]\t/p\t000\t01\n0 2 1 s:22\tnvim\tt\t[1p nvim]\t/q\t100\t00";
    assert_eq!(
        window_rows(raw, Order::Recency, false),
        "s:22  nvim  t  [1p nvim]  /q\ns:1   zsh   t  [1p zsh]   /p"
    );
    assert_eq!(
        window_rows(raw, Order::Recency, true),
        "[!]  s:22  nvim  t  [1p nvim]  /q\n[.]  s:1   zsh   t  [1p zsh]   /p"
    );
}

#[test]
fn order_labels_persist_and_read_back() {
    for o in [Order::Recency, Order::Visited, Order::Session] {
        assert_eq!(parse_order(Some(order_label(o))), o);
        assert_eq!(toggled(toggled(toggled(o))), o);
        assert_ne!(toggled(o), o);
    }
    assert_eq!(parse_order(Some("  session\n")), Order::Session);
    assert_eq!(parse_order(Some("visited\n")), Order::Visited);
    assert_eq!(parse_order(Some("sessions")), Order::Recency);
    assert_eq!(parse_order(None), Order::Recency);
}

#[test]
fn ctrl_g_cycles_recency_visited_session() {
    assert_eq!(toggled(Order::Recency), Order::Visited);
    assert_eq!(toggled(Order::Visited), Order::Session);
    assert_eq!(toggled(Order::Session), Order::Recency);
    assert_eq!(order_label(Order::Visited), "visited");
}

#[test]
fn no_aligned_line_ends_in_whitespace() {
    let out = align_columns("a\tbb\tc\nlonger\td\nx");
    assert_eq!(out, "a       bb  c\nlonger  d\nx");
    for line in out.lines() {
        assert_eq!(line, line.trim_end());
    }
}

#[test]
fn hoisting_twice_is_hoisting_once_on_clean_lines() {
    let once = current_first("a\nb\nc", "c");
    assert_eq!(current_first(&once, "c"), once);
    // A blank line below the current one reads back, so hoisting holds still.
    let once = current_first("b\n\na", "b");
    assert_eq!(once, "b\n\na");
    assert_eq!(current_first(&once, "b"), once);
    // A trailing empty line that does not read back is where it stops.
    let once = current_first("a\n\nb", "b");
    assert_eq!(once, "b\na\n");
    assert_eq!(current_first(&once, "b"), "b\na");
}

#[test]
fn order_file_lives_in_tmpdir_without_doubled_slashes() {
    assert_eq!(order_path(Some("/var/tmp/")), "/var/tmp/omni.order");
    assert_eq!(order_path(Some("/x")), "/x/omni.order");
    assert_eq!(order_path(Some("")), "/tmp/omni.order");
    assert_eq!(order_path(None), "/tmp/omni.order");
}

#[test]
fn headers_name_the_active_order() {
    assert_eq!(
        windows_header(Order::Session),
        " session · enter jump · ctrl-g order · ctrl-x kill · ctrl-j capture "
    );
    assert_eq!(
        alerts_header(Order::Recency),
        " alerts · recency · [!] bell [~] stopped [*] running [.] waiting · enter jump "
    );
}
