use omni::content::{
    capture_args, content_choice, content_label, content_list_args, content_order, content_rows,
    current_window, is_blank, blank_after, session_of,
};

#[test]
fn blank_rows_go_but_the_line_numbers_stay() {
    let pane = "alpha\n\n   \nbravo\n\ncharlie";
    assert_eq!(
        content_rows("s:1", pane),
        "s:1\t1\talpha\ns:1\t4\tbravo\ns:1\t6\tcharlie\n"
    );
}

#[test]
fn a_row_of_nothing_but_escapes_is_blank_too() {
    assert!(is_blank("\x1b[39m\x1b[49m"));
    assert!(is_blank("\x1b[0m   \x1b[K"));
    assert!(!is_blank("\x1b[31mred\x1b[0m"));
    let pane = "\x1b[39m\x1b[49m\n\x1b[31mred\x1b[0m";
    assert_eq!(content_rows("s:1", pane), "s:1\t2\t\x1b[31mred\x1b[0m\n");
}

#[test]
fn an_all_blank_pane_contributes_no_rows() {
    assert_eq!(content_rows("s:1", "\n\n\n"), "");
    assert_eq!(content_rows("s:1", ""), "");
}

#[test]
fn line_numbers_count_past_nine_and_crlf_is_a_line_end() {
    let pane = "1\n2\n3\n4\n5\n6\n7\n8\n9\nten\r\n";
    assert!(content_rows("w:0", pane).ends_with("w:0\t10\tten\n"));
}

#[test]
fn osc_and_two_byte_escapes_are_blank_as_well() {
    assert!(is_blank("\x1b]0;title\x07"));
    assert!(is_blank("\x1b]8;;http://x\x1b\\ \x1b="));
    assert!(!is_blank("\x1b]8;;http://x\x07link"));
}

#[test]
fn the_session_is_what_precedes_the_colon() {
    assert_eq!(session_of("work:3"), "work");
    assert_eq!(session_of(""), "");
    assert_eq!(session_of("nocolon"), "");
}

#[test]
fn current_window_is_the_trimmed_reply_or_nothing() {
    assert_eq!(current_window(Some(" a:1 \n")), "a:1");
    assert_eq!(current_window(None), "");
}

#[test]
fn the_list_covers_one_session_or_all() {
    let fmt = "#{window_activity} #{session_last_attached} #{session_name}:#{window_index}";
    assert_eq!(content_list_args(true, ""), Some(vec!["list-windows".to_string(), "-a".into(), "-F".into(), fmt.into()]));
    assert_eq!(
        content_list_args(false, "work"),
        Some(vec!["list-windows".to_string(), "-t".into(), "work".into(), "-F".into(), fmt.into()])
    );
    assert_eq!(content_list_args(false, ""), None);
}

#[test]
fn content_reads_recency_first_with_the_current_window_hoisted() {
    let ws = "10 1 a:1\n30 1 a:2\n20 1 a:3";
    assert_eq!(content_order(ws, "a:3"), "a:3\na:2\na:1");
}

#[test]
fn a_picked_row_names_its_window_and_line() {
    let (t, n) = content_choice("s:1\t 42 \tsome text");
    assert_eq!(t, "s:1");
    assert_eq!(n, Some(42));
    let (t, n) = content_choice("s:1");
    assert_eq!(t, "s:1");
    assert_eq!(n, None);
    assert_eq!(content_choice("s:1\tx\ty").1, None);
}

#[test]
fn labels_name_the_session_when_that_is_the_scope() {
    assert_eq!(content_label(true, "w"), "--list-label= content · enter jump ");
    assert_eq!(content_label(false, "w"), "--list-label= content · w · enter jump ");
    assert_eq!(capture_args("s:1")[5], "s:1");
}

#[test]
fn blank_after_decides_from_what_the_escapes_leave() {
    assert!(!blank_after("alpha", Some("alpha")));
    assert!(blank_after("\x1b[0m", Some("")));
    assert!(blank_after("   ", None));
    assert!(!blank_after("\x1b[0m", None));
    assert!(!is_blank("alpha"));
}
