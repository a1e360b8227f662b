use peekr::logs::{log_line_text, log_lines, log_start, split_ts, LogStart, OutputKind, LOG_TAIL};

#[test]
fn split_ts_separates_docker_timestamp() {
    let (ts, msg) = split_ts("2024-05-01T12:00:00.123456789Z hello world");
    assert_eq!(ts.as_deref(), Some("2024-05-01T12:00:00.123456789Z"));
    assert_eq!(msg, "hello world");
}

#[test]
fn split_ts_keeps_line_without_timestamp() {
    let (ts, msg) = split_ts("short T words here");
    assert_eq!(ts, None);
    assert_eq!(msg, "short T words here");
    let (ts, msg) = split_ts("no-space-at-all");
    assert_eq!(ts, None);
    assert_eq!(msg, "no-space-at-all");
}

#[test]
fn split_ts_needs_a_t_in_the_first_word() {
    let line = "aaaaaaaaaaaaaaaaaaaaaaaaa rest";
    let (ts, msg) = split_ts(line);
    assert_eq!(ts, None);
    assert_eq!(msg, line);
}

#[test]
fn split_ts_counts_twenty_bytes_exactly() {
    // 20 bytes with a T: a timestamp; 19 bytes: not.
    let (ts, msg) = split_ts("0123456789T12345678 x");
    assert_eq!(ts, None);
    assert_eq!(msg, "0123456789T12345678 x");
    let (ts, msg) = split_ts("0123456789T123456789 x");
    assert_eq!(ts.as_deref(), Some("0123456789T123456789"));
    assert_eq!(msg, "x");
}

#[test]
fn split_ts_splits_at_first_space_only() {
    let (ts, msg) = split_ts("2024-05-01T12:00:00Z  two  spaces ");
    assert_eq!(ts.as_deref(), Some("2024-05-01T12:00:00Z"));
    assert_eq!(msg, " two  spaces ");
}

#[test]
fn log_lines_split_and_drop_empty_lines() {
    let out = log_lines(
        OutputKind::StdErr,
        b"2024-05-01T12:00:00.000000000Z first\n\nsecond\n",
    );
    assert_eq!(out.len(), 2);
    assert_eq!(out[0].ts.as_deref(), Some("2024-05-01T12:00:00.000000000Z"));
    assert_eq!(out[0].stream, "stderr");
    assert_eq!(out[0].msg, "first");
    assert_eq!(out[1].ts, None);
    assert_eq!(out[1].stream, "stderr");
    assert_eq!(out[1].msg, "second");
}

#[test]
fn log_lines_label_other_streams_stdout() {
    for kind in [OutputKind::StdOut, OutputKind::StdIn, OutputKind::Console] {
        let out = log_lines(kind, b"a\nb");
        assert_eq!(out.len(), 2);
        assert_eq!(out[0].stream, "stdout");
        assert_eq!(out[1].msg, "b");
    }
}

#[test]
fn log_lines_replace_invalid_utf8() {
    let out = log_lines(OutputKind::StdOut, b"ab\xffcd\n");
    assert_eq!(out.len(), 1);
    assert_eq!(out[0].msg, "ab\u{FFFD}cd");
}

#[test]
fn log_lines_of_nothing() {
    assert!(log_lines(OutputKind::StdOut, b"").is_empty());
    assert!(log_lines(OutputKind::StdOut, b"\n\n\n").is_empty());
}

#[test]
fn log_start_resumes_or_tails() {
    assert_eq!(log_start(Some(1700000000)), LogStart::Since(1700000000));
    assert_eq!(log_start(None), LogStart::Tail("200"));
    assert_eq!(LOG_TAIL, "200");
}

#[test]
fn split_ts_rejoins_to_the_line() {
    for line in [
        "2024-05-01T12:00:00.000Z msg with spaces",
        "plain message",
        "",
        " leading space",
        "2024-05-01T12:00:00.000Z",
    ] {
        let (ts, msg) = split_ts(line);
        match ts {
            Some(ts) => assert_eq!(format!("{ts} {msg}"), line),
            None => assert_eq!(msg, line),
        }
    }
}

#[test]
fn log_lines_keep_all_text_but_breaks() {
    let text = "one\n\ntwo three\nfour\n";
    let out = log_lines(OutputKind::StdOut, text.as_bytes());
    let joined: String = out.iter().map(|l| l.msg.as_str()).collect();
    assert_eq!(joined, text.replace('\n', ""));
}

#[test]
fn log_line_text_is_the_line() {
    let text = "2024-05-01T12:00:00.000Z hello there\nplain line\n";
    let out = log_lines(OutputKind::StdOut, text.as_bytes());
    assert_eq!(log_line_text(&out[0]), "2024-05-01T12:00:00.000Z hello there");
    assert_eq!(log_line_text(&out[1]), "plain line");
}
