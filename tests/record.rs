use api_club_bot::dialogue::Entry;
use api_club_bot::record::{
    count_by_sender, encode_record, parse_record, split_lines, stamp, Submission,
};

fn sub(ts: &str, who: &str, artist: &str, song: &str, link: &str) -> Submission {
    Submission {
        timestamp: ts.to_string(),
        sender_id: who.to_string(),
        artist: artist.to_string(),
        song: song.to_string(),
        link: link.to_string(),
    }
}

#[test]
fn line_format() {
    let s = sub("2024-05-01T10:00:00Z", "alice", "\"Daft Punk\"", "\"One More Time\"", "");
    assert_eq!(
        encode_record(&s),
        "2024-05-01T10:00:00Z,alice,\"Daft Punk\",\"One More Time\",\n"
    );
}

#[test]
fn written_record_reads_back() {
    let s = sub(
        "2024-05-01T10:00:00Z",
        "12345",
        "\"A, \"\"B\"\"\"",
        "\"x,y\"",
        "\"https://e.com/?a=1,2\"",
    );
    let line = encode_record(&s);
    let lines = split_lines(&line);
    assert_eq!(lines.len(), 1);
    let back = parse_record(&lines[0]).expect("a record line");
    assert_eq!(back.timestamp, s.timestamp);
    assert_eq!(back.sender_id, s.sender_id);
    assert_eq!(back.artist, s.artist);
    assert_eq!(back.song, s.song);
    assert_eq!(back.link, s.link);
}

#[test]
fn malformed_lines_are_no_records() {
    assert!(parse_record("").is_none());
    assert!(parse_record("no commas").is_none());
    assert!(parse_record("a,b,c").is_none());
    assert!(parse_record("t,u,\"a\",\"s\",x").is_none());
    assert!(parse_record("t,u,\"a,\"s\",").is_none());
}

#[test]
fn count_after_appends() {
    let mut log = String::new();
    for i in 0..3 {
        log.push_str(&encode_record(&sub("t", "alice", "\"a\"", &format!("\"s{}\"", i), "")));
        log.push_str(&encode_record(&sub("t", "carol", "\"a\"", "\"s\"", "")));
    }
    let lines = split_lines(&log);
    assert_eq!(count_by_sender(&lines, "alice"), 3);
    assert_eq!(count_by_sender(&lines, "bob"), 0);
    assert_eq!(count_by_sender(&lines, "carol"), 3);
}

#[test]
fn count_skips_garbage() {
    let lines = vec!["garbage".to_string(), "t,alice,\"a\",\"s\",".to_string(), "".to_string()];
    assert_eq!(count_by_sender(&lines, "alice"), 1);
}

#[test]
fn interleaved_appends_keep_every_record() {
    let chats = 4;
    let per_chat = 5;
    let mut log = String::new();
    for m in 0..per_chat {
        for c in 0..chats {
            let s = sub("t", &format!("chat{}", c), &format!("\"a{}\"", m), "\"s\"", "");
            log.push_str(&encode_record(&s));
        }
    }
    let lines = split_lines(&log);
    assert_eq!(lines.len(), chats * per_chat);
    for l in &lines {
        assert!(parse_record(l).is_some());
    }
    for c in 0..chats {
        assert_eq!(count_by_sender(&lines, &format!("chat{}", c)), per_chat);
    }
}

#[test]
fn split_lines_cases() {
    assert_eq!(split_lines(""), Vec::<String>::new());
    assert_eq!(split_lines("a\nb"), vec!["a".to_string(), "b".to_string()]);
    assert_eq!(split_lines("a\n"), vec!["a".to_string()]);
    assert_eq!(split_lines("\n\n"), vec!["".to_string(), "".to_string()]);
}

#[test]
fn stamped_submission_keeps_fields() {
    let e = Entry { artist: "\"a\"".to_string(), song: "\"s\"".to_string(), link: "".to_string() };
    let s = stamp(1_700_000_000, "alice".to_string(), e).expect("a time in range");
    assert_eq!(s.timestamp, "2023-11-14T22:13:20Z");
    assert_eq!(s.sender_id, "alice");
    assert_eq!(s.artist, "\"a\"");
    let back = parse_record(split_lines(&encode_record(&s))[0].as_str()).unwrap();
    assert_eq!(back.timestamp, s.timestamp);
}

#[test]
fn stamp_epoch_and_out_of_range() {
    let e = || Entry { artist: "\"a\"".to_string(), song: "\"s\"".to_string(), link: "".to_string() };
    assert_eq!(stamp(0, "u".to_string(), e()).unwrap().timestamp, "1970-01-01T00:00:00Z");
    assert_eq!(
        stamp(253402300799, "u".to_string(), e()).unwrap().timestamp,
        "9999-12-31T23:59:59Z"
    );
    assert!(stamp(i64::MAX, "u".to_string(), e()).is_none());
}

#[test]
fn stamped_line_is_complete() {
    let e = Entry {
        artist: "\"Daft Punk\"".to_string(),
        song: "\"One More Time\"".to_string(),
        link: "".to_string(),
    };
    let s = stamp(1_792_238_400, "alice".to_string(), e).unwrap();
    assert_eq!(
        encode_record(&s),
        "2026-10-17T12:00:00Z,alice,\"Daft Punk\",\"One More Time\",\n"
    );
}
