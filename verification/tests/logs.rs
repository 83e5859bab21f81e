use hookd::file::{read_log, read_status, unreadable_log, LogChunk, StatusRecord};
use hookd::range::ByteRange;
use hookd::ApiError;

const ID: u128 = 0x67e55044_10b1_426f_9247_bb680e5fe0c8;

fn chunk(content: &str, range: Option<(u64, u64)>) -> Result<LogChunk, ApiError> {
    Ok(LogChunk { content: content.to_string(), range })
}

#[test]
fn no_range_read_returns_the_whole_log() {
    let log = "hello\nworld\n".as_bytes();
    assert_eq!(read_log("stdout", ID, true, Some(log), None), chunk("hello\nworld\n", None));
}

#[test]
fn no_range_read_does_not_trim() {
    let log = "hello\nwor".as_bytes();
    assert_eq!(read_log("stdout", ID, true, Some(log), None), chunk("hello\nwor", None));
    assert_eq!(read_log("stderr", ID, true, Some(b""), None), chunk("", None));
}

#[test]
fn suffix_of_5_bytes_of_a_3_byte_log_returns_all_3_bytes() {
    let log = "ab\n".as_bytes();
    assert_eq!(
        read_log("stdout", ID, true, Some(log), Some(ByteRange::Last { length: 5 })),
        chunk("ab\n", Some((0, 3)))
    );
}

#[test]
fn start_10_of_a_3_byte_log_is_not_satisfiable() {
    let log = "ab\n".as_bytes();
    assert_eq!(
        read_log("stdout", ID, true, Some(log), Some(ByteRange::StartingAt { start: 10 })),
        Err(ApiError::RangeNotSatisfiable)
    );
}

#[test]
fn start_5_end_2_is_an_invalid_range() {
    let log = "ab\n".as_bytes();
    assert_eq!(
        read_log("stdout", ID, true, Some(log), Some(ByteRange::Between { start: 5, end: 2 })),
        Err(ApiError::InvalidRange)
    );
    let long = "0123456789\n".as_bytes();
    assert_eq!(
        read_log("stdout", ID, true, Some(long), Some(ByteRange::Between { start: 5, end: 2 })),
        Err(ApiError::InvalidRange)
    );
}

#[test]
fn range_read_ends_at_the_last_newline_of_the_span() {
    let log = "one\ntwo\nthree\n".as_bytes();
    assert_eq!(
        read_log("stdout", ID, true, Some(log), Some(ByteRange::Between { start: 0, end: 6 })),
        chunk("one\n", Some((0, 4)))
    );
    assert_eq!(
        read_log("stdout", ID, true, Some(log), Some(ByteRange::Between { start: 4, end: 8 })),
        chunk("two\n", Some((4, 8)))
    );
    assert_eq!(
        read_log("stdout", ID, true, Some(log), Some(ByteRange::StartingAt { start: 5 })),
        chunk("wo\nthree\n", Some((5, 14)))
    );
    assert_eq!(
        read_log("stdout", ID, true, Some(log), Some(ByteRange::Last { length: 3 })),
        chunk("ee\n", Some((11, 14)))
    );
}

#[test]
fn range_read_without_a_newline_in_the_span_is_empty() {
    let log = "one\ntwo\nthree".as_bytes();
    assert_eq!(
        read_log("stdout", ID, true, Some(log), Some(ByteRange::Between { start: 4, end: 7 })),
        chunk("", Some((4, 4)))
    );
    assert_eq!(
        read_log("stdout", ID, true, Some(log), Some(ByteRange::Last { length: 5 })),
        chunk("", Some((8, 8)))
    );
    assert_eq!(
        read_log("stdout", ID, true, Some(log), Some(ByteRange::StartingAt { start: 13 })),
        chunk("", Some((13, 13)))
    );
}

#[test]
fn range_reads_end_with_a_newline_or_are_empty() {
    let log = "a\nbb\n\nccc\ndddd".as_bytes();
    for start in 0..=log.len() as u64 {
        for end in start + 1..=log.len() as u64 + 2 {
            let read =
                read_log("stdout", ID, true, Some(log), Some(ByteRange::Between { start, end }))
                    .unwrap();
            let (from, to) = read.range.unwrap();
            assert_eq!(from, start);
            assert!(to <= end.min(log.len() as u64));
            assert_eq!(read.content.as_bytes(), &log[from as usize..to as usize]);
            assert!(read.content.is_empty() || read.content.ends_with('\n'));
            assert!(!log[to as usize..end.min(log.len() as u64) as usize].contains(&b'\n'));
        }
    }
}

#[test]
fn partial_character_behind_the_last_newline_is_cut_off() {
    let mut log = "zwölf\n".as_bytes().to_vec();
    log.extend_from_slice(&"€".as_bytes()[0..2]);
    assert_eq!(log.len(), 9);
    assert_eq!(
        read_log("stdout", ID, true, Some(&log), Some(ByteRange::StartingAt { start: 0 })),
        chunk("zwölf\n", Some((0, 7)))
    );
    assert_eq!(
        read_log("stdout", ID, true, Some(&log), Some(ByteRange::Last { length: 100 })),
        chunk("zwölf\n", Some((0, 7)))
    );
}

#[test]
fn log_that_is_no_text_cannot_be_read() {
    let log = [b'a', 0xff, b'\n'];
    let expected = Err(ApiError::InternalServerError(
        "Couldn't read stderr for instance 67e55044-10b1-426f-9247-bb680e5fe0c8".to_string(),
    ));
    assert_eq!(read_log("stderr", ID, true, Some(&log), None), expected);
    assert_eq!(
        read_log("stderr", ID, true, Some(&log), Some(ByteRange::Last { length: 3 })),
        expected
    );
    assert_eq!(unreadable_log("stderr", ID), expected.unwrap_err());
}

#[test]
fn range_that_starts_within_a_character_cannot_be_read() {
    let log = "ö\n".as_bytes();
    assert!(matches!(
        read_log("stdout", ID, true, Some(log), Some(ByteRange::StartingAt { start: 1 })),
        Err(ApiError::InternalServerError(_))
    ));
}

#[test]
fn log_of_an_unknown_instance_is_not_found() {
    assert_eq!(
        read_log("stdout", ID, false, None, None),
        Err(ApiError::NotFound("No hook with the matching ID was found"))
    );
    assert_eq!(
        read_log("stdout", ID, false, Some(b"a\n"), Some(ByteRange::Last { length: 1 })),
        Err(ApiError::NotFound("No hook with the matching ID was found"))
    );
}

#[test]
fn log_that_was_never_created_is_not_found() {
    assert_eq!(
        read_log("stderr", ID, true, None, None),
        Err(ApiError::NotFound("Hook with the matching ID exists, but log doesn't exist"))
    );
    assert_eq!(
        read_log("stderr", ID, true, None, Some(ByteRange::Between { start: 5, end: 2 })),
        Err(ApiError::NotFound("Hook with the matching ID exists, but log doesn't exist"))
    );
}

#[test]
fn status_of_an_unregistered_id_is_not_found() {
    assert_eq!(
        read_status(ID, StatusRecord::Missing),
        Err(ApiError::NotFound("No hook with the matching ID was found"))
    );
}

#[test]
fn status_that_cannot_be_read_is_an_internal_error() {
    assert_eq!(
        read_status(ID, StatusRecord::Unreadable),
        Err(ApiError::InternalServerError("Couldn't read hook info".to_string()))
    );
    assert_eq!(
        read_status(ID, StatusRecord::Malformed),
        Err(ApiError::InternalServerError(
            "Couldn't parse json info for instance 67e55044-10b1-426f-9247-bb680e5fe0c8"
                .to_string()
        ))
    );
}

#[test]
fn whole_log_is_sent_as_a_whole() {
    let whole = LogChunk { content: "a\n".to_string(), range: None };
    assert_eq!(whole.status_code(), 200);
    assert_eq!(whole.content_range(), None);
}

#[test]
fn part_of_a_log_is_sent_as_a_part() {
    let part = LogChunk { content: "a\n".to_string(), range: Some((4, 6)) };
    assert_eq!(part.status_code(), 206);
    assert_eq!(part.content_range(), Some((4, 5)));
    let empty = LogChunk { content: String::new(), range: Some((4, 4)) };
    assert_eq!(empty.status_code(), 206);
    assert_eq!(empty.content_range(), None);
    let first = LogChunk { content: "\n".to_string(), range: Some((0, 1)) };
    assert_eq!(first.content_range(), Some((0, 0)));
}
