//! Where an instance keeps its files, and what a request finds there.
//!
//! A path is a list of directory names below the data directory.
use crate::clock::utc_now;
use crate::command::{started_in, LaunchAction, LaunchActionView};
use crate::config::{copy_texts, Hook};
use crate::error::{ApiError, ApiErrorView};
use crate::id::{
    digit_index, hex_digit, hyphenated, hyphenated_text, is_hyphen_position,
    lemma_hyphenated_injective, lemma_hyphenated_is_ascii, nibble,
};
use crate::model::{Info, InfoView, Request};
use crate::range::{
    cut_len, lemma_cut_keeps_text_whole, lemma_cut_unique, resolve_range, spec_resolve,
    trim_to_last_newline, trimmed, ByteRange, NEWLINE,
};
use crate::string_map::StringMap;
use substring::Substring;
use vstd::prelude::*;
use vstd::slice::{slice_subrange, slice_to_vec};
use vstd::string::*;
use vstd::utf8::{
    decode_utf8, decode_utf8_encode_utf8, encode_utf8, is_char_boundary, valid_utf8,
};

verus! {

/// The characters of `text` from position `start` up to `end`, both counted
/// in characters and cut off at the end of the text; empty when `end` does
/// not lie behind `start`.
pub open spec fn substring_of(text: Seq<char>, start: int, end: int) -> Seq<char> {
    if end <= start {
        Seq::empty()
    } else {
        let len = text.len() as int;
        text.subrange(
            if start < len {
                start
            } else {
                len
            },
            if end < len {
                end
            } else {
                len
            },
        )
    }
}

/// Calls `substring::Substring::substring` on a string slice. The claim is
/// what its source does: an empty slice when `end_index <= start_index`,
/// else the characters from `start_index` up to `end_index`, where an index
/// past the last character stands for the end of the text.
#[verifier::external_body]
fn substring<'a>(text: &'a str, start_index: usize, end_index: usize) -> (part: &'a str)
    ensures
        part@ == substring_of(text@, start_index as int, end_index as int),
{
    text.substring(start_index, end_index)
}

/// The hexadecimal digits of a hyphenated text that stand behind its first
/// eight: 24 digits, without the hyphens between them.
pub open spec fn remaining_digits(text: Seq<char>) -> Seq<char> {
    text.subrange(9, 13) + text.subrange(14, 18) + text.subrange(19, 23) + text.subrange(24, 36)
}

/// The directory names that lead from the data directory to the files of
/// instance `id`: four names of two hexadecimal digits each, which are the
/// first eight digits of the identifier, then one name of the remaining 24
/// digits.
pub open spec fn hook_data_dir(id: u128) -> Seq<Seq<char>> {
    let text = hyphenated_text(id);
    seq![
        text.subrange(0, 2),
        text.subrange(2, 4),
        text.subrange(4, 6),
        text.subrange(6, 8),
        remaining_digits(text),
    ]
}

/// The scratch directory of instance `id`.
pub open spec fn hook_aux_dir(id: u128) -> Seq<Seq<char>> {
    hook_data_dir(id).push("aux"@)
}

/// The directory of the log files of instance `id`.
pub open spec fn hook_log_dir(id: u128) -> Seq<Seq<char>> {
    hook_data_dir(id).push("log"@)
}

/// The file of the status record of instance `id`.
pub open spec fn hook_info_file(id: u128) -> Seq<Seq<char>> {
    hook_data_dir(id).push("info.json"@)
}

/// Function for returning the directory of a given hook instance, below the
/// data directory
pub fn get_hook_data_dir(id: u128) -> (data_dir: Vec<String>)
    ensures
        data_dir.deep_view() == hook_data_dir(id),
{
    let id_string = hyphenated(id);
    proof {
        lemma_hyphenated_is_ascii(id);
        vstd::utf8::is_ascii_chars_encode_utf8(id_string@);
    }
    let mut data_dir: Vec<String> = Vec::new();
    for i in 0..4usize
        invariant
            id_string@ == hyphenated_text(id),
            id_string@.len() == 36,
            data_dir@.len() == i,
            forall|j: int|
                0 <= j < i ==> (#[trigger] data_dir@[j])@ == id_string@.subrange(2 * j, 2 * j + 2),
    {
        let part = substring(id_string.as_str(), 2 * i, 2 * i + 2);
        data_dir.push(String::from_str(part));
    }
    let rest = String::from_str(substring(id_string.as_str(), 9, 13)).concat(
        substring(id_string.as_str(), 14, 18),
    ).concat(substring(id_string.as_str(), 19, 23)).concat(
        substring(id_string.as_str(), 24, id_string.as_str().len()),
    );
    data_dir.push(rest);
    assert(data_dir.deep_view() =~= hook_data_dir(id));
    data_dir
}

/// The directory of an instance lies five names deep. Each of the first
/// four names is two hexadecimal digits of the identifier, so that no
/// directory above the last holds more than 256 others; the last name is
/// the remaining 24 digits. Digits are counted from the most significant.
pub proof fn lemma_data_dir_shape(id: u128)
    ensures
        hook_data_dir(id).len() == 5,
        forall|level: int|
            0 <= level < 4 ==> (#[trigger] hook_data_dir(id)[level]) == seq![
                hex_digit(nibble(id, 2 * level)),
                hex_digit(nibble(id, 2 * level + 1)),
            ],
        hook_data_dir(id)[4] == Seq::new(24, |k: int| hex_digit(nibble(id, 8 + k))),
{
    let text = hyphenated_text(id);
    let data_dir = hook_data_dir(id);
    assert(data_dir[0] == text.subrange(0, 2));
    assert(data_dir[1] == text.subrange(2, 4));
    assert(data_dir[2] == text.subrange(4, 6));
    assert(data_dir[3] == text.subrange(6, 8));
    assert(data_dir[4] == remaining_digits(text));
    assert forall|level: int| 0 <= level < 4 implies (#[trigger] data_dir[level]) == seq![
        hex_digit(nibble(id, 2 * level)),
        hex_digit(nibble(id, 2 * level + 1)),
    ] by {
        let name = text.subrange(2 * level, 2 * level + 2);
        assert(data_dir[level] == name);
        assert(name[0] == text[2 * level]);
        assert(name[1] == text[2 * level + 1]);
        assert(name =~= seq![
            hex_digit(nibble(id, 2 * level)),
            hex_digit(nibble(id, 2 * level + 1)),
        ]);
    }
    let rest = remaining_digits(text);
    let digits = Seq::new(24, |k: int| hex_digit(nibble(id, 8 + k)));
    assert(rest.len() == 24);
    assert forall|k: int| 0 <= k < 24 implies rest[k] == digits[k] by {
        if k < 4 {
            assert(rest[k] == text[9 + k]);
        } else if k < 8 {
            assert(rest[k] == text[10 + k]);
        } else if k < 12 {
            assert(rest[k] == text[11 + k]);
        } else {
            assert(rest[k] == text[12 + k]);
        }
    }
    assert(rest =~= digits);
}

/// Instances with different identifiers keep their files in different
/// directories.
pub proof fn lemma_data_dir_injective(a: u128, b: u128)
    requires
        hook_data_dir(a) == hook_data_dir(b),
    ensures
        a == b,
{
    let ta = hyphenated_text(a);
    let tb = hyphenated_text(b);
    let da = hook_data_dir(a);
    let db = hook_data_dir(b);
    lemma_data_dir_shape(a);
    lemma_data_dir_shape(b);
    assert forall|i: int| 0 <= i < 36 implies ta[i] == tb[i] by {
        if !is_hyphen_position(i) {
            let k = digit_index(i);
            if k < 8 {
                let level = k / 2;
                assert(da[level] == db[level]);
                assert(da[level][k - 2 * level] == hex_digit(nibble(a, k)));
                assert(db[level][k - 2 * level] == hex_digit(nibble(b, k)));
            } else {
                assert(da[4][k - 8] == hex_digit(nibble(a, k)));
                assert(db[4][k - 8] == hex_digit(nibble(b, k)));
            }
        }
    }
    assert(ta =~= tb);
    lemma_hyphenated_injective(a, b);
}

/// Instances share no file: nothing that lies below the directory of one
/// instance lies below the directory of another.
pub proof fn lemma_instances_share_no_path(a: u128, b: u128, path: Seq<Seq<char>>)
    requires
        a != b,
        hook_data_dir(a).is_prefix_of(path),
    ensures
        !hook_data_dir(b).is_prefix_of(path),
{
    if hook_data_dir(b).is_prefix_of(path) {
        assert(hook_data_dir(a).len() == 5 && hook_data_dir(b).len() == 5);
        assert(hook_data_dir(a) =~= path.subrange(0, 5));
        assert(hook_data_dir(b) =~= path.subrange(0, 5));
        lemma_data_dir_injective(a, b);
    }
}

/// A copy of `path` with `name` added as its last directory or file name.
fn child(path: &Vec<String>, name: &str) -> (longer: Vec<String>)
    ensures
        longer.deep_view() == path.deep_view().push(name@),
{
    let mut longer = copy_texts(path);
    longer.push(String::from_str(name));
    assert(longer.deep_view() =~= path.deep_view().push(name@));
    longer
}

/// The scratch directory of an instance, reserved for the hook's own use.
pub fn get_aux_dir(data_dir: &Vec<String>) -> (aux_dir: Vec<String>)
    ensures
        aux_dir.deep_view() == data_dir.deep_view().push("aux"@),
{
    child(data_dir, "aux")
}

/// The directory that holds the two log files of an instance.
pub fn get_log_dir(data_dir: &Vec<String>) -> (log_dir: Vec<String>)
    ensures
        log_dir.deep_view() == data_dir.deep_view().push("log"@),
{
    child(data_dir, "log")
}

/// The file that holds the status record of an instance.
pub fn get_info_file(data_dir: &Vec<String>) -> (info_file: Vec<String>)
    ensures
        info_file.deep_view() == data_dir.deep_view().push("info.json"@),
{
    child(data_dir, "info.json")
}

/// Ensures that a file exists: given whether it does, this function returns
/// an `ApiError::NotFound` with the text `error` if it does not.
pub fn ensure_file_exists(exists: bool, error: &'static str) -> (found: Result<(), ApiError>)
    ensures
        exists ==> found is Ok,
        !exists ==> found == Err::<(), ApiError>(ApiError::NotFound(error)),
{
    if exists {
        Ok(())
    } else {
        Err(ApiError::NotFound(error))
    }
}

/// The file that holds what the instance wrote to the stream named `stream`.
pub fn get_log_file(log_dir: &Vec<String>, stream: &str) -> (log_file: Vec<String>)
    ensures
        log_file.deep_view() == log_dir.deep_view().push(stream@ + ".txt"@),
{
    let name = String::from_str(stream).concat(".txt");
    child(log_dir, name.as_str())
}

/// What is said of an instance that has no directory.
pub open spec fn no_instance_text() -> Seq<char> {
    "No hook with the matching ID was found"@
}

/// What is said of a stream that has no file yet.
pub open spec fn no_log_text() -> Seq<char> {
    "Hook with the matching ID exists, but log doesn't exist"@
}

/// What is said of a log that cannot be read as text.
pub open spec fn unreadable_log_text(stream: Seq<char>, id: u128) -> Seq<char> {
    "Couldn't read "@ + stream + " for instance "@ + hyphenated_text(id)
}

/// What is said of a status record that cannot be read.
pub open spec fn unreadable_status_text() -> Seq<char> {
    "Couldn't read hook info"@
}

/// What is said of a status record that is no valid record.
pub open spec fn malformed_status_text(id: u128) -> Seq<char> {
    "Couldn't parse json info for instance "@ + hyphenated_text(id)
}

/// The error for a log of instance `id` that cannot be read as text.
pub fn unreadable_log(stream: &str, id: u128) -> (error: ApiError)
    ensures
        error@ == ApiErrorView::InternalServerError(unreadable_log_text(stream@, id)),
{
    let id_string = hyphenated(id);
    ApiError::InternalServerError(
        String::from_str("Couldn't read ").concat(stream).concat(" for instance ").concat(
            id_string.as_str(),
        ),
    )
}

/// Calls `String::from_utf8` and keeps the text where there is one. The
/// claim is what std documents: the call succeeds exactly on bytes that are
/// valid UTF-8, and the text then holds the characters those bytes encode.
#[verifier::external_body]
fn from_utf8(bytes: Vec<u8>) -> (text: Option<String>)
    ensures
        text is Some <==> valid_utf8(bytes@),
        text matches Some(decoded) ==> decoded@ == decode_utf8(bytes@),
{
    String::from_utf8(bytes).ok()
}

/// A part of a log, as it is handed out.
#[derive(Debug, PartialEq, Eq)]
pub struct LogChunk {
    /// The text of the part.
    pub content: String,
    /// The bytes `[start, end)` of the log that `content` holds, where a
    /// range was asked for.
    pub range: Option<(u64, u64)>,
}

/// What a `LogChunk` holds, as plain values.
pub struct LogChunkView {
    pub content: Seq<char>,
    pub range: Option<(u64, u64)>,
}

impl View for LogChunk {
    type V = LogChunkView;

    open spec fn view(&self) -> LogChunkView {
        LogChunkView { content: self.content@, range: self.range }
    }
}

impl LogChunkView {
    /// The status code under which the part is sent: that of a partial
    /// answer where a range was asked for.
    pub open spec fn status_code(self) -> u16 {
        if self.range is Some {
            206
        } else {
            200
        }
    }

    /// The first and the last byte of the log that the part holds, where a
    /// range was asked for and the part holds a byte at all.
    pub open spec fn content_range(self) -> Option<(u64, u64)> {
        match self.range {
            Some((start, end)) if start < end => Some((start, (end - 1) as u64)),
            _ => None,
        }
    }
}

impl LogChunk {
    /// The status code under which the part is sent.
    pub fn status_code(&self) -> (code: u16)
        ensures
            code == self@.status_code(),
    {
        match self.range {
            Some(_) => 206,
            None => 200,
        }
    }

    /// The first and the last byte of the log that the part holds, for the
    /// answer to say which part it is.
    pub fn content_range(&self) -> (ends: Option<(u64, u64)>)
        ensures
            ends == self@.content_range(),
    {
        match self.range {
            Some((start, end)) => if start < end {
                Some((start, end - 1))
            } else {
                None
            },
            None => None,
        }
    }
}

/// The bytes of `log` that a request hands out, with the range they stand at.
///
/// Without a range these are all bytes of the log. With one, they are the
/// bytes of the resolved span up to and including the last line end in it.
pub open spec fn delivered(log: Seq<u8>, range: Option<ByteRange>) -> Result<
    (Seq<u8>, Option<(u64, u64)>),
    ApiError,
> {
    match range {
        None => Ok((log, None)),
        Some(asked) => match spec_resolve(asked, log.len() as u64) {
            Err(error) => Err(error),
            Ok((start, end)) => {
                let part = trimmed(log.subrange(start as int, end as int));
                Ok((part, Some((start, (start + part.len()) as u64))))
            },
        },
    }
}

/// What `read_log` answers.
///
/// `instance_exists` says whether the instance has a log directory, and `log`
/// is what the file of the stream holds, if there is such a file.
pub open spec fn spec_read_log(
    stream: Seq<char>,
    id: u128,
    instance_exists: bool,
    log: Option<Seq<u8>>,
    range: Option<ByteRange>,
) -> Result<LogChunkView, ApiErrorView> {
    if !instance_exists {
        Err(ApiErrorView::NotFound(no_instance_text()))
    } else {
        match log {
            None => Err(ApiErrorView::NotFound(no_log_text())),
            Some(bytes) => match delivered(bytes, range) {
                Err(error) => Err(error@),
                Ok((part, span)) => if valid_utf8(part) {
                    Ok(LogChunkView { content: decode_utf8(part), range: span })
                } else {
                    Err(ApiErrorView::InternalServerError(unreadable_log_text(stream, id)))
                },
            },
        }
    }
}

/// An outcome with the value or the error as plain values.
pub open spec fn chunk_view(outcome: Result<LogChunk, ApiError>) -> Result<
    LogChunkView,
    ApiErrorView,
> {
    match outcome {
        Ok(chunk) => Ok(chunk@),
        Err(error) => Err(error@),
    }
}

/// Reads the stdout or stderr stream of a hook instance, whole or in part,
/// from what its log file holds at this moment
pub fn read_log(
    stream: &str,
    id: u128,
    instance_exists: bool,
    log: Option<&[u8]>,
    range: Option<ByteRange>,
) -> (chunk: Result<LogChunk, ApiError>)
    ensures
        chunk_view(chunk) == spec_read_log(
            stream@,
            id,
            instance_exists,
            match log {
                Some(bytes) => Some(bytes@),
                None => None,
            },
            range,
        ),
{
    if let Err(error) = ensure_file_exists(instance_exists, "No hook with the matching ID was found") {
        return Err(error);
    }
    let bytes = match log {
        Some(bytes) => bytes,
        None => {
            return Err(
                ApiError::NotFound("Hook with the matching ID exists, but log doesn't exist"),
            );
        },
    };
    let (part, span) = match range {
        None => (slice_to_vec(bytes), None),
        Some(asked) => {
            let len = bytes.len() as u64;
            match resolve_range(asked, len) {
                Err(error) => {
                    return Err(error);
                },
                Ok((start, end)) => {
                    let within = slice_subrange(bytes, start as usize, end as usize);
                    let cut = trim_to_last_newline(within);
                    let part = slice_to_vec(slice_subrange(within, 0, cut));
                    (part, Some((start, start + cut as u64)))
                },
            }
        },
    };
    match from_utf8(part) {
        Some(content) => Ok(LogChunk { content, range: span }),
        None => Err(unreadable_log(stream, id)),
    }
}

/// What a range read hands out ends with a line end, or is empty.
///
/// The text handed out is, byte for byte, the log from the start of the span
/// that was asked for up to and including the last line end in that span;
/// it is empty exactly when the span holds no line end.
pub proof fn lemma_range_read_ends_with_newline(
    stream: Seq<char>,
    id: u128,
    log: Seq<u8>,
    asked: ByteRange,
)
    requires
        log.len() <= u64::MAX,
    ensures
        spec_read_log(stream, id, true, Some(log), Some(asked)) matches Ok(chunk) ==> {
            &&& spec_resolve(asked, log.len() as u64) matches Ok((start, end))
            &&& chunk.range matches Some((from, to))
            &&& from == start
            &&& from <= to <= end <= log.len()
            &&& encode_utf8(chunk.content) == log.subrange(from as int, to as int)
            &&& (from == to || log[to - 1] == NEWLINE)
            &&& forall|i: int| to <= i < end ==> log[i] != NEWLINE
        },
{
    if let Ok((start, end)) = spec_resolve(asked, log.len() as u64) {
        let span = log.subrange(start as int, end as int);
        let part = trimmed(span);
        lemma_cut_unique(span, cut_len(span));
        assert(part =~= log.subrange(start as int, start + cut_len(span)));
        if valid_utf8(part) {
            decode_utf8_encode_utf8(part);
            if cut_len(span) > 0 {
                assert(span[cut_len(span) - 1] == log[start + cut_len(span) - 1]);
            }
            assert forall|i: int| start + cut_len(span) <= i < end implies log[i] != NEWLINE by {
                assert(span[i - start] == log[i]);
            }
        }
    }
}

/// A range read of a log that is text so far does not fail on a character
/// that is written in part only.
///
/// `text` is what the hook writes in the end, and `log` is what it has
/// written so far; the log may end in the middle of a character. A range
/// that resolves, and starts where a character of the text starts, is
/// answered with text.
pub proof fn lemma_range_read_of_text(
    stream: Seq<char>,
    id: u128,
    text: Seq<u8>,
    log: Seq<u8>,
    asked: ByteRange,
)
    requires
        valid_utf8(text),
        log.is_prefix_of(text),
        log.len() <= u64::MAX,
        spec_resolve(asked, log.len() as u64) matches Ok((start, _)) && is_char_boundary(
            text,
            start as int,
        ),
    ensures
        spec_read_log(stream, id, true, Some(log), Some(asked)) is Ok,
{
    let (start, end) = spec_resolve(asked, log.len() as u64)->Ok_0;
    assert(log.subrange(start as int, end as int) =~= text.subrange(start as int, end as int));
    lemma_cut_keeps_text_whole(text, start as int, end as int);
}

/// A read without a range hands out the whole log, as long as the log is
/// text.
pub proof fn lemma_whole_read(stream: Seq<char>, id: u128, log: Seq<u8>)
    requires
        valid_utf8(log),
    ensures
        spec_read_log(stream, id, true, Some(log), None) matches Ok(chunk) && chunk.range is None
            && encode_utf8(chunk.content) == log,
{
    decode_utf8_encode_utf8(log);
}

/// What was found where the status record of an instance is kept.
#[derive(Debug, PartialEq, Eq)]
pub enum StatusRecord {
    /// There is no record.
    Missing,
    /// There is a record, and it could not be read.
    Unreadable,
    /// There is a record, and what it holds is no status record.
    Malformed,
    /// The record.
    Parsed(Info),
}

/// Reads the current hook status from what was found of its record
pub fn read_status(id: u128, record: StatusRecord) -> (status: Result<Info, ApiError>)
    ensures
        match record {
            StatusRecord::Missing => status matches Err(error) && error@ == ApiErrorView::NotFound(
                no_instance_text(),
            ),
            StatusRecord::Unreadable => status matches Err(error) && error@
                == ApiErrorView::InternalServerError(unreadable_status_text()),
            StatusRecord::Malformed => status matches Err(error) && error@
                == ApiErrorView::InternalServerError(malformed_status_text(id)),
            StatusRecord::Parsed(info) => status == Ok::<Info, ApiError>(info),
        },
{
    match record {
        StatusRecord::Missing => Err(ApiError::NotFound("No hook with the matching ID was found")),
        StatusRecord::Unreadable => Err(ApiError::internal("Couldn't read hook info")),
        StatusRecord::Malformed => {
            let id_string = hyphenated(id);
            Err(
                ApiError::InternalServerError(
                    String::from_str("Couldn't parse json info for instance ").concat(
                        id_string.as_str(),
                    ),
                ),
            )
        },
        StatusRecord::Parsed(info) => Ok(info),
    }
}

/// Makes the status record of an instance that is started now, and tells to
/// write it to `file`
pub fn write_initial_hook_info(
    hook: &Hook,
    vars: &StringMap,
    request: Request,
    file: Vec<String>,
) -> (action: LaunchAction)
    ensures
        action@ == (LaunchActionView::WriteInfo {
            file: file.deep_view(),
            info: InfoView::initial(request@, hook@, vars@, started_in(action@)),
        }),
{
    let started = utc_now();
    let info = Info::initial(hook, vars, request, started);
    LaunchAction::WriteInfo { file, info }
}

} // verus!
