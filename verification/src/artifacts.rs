//! The artifacts of a run: under which keys they lie and how their content is read.

use crate::error::ClientError;
use crate::json::json_parse;
use crate::json::parse;
use crate::json::Json;
use crate::text::chars_of;
use crate::text::push_char;
use crate::text::utf8_text;
use vstd::prelude::*;
use vstd::utf8::decode_utf8;
use vstd::utf8::valid_utf8;

verus! {

/// What follows the name of a recording in the key of its transcript.
pub const TRANSCRIPT_SUFFIX: &'static str = "-transcript.json";

/// What follows the name of a recording in the key of its report.
pub const REPORT_SUFFIX: &'static str = "-report.md";

/// The key of an artifact of the recording stored under `key`: the key, then the suffix.
pub fn artifact_key(key: &str, suffix: &str) -> (r: String)
    ensures
        r@ == key@ + suffix@,
{
    String::from_str(key).concat(suffix)
}

/// The key of the transcript of the recording stored under `key`.
pub fn transcript_key(key: &str) -> (r: String)
    ensures
        r@ == key@ + TRANSCRIPT_SUFFIX@,
{
    artifact_key(key, TRANSCRIPT_SUFFIX)
}

/// The key of the report on the recording stored under `key`.
pub fn report_key(key: &str) -> (r: String)
    ensures
        r@ == key@ + REPORT_SUFFIX@,
{
    artifact_key(key, REPORT_SUFFIX)
}

/// The transcript that a transcription document holds: the string `transcript` of the
/// first element of `transcripts` in `results`.
pub open spec fn transcript_in(doc: Json) -> Option<Seq<char>> {
    match doc.spec_member("results"@) {
        Some(results) => match results.spec_member("transcripts"@) {
            Some(transcripts) => match transcripts.spec_element(0) {
                Some(first) => match first.spec_member("transcript"@) {
                    Some(transcript) => transcript.spec_text(),
                    None => None,
                },
                None => None,
            },
            None => None,
        },
        None => None,
    }
}

/// Reads the transcript from a transcription document.
pub fn transcript_of(doc: &Json) -> (r: Option<&str>)
    ensures
        match r {
            Some(text) => transcript_in(*doc) == Some(text@),
            None => transcript_in(*doc) is None,
        },
{
    let results = match doc.member("results") {
        Some(found) => found,
        None => { return None; },
    };
    let transcripts = match results.member("transcripts") {
        Some(found) => found,
        None => { return None; },
    };
    let first = match transcripts.element(0) {
        Some(found) => found,
        None => { return None; },
    };
    let transcript = match first.member("transcript") {
        Some(found) => found,
        None => { return None; },
    };
    transcript.as_text()
}

/// Reads the transcript from `content`, the content of the object `key` in `bucket`. Fails
/// where the content is no JSON text, with the message of the reader, or is JSON of another
/// shape; the failure names the object.
pub fn decode_transcript(bucket: &str, key: &str, content: &[u8]) -> (r: Result<
    String,
    ClientError,
>)
    ensures
        match r {
            Ok(text) => json_parse(content@) matches Some(doc) && transcript_in(doc) == Some(
                text@,
            ),
            Err(e) => match json_parse(content@) {
                Some(doc) => transcript_in(doc) is None && (
                e matches ClientError::InvalidTranscriptFormat { bucket: b, key: k } && b@
                    == bucket@ && k@ == key@),
                None => e matches ClientError::MalformedJson { bucket: b, key: k, detail: _ }
                    && b@ == bucket@ && k@ == key@,
            },
        },
{
    let doc = match parse(content) {
        Ok(doc) => doc,
        Err(detail) => {
            return Err(
                ClientError::MalformedJson {
                    bucket: String::from_str(bucket),
                    key: String::from_str(key),
                    detail,
                },
            );
        },
    };
    match transcript_of(&doc) {
        Some(text) => Ok(String::from_str(text)),
        None => Err(
            ClientError::InvalidTranscriptFormat {
                bucket: String::from_str(bucket),
                key: String::from_str(key),
            },
        ),
    }
}

/// `s` without one quotation mark at its start and one at its end, where it has them.
pub open spec fn strip_quotes(s: Seq<char>) -> Seq<char> {
    let rest = if s.len() > 0 && s.first() == '"' {
        s.drop_first()
    } else {
        s
    };
    if rest.len() > 0 && rest.last() == '"' {
        rest.drop_last()
    } else {
        rest
    }
}

/// `s` with each backslash that is followed by `n` replaced by a line break, and each
/// backslash that is followed by a quotation mark replaced by the quotation mark.
pub open spec fn unescaped(s: Seq<char>) -> Seq<char>
    decreases s.len(),
{
    if s.len() == 0 {
        Seq::empty()
    } else if s.len() >= 2 && s[0] == '\\' && s[1] == 'n' {
        seq!['\n'] + unescaped(s.skip(2))
    } else if s.len() >= 2 && s[0] == '\\' && s[1] == '"' {
        seq!['"'] + unescaped(s.skip(2))
    } else {
        seq![s[0]] + unescaped(s.drop_first())
    }
}

/// The report that the text of a report object holds: the text without one layer of
/// quotation marks and with its escaped line breaks and quotation marks restored.
pub open spec fn report_in(text: Seq<char>) -> Seq<char> {
    unescaped(strip_quotes(text))
}

/// Removes the escapes of a quoted report: see `unescaped`.
pub fn unescape(chars: &[char]) -> (r: String)
    ensures
        r@ == unescaped(chars@),
{
    let mut out = String::new();
    let mut i: usize = 0;
    assert(chars@.skip(0) =~= chars@);
    while i < chars.len()
        invariant
            i <= chars.len(),
            out@ + unescaped(chars@.skip(i as int)) == unescaped(chars@),
        decreases chars.len() - i,
    {
        let ghost rest = chars@.skip(i as int);
        let ghost before = out@;
        assert(rest[0] == chars@[i as int]);
        if chars[i] == '\\' && i + 1 < chars.len() && (chars[i + 1] == 'n' || chars[i + 1] == '"') {
            assert(rest[1] == chars@[i + 1]);
            assert(rest.skip(2) =~= chars@.skip(i + 2));
            if chars[i + 1] == 'n' {
                push_char(&mut out, '\n');
                assert(out@ + unescaped(chars@.skip(i + 2)) =~= before + unescaped(rest));
            } else {
                push_char(&mut out, '"');
                assert(out@ + unescaped(chars@.skip(i + 2)) =~= before + unescaped(rest));
            }
            i += 2;
        } else {
            if i + 1 < chars.len() {
                assert(rest[1] == chars@[i + 1]);
            }
            assert(rest.drop_first() =~= chars@.skip(i + 1));
            push_char(&mut out, chars[i]);
            assert(out@ + unescaped(chars@.skip(i + 1)) =~= before + unescaped(rest));
            i += 1;
        }
    }
    assert(out@ + Seq::<char>::empty() =~= out@);
    out
}

/// Reads the report from `content`, the content of the object `key` in `bucket`: the text
/// without one layer of quotation marks and with its escaped line breaks and quotation
/// marks restored. Fails where the content is not UTF-8; the failure names the object.
pub fn decode_report(bucket: &str, key: &str, content: &[u8]) -> (r: Result<String, ClientError>)
    ensures
        match r {
            Ok(text) => valid_utf8(content@) && text@ == report_in(decode_utf8(content@)),
            Err(e) => !valid_utf8(content@) && (
            e matches ClientError::InvalidReportEncoding { bucket: b, key: k } && b@ == bucket@
                && k@ == key@),
        },
{
    let text = match utf8_text(content) {
        Some(text) => text,
        None => {
            return Err(
                ClientError::InvalidReportEncoding {
                    bucket: String::from_str(bucket),
                    key: String::from_str(key),
                },
            );
        },
    };
    let chars = chars_of(text.as_str());
    let mut start: usize = 0;
    let mut end: usize = chars.len();
    if start < end && chars[start] == '"' {
        start += 1;
    }
    if start < end && chars[end - 1] == '"' {
        end -= 1;
    }
    let inner = vstd::slice::slice_subrange(chars.as_slice(), start, end);
    proof {
        let s = chars@;
        let rest = if s.len() > 0 && s.first() == '"' {
            s.drop_first()
        } else {
            s
        };
        assert(rest =~= s.subrange(start as int, s.len() as int));
        assert(strip_quotes(s) =~= s.subrange(start as int, end as int));
    }
    Ok(unescape(inner))
}

} // verus!
