//! Submitting a recording: the key under which it is stored and the input of its run.

use crate::error::ClientError;
use crate::json::json_literal;
use crate::json::quote;
use crate::text::chars_of;
use vstd::prelude::*;

verus! {

/// The language of a recording, unless the caller names another.
pub const DEFAULT_LANGUAGE: &'static str = "en-US";

/// What the client sends for one recording: where it is stored, and the input of the run.
#[derive(Debug, PartialEq, Eq)]
pub struct Submission {
    pub bucket: String,
    /// The key of the object that holds the recording.
    pub key: String,
    /// The input of the run, as JSON text.
    pub input: String,
}

/// Whether `part` lies in `whole` as a run of neighbouring characters.
pub open spec fn is_part_of(part: Seq<char>, whole: Seq<char>) -> bool {
    exists|from: int|
        0 <= from && from + part.len() <= whole.len() && #[trigger] whole.subrange(
            from,
            from + part.len(),
        ) == part
}

/// Whether the text holds a slash.
pub open spec fn has_slash(text: Seq<char>) -> bool {
    exists|i: int| 0 <= i < text.len() && #[trigger] text[i] == '/'
}

/// The text after the last slash of the path; the whole path where it holds no slash.
pub open spec fn tail(path: Seq<char>) -> Seq<char>
    decreases path.len(),
{
    if path.len() == 0 || path.last() == '/' {
        Seq::empty()
    } else {
        tail(path.drop_last()).push(path.last())
    }
}

/// Whether the path is written in the form that Unix and Windows read alike: it does not
/// begin with a slash and holds neither `\` nor `:`.
pub open spec fn portable(path: Seq<char>) -> bool {
    &&& path.len() > 0 ==> path[0] != '/'
    &&& forall|i: int| 0 <= i < path.len() ==> (#[trigger] path[i]) != '\\' && path[i] != ':'
}

/// Whether the text can be the name of a file: it is not empty, not `.` and not `..`.
pub open spec fn is_name(name: Seq<char>) -> bool {
    name.len() > 0 && name != seq!['.'] && name != seq!['.', '.']
}

/// Whether the path is portable and ends in the name of a file.
pub open spec fn names_file(path: Seq<char>) -> bool {
    portable(path) && is_name(tail(path))
}

/// The text after the last slash holds no slash.
pub proof fn lemma_tail_has_no_slash(path: Seq<char>)
    ensures
        !has_slash(tail(path)),
    decreases path.len(),
{
    if path.len() > 0 && path.last() != '/' {
        lemma_tail_has_no_slash(path.drop_last());
        let t = tail(path);
        assert forall|i: int| 0 <= i < t.len() implies #[trigger] t[i] != '/' by {
            if i < t.len() - 1 {
                assert(t[i] == tail(path.drop_last())[i]);
            }
        }
    }
}

/// Calls `Path::file_name` of the standard library, which gives the final component of a
/// path where it has one. What separates components depends on the platform; the contract
/// states what the documentation of the standard library gives for Unix and Windows alike:
/// the component is a part of the path, and for a portable path that ends in the name of a
/// file it is this name, the text after the last slash.
#[verifier::external_body]
fn final_component(path: &str) -> (r: Option<String>)
    ensures
        match r {
            Some(name) => is_part_of(name@, path@) && (names_file(path@) ==> name@ == tail(
                path@,
            )),
            None => !names_file(path@),
        },
{
    match std::path::Path::new(path).file_name() {
        Some(name) => Some(name.to_string_lossy().into_owned()),
        None => None,
    }
}

/// Whether the text holds a slash.
pub fn holds_slash(text: &str) -> (r: bool)
    ensures
        r == has_slash(text@),
{
    let chars = chars_of(text);
    let mut i: usize = 0;
    while i < chars.len()
        invariant
            i <= chars.len(),
            chars@ == text@,
            forall|j: int| 0 <= j < i ==> #[trigger] chars@[j] != '/',
        decreases chars.len() - i,
    {
        if chars[i] == '/' {
            return true;
        }
        i += 1;
    }
    false
}

/// The key for the recording at `path`, whose final component is `name`: the component
/// itself. A path without one has no key, nor has one whose component is empty or holds a
/// slash.
pub fn key_of(path: &str, name: Option<String>) -> (r: Result<String, ClientError>)
    ensures
        match name {
            Some(text) if text@.len() > 0 && !has_slash(text@) => r == Ok::<String, ClientError>(
                text,
            ),
            _ => r matches Err(ClientError::InvalidFilename(p)) && p@ == path@,
        },
{
    match name {
        Some(text) => if text.as_str().is_empty() || holds_slash(text.as_str()) {
            Err(ClientError::InvalidFilename(String::from_str(path)))
        } else {
            Ok(text)
        },
        None => Err(ClientError::InvalidFilename(String::from_str(path))),
    }
}

/// The key under which the recording at `path` is stored: the file name of the path. For a
/// portable path that ends in the name of a file, the key is this name, the text after the
/// last slash. Every key is a part of the path, is not empty and holds no slash. Fails where
/// the path has no such file name, and names the path.
pub fn storage_key(path: &str) -> (r: Result<String, ClientError>)
    ensures
        names_file(path@) ==> (r matches Ok(key) && key@ == tail(path@)),
        match r {
            Ok(key) => key@.len() > 0 && is_part_of(key@, path@) && !has_slash(key@),
            Err(e) => e matches ClientError::InvalidFilename(p) && p@ == path@,
        },
{
    proof {
        lemma_tail_has_no_slash(path@);
    }
    key_of(path, final_component(path))
}

/// The input of a run, from the JSON string literals of bucket, key and language.
pub open spec fn input_text(bucket: Seq<char>, key: Seq<char>, language: Seq<char>) -> Seq<char> {
    "{\"bucket\":"@ + bucket + ",\"key\":"@ + key + ",\"languageCode\":"@ + language + "}"@
}

/// Writes the input of a run as a JSON object with the members `bucket`, `key` and
/// `languageCode`. Each argument is a JSON string literal, quotes included.
pub fn input_document(bucket: &str, key: &str, language: &str) -> (r: String)
    ensures
        r@ == input_text(bucket@, key@, language@),
{
    let mut out = String::from_str("{\"bucket\":");
    out.append(bucket);
    out.append(",\"key\":");
    out.append(key);
    out.append(",\"languageCode\":");
    out.append(language);
    out.append("}");
    assert(out@ =~= input_text(bucket@, key@, language@));
    out
}

/// The language that a run is started with: the one that the caller names, else the
/// default.
pub open spec fn language_or_default(language: Option<Seq<char>>) -> Seq<char> {
    match language {
        Some(name) => name,
        None => DEFAULT_LANGUAGE@,
    }
}

/// The input of the run for the object `key` in `bucket`: a JSON object with the three
/// strings as members.
pub open spec fn start_input_text(bucket: Seq<char>, key: Seq<char>, language: Seq<char>) -> Seq<
    char,
> {
    input_text(json_literal(bucket), json_literal(key), json_literal(language))
}

/// What the caller says of the language, as characters.
pub open spec fn named_language(language: Option<&str>) -> Option<Seq<char>> {
    match language {
        Some(name) => Some(name@),
        None => None,
    }
}

/// Writes the input of the run for the object `key` in `bucket`: a JSON object that names
/// bucket, key and language, the default language where the caller names none.
pub fn start_input(bucket: &str, key: &str, language: Option<&str>) -> (r: String)
    ensures
        r@ == start_input_text(bucket@, key@, language_or_default(named_language(language))),
{
    let language = match language {
        Some(name) => name,
        None => DEFAULT_LANGUAGE,
    };
    let bucket_literal = quote(bucket);
    let key_literal = quote(key);
    let language_literal = quote(language);
    input_document(bucket_literal.as_str(), key_literal.as_str(), language_literal.as_str())
}

/// Prepares the submission of the recording at the path `file` to `bucket`; `exists` says
/// whether there is a file at the path. The key is the file name of the path, the input
/// names bucket, key and language. Fails where there is no file or the path has no file
/// name, and names the path. A file at a portable path that ends in the name of a file is
/// always submitted, under this name.
pub fn process_file(bucket: &str, file: &str, exists: bool, language: Option<&str>) -> (r: Result<
    Submission,
    ClientError,
>)
    ensures
        !exists ==> (r matches Err(ClientError::FileMissing(path)) && path@ == file@),
        exists && names_file(file@) ==> (r matches Ok(submission) && submission.key@ == tail(
            file@,
        )),
        exists ==> match r {
            Ok(submission) => {
                &&& submission.bucket@ == bucket@
                &&& submission.key@.len() > 0
                &&& is_part_of(submission.key@, file@)
                &&& !has_slash(submission.key@)
                &&& submission.input@ == start_input_text(
                    bucket@,
                    submission.key@,
                    language_or_default(named_language(language)),
                )
            },
            Err(e) => e matches ClientError::InvalidFilename(path) && path@ == file@,
        },
{
    if !exists {
        return Err(ClientError::FileMissing(String::from_str(file)));
    }
    let key = match storage_key(file) {
        Ok(key) => key,
        Err(e) => { return Err(e); },
    };
    let input = start_input(bucket, key.as_str(), language);
    Ok(Submission { bucket: String::from_str(bucket), key, input })
}

} // verus!
