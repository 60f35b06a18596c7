//! Finding the run that was started for a key, from the inputs that the runs recorded.
//!
//! The service keeps no index from keys to runs: the client lists the runs and reads the
//! input of one after the other. Which run to describe next, and when to stop, is decided
//! here; the caller talks to the service.

use crate::error::ClientError;
use crate::json::json_parse;
use crate::json::parse;
use crate::json::Json;
use crate::text::str_eq;
use vstd::prelude::*;

verus! {

/// A listed run: its identifier, and the input that it recorded, as far as the service
/// gave one.
#[derive(Debug, PartialEq, Eq)]
pub struct RunRecord {
    pub execution_arn: String,
    pub input: Option<String>,
}

/// What the client does next while it looks for a run.
#[derive(Debug, Clone, Copy, PartialEq, Eq, Structural)]
pub enum ScanStep {
    /// Describe the run at this index of the listing.
    Describe(usize),
    /// The run at this index was started for the key.
    Found(usize),
    /// No listed run was started for the key.
    NotFound,
}

/// Whether the document is an object whose member `key` is the string `key`.
pub open spec fn names_key(doc: Json, key: Seq<char>) -> bool {
    doc.spec_member("key"@) matches Some(found) && found.spec_text() == Some(key)
}

/// Whether a recorded input is JSON text that names `key`.
pub open spec fn input_names_key(input: Seq<char>, key: Seq<char>) -> bool {
    json_parse(vstd::utf8::encode_utf8(input)) matches Some(doc) && names_key(doc, key)
}

/// Whether what is known of a run's input names `key`; a run without input does not.
pub open spec fn recorded_for(input: Option<Seq<char>>, key: Seq<char>) -> bool {
    input matches Some(text) && input_names_key(text, key)
}

/// Whether the document is an object whose member `key` is the string `key`.
pub fn document_names_key(doc: &Json, key: &str) -> (r: bool)
    ensures
        r == names_key(*doc, key@),
{
    match doc.member("key") {
        Some(found) => match found.as_text() {
            Some(text) => str_eq(text, key),
            None => false,
        },
        None => false,
    }
}

/// Whether a recorded input names `key`. An input that is no JSON text names none.
pub fn input_matches(input: &str, key: &str) -> (r: bool)
    ensures
        r == input_names_key(input@, key@),
{
    match parse(input.as_bytes()) {
        Ok(doc) => document_names_key(&doc, key),
        Err(_) => false,
    }
}

/// The first step of a scan over `listed` runs.
pub open spec fn first_step(listed: usize) -> ScanStep {
    if listed == 0 {
        ScanStep::NotFound
    } else {
        ScanStep::Describe(0)
    }
}

/// The step after the run at `described` has been described: found if its input names the
/// key, else the next run of the listing, or not found when the listing is at its end.
pub open spec fn step_after(listed: usize, described: usize, names: bool) -> ScanStep {
    if names {
        ScanStep::Found(described)
    } else if described + 1 < listed {
        ScanStep::Describe((described + 1) as usize)
    } else {
        ScanStep::NotFound
    }
}

/// Starts a scan over `listed` runs.
pub fn scan_begin(listed: usize) -> (r: ScanStep)
    ensures
        r == first_step(listed),
{
    if listed == 0 {
        ScanStep::NotFound
    } else {
        ScanStep::Describe(0)
    }
}

/// Goes on with a scan over `listed` runs after the run at `described` has been described
/// and has given `input`, or none.
pub fn scan_step(listed: usize, described: usize, input: Option<&str>, key: &str) -> (r: ScanStep)
    ensures
        r == step_after(
            listed,
            described,
            recorded_for(
                match input {
                    Some(text) => Some(text@),
                    None => None,
                },
                key@,
            ),
        ),
{
    let names = match input {
        Some(text) => input_matches(text, key),
        None => false,
    };
    if names {
        ScanStep::Found(described)
    } else if described < listed && described + 1 < listed {
        ScanStep::Describe(described + 1)
    } else {
        ScanStep::NotFound
    }
}

/// What is known of the input of a record.
pub open spec fn input_of(record: RunRecord) -> Option<Seq<char>> {
    match record.input {
        Some(text) => Some(text@),
        None => None,
    }
}

/// The index of the first record whose input names `key`; `records.len()` if there is none.
pub open spec fn first_match(records: Seq<RunRecord>, key: Seq<char>) -> int
    decreases records.len(),
{
    if records.len() == 0 {
        0
    } else if recorded_for(input_of(records[0]), key) {
        0
    } else {
        1 + first_match(records.drop_first(), key)
    }
}

/// Finds the run that was started for `file_key`: the first listed run whose recorded
/// input names the key. Fails where no listed run does.
pub fn find_execution(records: &[RunRecord], file_key: &str) -> (r: Result<String, ClientError>)
    ensures
        match r {
            Ok(arn) => first_match(records@, file_key@) < records@.len() && arn
                == records@[first_match(records@, file_key@)].execution_arn,
            Err(e) => first_match(records@, file_key@) == records@.len() && (e matches ClientError::NoExecutionFound(
                key,
            ) && key@ == file_key@),
        },
{
    let listed = records.len();
    let mut step = scan_begin(listed);
    let ghost mut at: int = 0;
    assert(records@.skip(0) =~= records@);
    loop
        invariant
            listed == records.len(),
            0 <= at <= listed,
            first_match(records@, file_key@) == at + first_match(records@.skip(at), file_key@),
            match step {
                ScanStep::Describe(i) => i == at && at < listed,
                ScanStep::Found(i) => i == at && at < listed && recorded_for(
                    input_of(records@[at]),
                    file_key@,
                ),
                ScanStep::NotFound => at == listed,
            },
        decreases listed - at, (if step is Describe { 1int } else { 0int }),
    {
        match step {
            ScanStep::Describe(i) => {
                let input = match &records[i].input {
                    Some(text) => Some(text.as_str()),
                    None => None,
                };
                assert(records@.skip(at)[0] == records@[at]);
                step = scan_step(listed, i, input, file_key);
                proof {
                    if !(step is Found) {
                        assert(records@.skip(at).drop_first() =~= records@.skip(at + 1));
                        at = at + 1;
                    }
                }
            },
            ScanStep::Found(i) => {
                assert(records@.skip(at)[0] == records@[at]);
                return Ok(records[i].execution_arn.clone());
            },
            ScanStep::NotFound => {
                assert(records@.skip(at).len() == 0);
                return Err(ClientError::NoExecutionFound(String::from_str(file_key)));
            },
        }
    }
}

} // verus!
