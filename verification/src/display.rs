//! What the command line shows of a run.

use vstd::prelude::*;
use vstd::string::StringSliceAdditionalSpecFns;
use vstd::utf8::decode_utf8;
use vstd::utf8::encode_utf8_decode_utf8;
use vstd::utf8::is_char_boundary;

verus! {

/// Whether the identifier can be shortened: it is short enough to be shown whole, or no
/// character lies across the two places where it is cut.
pub open spec fn can_truncate(arn: Seq<u8>) -> bool {
    arn.len() > 50 ==> is_char_boundary(arn, 25) && is_char_boundary(arn, arn.len() - 22)
}

/// The identifier as it is shown: whole where it is at most 50 bytes long, else its first
/// 25 bytes, three dots, and its last 22 bytes.
pub open spec fn truncated(arn: Seq<u8>) -> Seq<char> {
    if arn.len() > 50 {
        decode_utf8(arn.subrange(0, 25)) + "..."@ + decode_utf8(
            arn.subrange(arn.len() - 22, arn.len() as int),
        )
    } else {
        decode_utf8(arn)
    }
}

/// Shortens the identifier of a run for display.
pub fn truncate_arn(arn: &str) -> (r: String)
    requires
        can_truncate(arn.spec_bytes()),
    ensures
        r@ == truncated(arn.spec_bytes()),
{
    proof {
        encode_utf8_decode_utf8(arn@);
    }
    let len = arn.as_bytes().len();
    if len > 50 {
        let (head, _) = arn.split_at(25);
        let (_, tail) = arn.split_at(len - 22);
        proof {
            encode_utf8_decode_utf8(head@);
            encode_utf8_decode_utf8(tail@);
        }
        let mut out = String::from_str(head);
        out.append("...");
        out.append(tail);
        assert(out@ =~= truncated(arn.spec_bytes()));
        out
    } else {
        String::from_str(arn)
    }
}

/// Whether the identifier can be shortened.
pub fn check_truncate(arn: &str) -> (r: bool)
    ensures
        r == can_truncate(arn.spec_bytes()),
{
    let len = arn.as_bytes().len();
    if len > 50 {
        arn.is_char_boundary(25) && arn.is_char_boundary(len - 22)
    } else {
        true
    }
}

/// The rows of a status report, each a label and a value: file, bucket, status, and the
/// identifier of the run, shortened.
pub fn status_rows(bucket: &str, key: &str, status: &str, execution_arn: &str) -> (rows: Vec<
    (String, String),
>)
    requires
        can_truncate(execution_arn.spec_bytes()),
    ensures
        rows@.len() == 4,
        rows@[0].0@ == "File:"@ && rows@[0].1@ == key@,
        rows@[1].0@ == "Bucket:"@ && rows@[1].1@ == bucket@,
        rows@[2].0@ == "Status:"@ && rows@[2].1@ == status@,
        rows@[3].0@ == "Execution:"@ && rows@[3].1@ == truncated(execution_arn.spec_bytes()),
{
    let mut rows: Vec<(String, String)> = Vec::new();
    rows.push((String::from_str("File:"), String::from_str(key)));
    rows.push((String::from_str("Bucket:"), String::from_str(bucket)));
    rows.push((String::from_str("Status:"), String::from_str(status)));
    rows.push((String::from_str("Execution:"), truncate_arn(execution_arn)));
    rows
}

} // verus!
