//! The few calls that leave the verified world: standard-library string
//! formatting and conversion, and the document-batch parse through serde_json.
use vstd::prelude::*;
use vstd::utf8::{encode_utf8, valid_utf8};

verus! {

/// A digit character, for values below ten.
pub open spec fn decimal_digit(d: u64) -> char {
    ((48 + d) as u8) as char
}

/// The decimal digits of `n`, most significant first, as std formats a u64.
pub open spec fn decimal_of(n: u64) -> Seq<char>
    decreases n,
{
    if n < 10 {
        seq![decimal_digit(n)]
    } else {
        decimal_of(n / 10).push(decimal_digit(n % 10))
    }
}

/// The name issued for the snapshot with serial `n`.
pub open spec fn snapshot_id_view(n: u64) -> Seq<char> {
    "snapshot-"@ + decimal_of(n)
}

/// Where the snapshot named `id` lives under the snapshot directory.
pub open spec fn snapshot_path_view(dir: Seq<char>, id: Seq<char>) -> Seq<char> {
    dir + "/"@ + id + ".snap"@
}

/// Relies on std's `format!` (`u64` as `Display`): the decimal digits of `n`,
/// most significant first, appended to the fixed prefix.
#[verifier::external_body]
pub fn format_snapshot_id(n: u64) -> (r: String)
    ensures
        r@ == snapshot_id_view(n),
{
    format!("snapshot-{}", n)
}

/// Relies on std's `format!` (`str` as `Display`): plain concatenation of the
/// directory, a slash, the name and the fixed extension.
#[verifier::external_body]
pub fn format_snapshot_path(dir: &str, id: &str) -> (r: String)
    ensures
        r@ == snapshot_path_view(dir@, id@),
{
    format!("{}/{}.snap", dir, id)
}

/// Whether a document batch parses as an array of field-to-value maps. The
/// result is a function of the text alone.
pub uninterp spec fn doc_batch_ok(s: Seq<char>) -> bool;

/// Relies on serde_json::from_str for `Vec<IndexMap<String, Value>>`: whether
/// the text parses depends on the characters alone.
#[verifier::external_body]
pub fn parse_document_batch(s: &str) -> (r: bool)
    ensures
        r == doc_batch_ok(s@),
{
    serde_json::from_str::<Vec<indexmap::IndexMap<String, serde_json::Value>>>(s).is_ok()
}

/// Relies on String::from_utf8: succeeds exactly on valid UTF-8 and returns
/// the string with those very bytes.
#[verifier::external_body]
pub fn string_from_utf8(v: Vec<u8>) -> (r: Option<String>)
    ensures
        r is Some <==> valid_utf8(v@),
        r matches Some(s) ==> encode_utf8(s@) == v@,
{
    match String::from_utf8(v) {
        Ok(s) => Some(s),
        Err(_) => None,
    }
}

} // verus!
