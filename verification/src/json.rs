//! Reading a list of strings from JSON text.
use vstd::prelude::*;

verus! {

/// The list of strings that JSON text `text` denotes, or `None` where `text` is
/// no JSON array of strings (the outcome of `serde_json::from_str::<Vec<String>>`).
pub uninterp spec fn json_string_list(text: Seq<char>) -> Option<Seq<Seq<char>>>;

/// Calls `serde_json::from_str::<Vec<String>>`; the contract claims only that the
/// outcome is `json_string_list(text@)`, a function of the text alone, with the
/// error mapped to `None`.
#[verifier::external_body]
pub(crate) fn parse_string_list(text: &str) -> (res: Option<Vec<String>>)
    ensures
        res.deep_view() == json_string_list(text@),
{
    serde_json::from_str::<Vec<String>>(text).ok()
}

} // verus!
