use cosmwasm_std::{Empty, Response};
use vstd::prelude::*;

verus! {

/// `cosmwasm_std::Empty`, the kind of custom message of a response that
/// sends none. Nothing is claimed of it.
#[verifier::external_type_specification]
#[verifier::external_body]
pub struct ExEmpty(Empty);

/// `cosmwasm_std::Response`, what an operation hands back to the host. The
/// ledger builds it and never reads it; contracts speak of it through
/// `response_attributes` and `response_is_plain`.
#[verifier::external_type_specification]
#[verifier::external_body]
#[verifier::reject_recursive_types(T)]
pub struct ExResponse<T>(Response<T>);

/// The attributes that a response carries (its field `attributes`), in the
/// order in which they were added, each as a pair of key and value.
pub uninterp spec fn response_attributes(response: Response) -> Seq<(Seq<char>, Seq<char>)>;

/// The response carries nothing besides its attributes: its fields
/// `messages` and `events` are empty and its field `data` is `None`.
pub uninterp spec fn response_is_plain(response: Response) -> bool;

/// The response carries exactly these attributes and nothing else.
pub open spec fn reports(response: Response, attributes: Seq<(Seq<char>, Seq<char>)>) -> bool {
    response_attributes(response) == attributes && response_is_plain(response)
}

/// `cosmwasm_std::Response::new`: a response without attributes, messages,
/// events or data.
#[verifier::external_body]
pub(crate) fn new_response() -> (response: Response)
    ensures
        response_attributes(response) == Seq::<(Seq<char>, Seq<char>)>::empty(),
        response_is_plain(response),
{
    Response::new()
}

/// `cosmwasm_std::Response::add_attribute`: the same response with one more
/// attribute at the end, and nothing else changed. The key must not start
/// with an underscore: the outside crate reserves such keys and, in a debug
/// build, panics on one.
#[verifier::external_body]
pub(crate) fn add_attribute(response: Response, key: &str, value: &str) -> (out: Response)
    requires
        key@.len() == 0 || key@[0] != '_',
    ensures
        response_attributes(out) == response_attributes(response).push((key@, value@)),
        response_is_plain(out) == response_is_plain(response),
{
    response.add_attribute(key, value)
}

} // verus!
