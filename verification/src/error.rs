use vstd::prelude::*;

verus! {

/// Why an operation on the ledger was refused.
#[derive(Clone, Copy, Debug, PartialEq, Eq, Structural)]
pub enum ContractError {
    /// A poll was to be created with more options than a poll may have.
    TooManyOptions,
    /// A vote named a poll that the ledger does not hold.
    PollNotFound,
    /// A vote named an option that its poll does not list.
    OptionNotFound,
}

} // verus!
