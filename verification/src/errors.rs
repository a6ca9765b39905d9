use vstd::prelude::*;

verus! {

/// Everything that can stop a settlement run or a table load/save.
///
/// - `Unauthorized`: the caller is not the administrator.
/// - `NoResult`: the result table holds no row to settle against.
/// - `AlreadyProcessed`: the current result was settled before.
/// - `StoreUnavailable`: a backing file could not be read or written.
/// - `MalformedRecord`: a row does not have the entity's field count.
/// - `PointsOverflow`: a credited total would not fit in the points field.
#[derive(Clone, Copy, Debug, PartialEq, Eq, Structural)]
pub enum SettleError {
    Unauthorized,
    NoResult,
    AlreadyProcessed,
    StoreUnavailable,
    MalformedRecord,
    PointsOverflow,
}

impl SettleError {
    /// The one-line message shown to the operator for this error.
    pub fn message(&self) -> (r: &'static str)
        ensures
            r@ == self.spec_message(),
    {
        match self {
            SettleError::Unauthorized => "Only the bot admin can use this command.",
            SettleError::NoResult => "There is no race result to process.",
            SettleError::AlreadyProcessed => "Bets have already been processed for the current event.",
            SettleError::StoreUnavailable => "Error accessing database.",
            SettleError::MalformedRecord => "Error reading a malformed record.",
            SettleError::PointsOverflow => "Error crediting points: a total is too large.",
        }
    }

    pub open spec fn spec_message(&self) -> Seq<char> {
        match self {
            SettleError::Unauthorized => "Only the bot admin can use this command."@,
            SettleError::NoResult => "There is no race result to process."@,
            SettleError::AlreadyProcessed => "Bets have already been processed for the current event."@,
            SettleError::StoreUnavailable => "Error accessing database."@,
            SettleError::MalformedRecord => "Error reading a malformed record."@,
            SettleError::PointsOverflow => "Error crediting points: a total is too large."@,
        }
    }
}

/// The command front end's own failures, kept apart from the settlement
/// errors: a malformed invocation or an unreachable store.
#[derive(Clone, Copy, Debug, PartialEq, Eq, Structural)]
pub enum F1PluginError {
    ArgsError,
    DbError,
}

impl F1PluginError {
    /// The one-line message shown to the operator for this error.
    pub fn message(&self) -> (r: &'static str)
        ensures
            self matches F1PluginError::ArgsError ==> r@ == "Error processing environment argument."@,
            self matches F1PluginError::DbError ==> r@ == "Error accessing database."@,
    {
        match self {
            F1PluginError::ArgsError => "Error processing environment argument.",
            F1PluginError::DbError => "Error accessing database.",
        }
    }
}

} // verus!
