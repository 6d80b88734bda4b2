//! What can go wrong in the engine.
use crate::api::transport;
use crate::api::types;
use crate::api::types::ApiError;
use crate::text::chars::{concat2, concat3};
use vstd::prelude::*;
use vstd::string::*;

verus! {

/// What can go wrong in the engine.
#[derive(Debug, Clone, PartialEq, Eq)]
pub enum EngineError {
    Api(ApiError),
    Db(String),
    Thermal(String),
    Repo(String),
    VerificationFailed { reason: String },
    /// More was spent than allowed, in billionths of a dollar.
    BudgetExceeded { spent: i128, limit: i128 },
    Io(String),
    ParseError(String),
    TestFailure(String),
    LintFailure(String),
}

/// What an error says.
pub open spec fn engine_error_text(e: EngineError) -> Seq<char> {
    match e {
        EngineError::Api(x) => "API error: "@ + types::api_error_text(x),
        EngineError::Db(m) => "database error: "@ + m@,
        EngineError::Thermal(m) => "thermal error: "@ + m@,
        EngineError::Repo(m) => "repo error: "@ + m@,
        EngineError::VerificationFailed { reason } => "verification failed: "@ + reason@,
        EngineError::BudgetExceeded { spent, limit } => "budget exceeded: $"@ + transport::dollars(
            spent as int,
        ) + " of $"@ + transport::dollars(limit as int),
        EngineError::Io(m) => "IO error: "@ + m@,
        EngineError::ParseError(m) => "parse error after patch: "@ + m@,
        EngineError::TestFailure(m) => "test failure: "@ + m@,
        EngineError::LintFailure(m) => "lint failure: "@ + m@,
    }
}

impl EngineError {
    /// What the error says.
    pub fn to_string(&self) -> (r: String)
        ensures
            r@ == engine_error_text(*self),
    {
        match self {
            EngineError::Api(x) => concat2("API error: ", x.to_string().as_str()),
            EngineError::Db(m) => concat2("database error: ", m.as_str()),
            EngineError::Thermal(m) => concat2("thermal error: ", m.as_str()),
            EngineError::Repo(m) => concat2("repo error: ", m.as_str()),
            EngineError::VerificationFailed { reason } => concat2(
                "verification failed: ",
                reason.as_str(),
            ),
            EngineError::BudgetExceeded { spent, limit } => {
                let mut r = concat3(
                    "budget exceeded: $",
                    transport::format_dollars(*spent).as_str(),
                    " of $",
                );
                r.append(transport::format_dollars(*limit).as_str());
                r
            },
            EngineError::Io(m) => concat2("IO error: ", m.as_str()),
            EngineError::ParseError(m) => concat2("parse error after patch: ", m.as_str()),
            EngineError::TestFailure(m) => concat2("test failure: ", m.as_str()),
            EngineError::LintFailure(m) => concat2("lint failure: ", m.as_str()),
        }
    }
}

} // verus!
