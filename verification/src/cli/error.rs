//! What can go wrong in a command.
use crate::api::types;
use crate::api::types::ApiError;
use crate::db;
use crate::db::DbError;
use crate::engine::error;
use crate::engine::error::EngineError;
use crate::repo;
use crate::repo::error::RepoError;
use crate::swarm::agent;
use crate::swarm::agent::SwarmError;
use crate::text::chars::concat2;
use crate::thermal;
use crate::thermal::ThermalError;
use vstd::prelude::*;

verus! {

/// What can go wrong in a command.
#[derive(Debug, Clone, PartialEq, Eq)]
pub enum MercuryError {
    Db(DbError),
    Thermal(ThermalError),
    Api(ApiError),
    Repo(RepoError),
    Engine(EngineError),
    Swarm(SwarmError),
    Config(String),
    Io(String),
}

/// What an error says.
pub open spec fn mercury_error_text(e: MercuryError) -> Seq<char> {
    match e {
        MercuryError::Db(x) => "database error: "@ + db::db_error_text(x),
        MercuryError::Thermal(x) => "thermal error: "@ + thermal::thermal_error_text(x),
        MercuryError::Api(x) => "API error: "@ + types::api_error_text(x),
        MercuryError::Repo(x) => "repo error: "@ + repo::error::error_text(x),
        MercuryError::Engine(x) => "engine error: "@ + error::engine_error_text(x),
        MercuryError::Swarm(x) => "swarm error: "@ + agent::swarm_error_text(x),
        MercuryError::Config(m) => "config error: "@ + m@,
        MercuryError::Io(m) => "IO error: "@ + m@,
    }
}

impl MercuryError {
    /// What the error says.
    pub fn to_string(&self) -> (r: String)
        ensures
            r@ == mercury_error_text(*self),
    {
        match self {
            MercuryError::Db(x) => concat2("database error: ", x.to_string().as_str()),
            MercuryError::Thermal(x) => concat2("thermal error: ", x.to_string().as_str()),
            MercuryError::Api(x) => concat2("API error: ", x.to_string().as_str()),
            MercuryError::Repo(x) => concat2("repo error: ", x.to_string().as_str()),
            MercuryError::Engine(x) => concat2("engine error: ", x.to_string().as_str()),
            MercuryError::Swarm(x) => concat2("swarm error: ", x.to_string().as_str()),
            MercuryError::Config(m) => concat2("config error: ", m.as_str()),
            MercuryError::Io(m) => concat2("IO error: ", m.as_str()),
        }
    }
}

} // verus!
