//! Repair planning, failure parsing and dispatch logic of the Mercury command line.
pub mod api;
pub mod cli;
pub mod db;
pub mod engine;
pub mod failure_parser;
pub mod json;
pub mod repo;
pub mod samples;
pub mod score;
pub mod sorting;
pub mod swarm;
pub mod text;
pub mod thermal;
pub mod verification;
