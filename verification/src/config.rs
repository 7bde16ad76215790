//! Run configuration: recognized options with their defaults, and the
//! validation that turns a missing required input into a configuration
//! error before any work starts.

use vstd::prelude::*;
use crate::entity::Context;
use crate::conflate::{ConflateError, ConflateConfig};

verus! {

/// Options of a conflation run.
pub struct ConflateArgs {
    /// Store target name.
    pub db: String,
    /// Normalization context; empty rules when absent.
    pub context: Option<Context>,
    /// Path of the incoming address dataset (required).
    pub in_address: Option<String>,
    /// Path of the persistent dataset (required).
    pub in_persistent: Option<String>,
    /// Error sink path for the incoming dataset.
    pub error_address: Option<String>,
    /// Error sink path for the persistent dataset.
    pub error_persistent: Option<String>,
    /// Output path.
    pub output: Option<String>,
    /// Decision thresholds.
    pub thresholds: ConflateConfig,
}

impl ConflateArgs {
    /// The defaults: store `dedupe`, no paths, inherited thresholds.
    pub fn new() -> (r: ConflateArgs)
        ensures
            r.db@ == "dedupe"@,
            r.context is None,
            r.in_address is None,
            r.in_persistent is None,
            r.error_address is None,
            r.error_persistent is None,
            r.output is None,
            r.thresholds.wf(),
    {
        ConflateArgs {
            db: "dedupe".to_owned(),
            context: None,
            in_address: None,
            in_persistent: None,
            error_address: None,
            error_persistent: None,
            output: None,
            thresholds: ConflateConfig::new(),
        }
    }

    /// Both inputs are present, exactly when validation accepts.
    pub open spec fn valid(&self) -> bool {
        self.in_address is Some && self.in_persistent is Some
    }

    /// Reject a run with a missing required input as a configuration
    /// error, before any store work.
    pub fn validate(&self) -> (r: Result<(), ConflateError>)
        ensures
            (r is Ok) == self.valid(),
            r matches Err(e) ==> e is Configuration,
    {
        if self.in_persistent.is_none() {
            return Err(ConflateError::Configuration("in_persistent argument is required".to_owned()));
        }
        if self.in_address.is_none() {
            return Err(ConflateError::Configuration("in_address argument is required".to_owned()));
        }
        Ok(())
    }
}

/// Options of a bulk import run.
pub struct MapArgs {
    /// Store target name.
    pub db: String,
    /// Normalization context; empty rules when absent.
    pub context: Option<Context>,
    /// Input path; standard input when absent.
    pub input: Option<String>,
    /// Error sink path.
    pub errors: Option<String>,
}

impl MapArgs {
    /// The defaults: store `map`, no paths.
    pub fn new() -> (r: MapArgs)
        ensures
            r.db@ == "map"@,
            r.context is None,
            r.input is None,
            r.errors is None,
    {
        MapArgs { db: "map".to_owned(), context: None, input: None, errors: None }
    }
}

} // verus!
