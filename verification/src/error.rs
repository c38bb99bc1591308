//! The error type of the library.

use vstd::prelude::*;
use vstd::string::StringExecFns;

verus! {

/// What can go wrong in the store, the documents and the worker's queue. Where
/// the cause lies in another crate, the variant carries that crate's message.
#[derive(Debug, Clone)]
pub enum ExpmanError {
    /// The file system failed.
    Io(String),
    /// Columns could not be put together under one schema.
    Arrow(String),
    /// The columnar file could not be read or written.
    Parquet(String),
    /// A document could not be parsed or serialised.
    Yaml(String),
    /// A value could not be turned into JSON.
    Json(String),
    /// The worker's queue is closed.
    ChannelClosed,
    /// The directory of the named run does not exist.
    RunNotFound(String),
    /// The directory of the named experiment does not exist.
    ExperimentNotFound(String),
    Other(String),
}

impl ExpmanError {
    /// What the message of an error starts with, before its detail.
    pub open spec fn spec_prefix(self) -> Seq<char> {
        match self {
            ExpmanError::Io(_) => "I/O error: "@,
            ExpmanError::Arrow(_) => "Arrow error: "@,
            ExpmanError::Parquet(_) => "Parquet error: "@,
            ExpmanError::Yaml(_) => "YAML serialization error: "@,
            ExpmanError::Json(_) => "JSON error: "@,
            ExpmanError::ChannelClosed => "Logging engine channel closed"@,
            ExpmanError::RunNotFound(_) => "Run directory not found: "@,
            ExpmanError::ExperimentNotFound(_) => "Experiment not found: "@,
            ExpmanError::Other(_) => Seq::empty(),
        }
    }

    /// The detail that an error carries; empty for one that carries none.
    pub open spec fn spec_detail(self) -> Seq<char> {
        match self {
            ExpmanError::Io(s) => s@,
            ExpmanError::Arrow(s) => s@,
            ExpmanError::Parquet(s) => s@,
            ExpmanError::Yaml(s) => s@,
            ExpmanError::Json(s) => s@,
            ExpmanError::ChannelClosed => Seq::empty(),
            ExpmanError::RunNotFound(s) => s@,
            ExpmanError::ExperimentNotFound(s) => s@,
            ExpmanError::Other(s) => s@,
        }
    }

    /// The message of the error: its prefix, then its detail.
    pub fn to_string(&self) -> (r: String)
        ensures
            r@ == self.spec_prefix() + self.spec_detail(),
    {
        proof {
            reveal_strlit("");
        }
        let (prefix, detail) = match self {
            ExpmanError::Io(s) => ("I/O error: ", s.as_str()),
            ExpmanError::Arrow(s) => ("Arrow error: ", s.as_str()),
            ExpmanError::Parquet(s) => ("Parquet error: ", s.as_str()),
            ExpmanError::Yaml(s) => ("YAML serialization error: ", s.as_str()),
            ExpmanError::Json(s) => ("JSON error: ", s.as_str()),
            ExpmanError::ChannelClosed => ("Logging engine channel closed", ""),
            ExpmanError::RunNotFound(s) => ("Run directory not found: ", s.as_str()),
            ExpmanError::ExperimentNotFound(s) => ("Experiment not found: ", s.as_str()),
            ExpmanError::Other(s) => ("", s.as_str()),
        };
        assert(""@ =~= Seq::<char>::empty());
        let mut out = prefix.to_owned();
        out.append(detail);
        out
    }
}

} // verus!
