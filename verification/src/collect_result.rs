//! Typed failures captured as data.
//!
//! A build, run or post-processing failure for one plan is stored inside the
//! plan's own cache entry rather than raised: a recorded failure is itself
//! memoized, which is what keeps a broken toolchain from being rebuilt on
//! every later invocation.

use vstd::prelude::*;
use vstd::string::StringExecFns;

use crate::estimates::{Estimates, Statistic};

verus! {

/// What failed for one plan, with the diagnostics that were captured.
#[derive(Debug)]
pub enum ErrorKind {
    Build(String),
    Run(String),
    PostProcess(String),
}

/// The failure kinds with their diagnostics as character sequences.
pub enum ErrorKindV {
    Build(Seq<char>),
    Run(Seq<char>),
    PostProcess(Seq<char>),
}

impl View for ErrorKind {
    type V = ErrorKindV;

    open spec fn view(&self) -> ErrorKindV {
        match self {
            ErrorKind::Build(s) => ErrorKindV::Build(s@),
            ErrorKind::Run(s) => ErrorKindV::Run(s@),
            ErrorKind::PostProcess(s) => ErrorKindV::PostProcess(s@),
        }
    }
}

/// One captured failure.
#[derive(Debug)]
pub struct Error {
    pub kind: ErrorKind,
}

impl View for Error {
    type V = ErrorKindV;

    open spec fn view(&self) -> ErrorKindV {
        self.kind@
    }
}

impl Clone for Error {
    fn clone(&self) -> (r: Error)
        ensures
            r@ == self@,
    {
        Error {
            kind: match &self.kind {
                ErrorKind::Build(s) => ErrorKind::Build(s.clone()),
                ErrorKind::Run(s) => ErrorKind::Run(s.clone()),
                ErrorKind::PostProcess(s) => ErrorKind::PostProcess(s.clone()),
            },
        }
    }
}

/// The outcome of one cacheable step: a value, or the failure that was
/// captured in its place.
pub type CollectionResult<T> = Result<T, Error>;

/// The deep value of a binary-hash outcome.
pub open spec fn hash_result_view(r: CollectionResult<Vec<u8>>) -> Result<Seq<u8>, ErrorKindV> {
    match r {
        Ok(h) => Ok(h@),
        Err(e) => Err(e@),
    }
}

/// The deep value of a metric table: each name as characters.
pub open spec fn est_deep(table: Seq<(String, Statistic)>) -> Seq<(Seq<char>, Statistic)> {
    table.map_values(|p: (String, Statistic)| (p.0@, p.1))
}

/// The deep value of a measurement outcome.
pub open spec fn estimates_result_view(r: CollectionResult<Estimates>) -> Result<
    Seq<(Seq<char>, Statistic)>,
    ErrorKindV,
> {
    match r {
        Ok(t) => Ok(est_deep(t@)),
        Err(e) => Err(e@),
    }
}

/// Copies a binary-hash outcome.
pub fn hash_result_clone(r: &CollectionResult<Vec<u8>>) -> (c: CollectionResult<Vec<u8>>)
    ensures
        hash_result_view(c) == hash_result_view(*r),
{
    match r {
        Ok(h) => Ok(h.clone()),
        Err(e) => Err(e.clone()),
    }
}

/// Copies a measurement outcome.
pub fn estimates_result_clone(r: &CollectionResult<Estimates>) -> (c: CollectionResult<Estimates>)
    ensures
        estimates_result_view(c) == estimates_result_view(*r),
{
    match r {
        Ok(t) => {
            let copied = crate::estimates::estimates_clone(t);
            proof {
                assert(est_deep(copied@) =~= est_deep(t@));
            }
            Ok(copied)
        },
        Err(e) => Err(e.clone()),
    }
}

} // verus!
