//! The build-identity key namespace.
//!
//! An index key names one (benchmark, toolchain) pair; the store maps it to
//! the hash of the binary that pair built, or to the recorded build failure.
//! Its filename is a slug of the pair's human-readable name.

use vstd::prelude::*;
use vstd::string::StringExecFns;

use crate::run_plan::RunPlan;
use crate::storage::{StorageKey, StorageKeySpec};
use crate::textfmt::str_eq;
use crate::toolchain::Toolchain;

verus! {

/// The ASCII slug of a string.
pub uninterp spec fn slug_of(s: Seq<char>) -> Seq<char>;

/// Slugs a string for use as a filename.
///
/// Relies on `slug::slugify`: the slug is a function of the input characters
/// alone.
#[verifier::external_body]
fn slugify_str(s: &str) -> (r: String)
    ensures
        r@ == slug_of(s@),
{
    slug::slugify(s)
}

/// Names the binary built for one benchmark by one toolchain.
#[derive(Debug)]
pub struct Key {
    pub benchmark_key: String,
    pub toolchain: Option<Toolchain>,
}

/// An index key's two names.
pub struct KeyV {
    pub benchmark_key: Seq<char>,
    pub toolchain: Option<Seq<char>>,
}

impl View for Key {
    type V = KeyV;

    open spec fn view(&self) -> KeyV {
        KeyV {
            benchmark_key: self.benchmark_key@,
            toolchain: match self.toolchain {
                Some(t) => Some(t@),
                None => None,
            },
        }
    }
}

impl Clone for Key {
    fn clone(&self) -> (r: Key)
        ensures
            r@ == self@,
    {
        Key {
            benchmark_key: self.benchmark_key.clone(),
            toolchain: match &self.toolchain {
                Some(t) => Some(t.clone()),
                None => None,
            },
        }
    }
}

impl Key {
    /// The index key of one plan.
    pub fn new(rp: &RunPlan) -> (r: Key)
        ensures
            r@.benchmark_key == rp.benchmark.spec_key(),
            r@.toolchain == rp.toolchain_view(),
    {
        Key {
            benchmark_key: rp.benchmark.key(),
            toolchain: match &rp.toolchain {
                Some(t) => Some(t.clone()),
                None => None,
            },
        }
    }

    /// Whether two index keys name the same (benchmark, toolchain) pair.
    pub fn same_key(&self, other: &Key) -> (r: bool)
        ensures
            r == (self@ == other@),
    {
        if !str_eq(self.benchmark_key.as_str(), other.benchmark_key.as_str()) {
            return false;
        }
        match (&self.toolchain, &other.toolchain) {
            (None, None) => true,
            (Some(a), Some(b)) => str_eq(a.as_str(), b.as_str()),
            _ => false,
        }
    }

    /// The human-readable pair name the filename slug is taken from:
    /// `<benchmark_key>-<toolchain>`, with `current-toolchain` standing in
    /// when no toolchain is named.
    pub open spec fn spec_pair_name(&self) -> Seq<char> {
        self@.benchmark_key + "-"@ + (match self@.toolchain {
            Some(t) => t,
            None => "current-toolchain"@,
        })
    }
}

impl StorageKeySpec for Key {
    open spec fn spec_basename(&self) -> Seq<char> {
        slug_of(self.spec_pair_name())
    }

    open spec fn spec_directory() -> Seq<char> {
        "run-plans"@
    }
}

impl StorageKey for Key {
    fn basename(&self) -> (r: String) {
        let mut name = self.benchmark_key.clone();
        name.append("-");
        match &self.toolchain {
            Some(t) => name.append(t.as_str()),
            None => name.append("current-toolchain"),
        }
        proof {
            reveal_strlit("-");
            assert("-"@ =~= seq!['-']);
            assert(name@ == self.spec_pair_name());
        }
        slugify_str(name.as_str())
    }

    fn directory() -> (r: String) {
        "run-plans".to_owned()
    }
}

} // verus!
