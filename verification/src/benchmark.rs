//! Identity of one measurable benchmark.
//!
//! A benchmark is a named function in a named crate, with the path of the
//! generated entrypoint that builds into its runnable binary, and an optional
//! runner label used to spread benchmarks across measurement machines.

use vstd::prelude::*;
use vstd::string::{StrSliceExecFns, StringExecFns};

verus! {

/// Whether `c` is one of the ASCII whitespace characters that are stripped
/// from benchmark names.
pub open spec fn is_name_whitespace(c: char) -> bool {
    c == ' ' || c == '\t' || c == '\n' || c == '\r' || c == '\u{b}' || c == '\u{c}'
}

/// `s` with every ASCII whitespace character removed.
pub open spec fn strip_whitespace(s: Seq<char>) -> Seq<char>
    decreases s.len(),
{
    if s.len() == 0 {
        Seq::empty()
    } else if is_name_whitespace(s.last()) {
        strip_whitespace(s.drop_last())
    } else {
        strip_whitespace(s.drop_last()) + seq![s.last()]
    }
}

/// Returns `s` with every ASCII whitespace character removed.
pub fn strip_whitespace_str(s: &str) -> (r: String)
    ensures
        r@ == strip_whitespace(s@),
{
    let len = s.unicode_len();
    let mut r = String::new();
    let mut i: usize = 0;
    while i < len
        invariant
            len == s@.len(),
            i <= len,
            r@ == strip_whitespace(s@.subrange(0, i as int)),
        decreases len - i,
    {
        let c = s.get_char(i);
        let keep = !(c == ' ' || c == '\t' || c == '\n' || c == '\r' || c == '\u{b}' || c
            == '\u{c}');
        if keep {
            let piece = s.substring_char(i, i + 1);
            r.append(piece);
            proof {
                assert(piece@ =~= seq![s@[i as int]]);
            }
        }
        proof {
            assert(s@.subrange(0, i + 1).drop_last() =~= s@.subrange(0, i as int));
            assert(s@.subrange(0, i + 1).last() == s@[i as int]);
        }
        i = i + 1;
    }
    proof {
        assert(s@.subrange(0, s@.len() as int) =~= s@);
    }
    r
}

/// One measurable unit of code: a function in a crate, plus the entrypoint
/// source that builds into its benchmark binary.
#[derive(Debug)]
pub struct Benchmark {
    /// Label of the measurement machine this benchmark is assigned to, if any.
    pub runner: Option<String>,
    /// The benchmark function's path inside its crate.
    pub name: String,
    /// The crate the benchmark exercises.
    pub crate_name: String,
    /// Path of the generated entrypoint source file.
    pub entrypoint_path: String,
}

/// A benchmark identity's four names.
pub struct BenchmarkV {
    pub runner: Option<Seq<char>>,
    pub name: Seq<char>,
    pub crate_name: Seq<char>,
    pub entrypoint_path: Seq<char>,
}

impl View for Benchmark {
    type V = BenchmarkV;

    open spec fn view(&self) -> BenchmarkV {
        BenchmarkV {
            runner: match self.runner {
                Some(ref r) => Some(r@),
                None => None,
            },
            name: self.name@,
            crate_name: self.crate_name@,
            entrypoint_path: self.entrypoint_path@,
        }
    }
}

impl Clone for Benchmark {
    fn clone(&self) -> (r: Benchmark)
        ensures
            r@ == self@,
            r.spec_key() == self.spec_key(),
            r.runner_view() == self.runner_view(),
    {
        Benchmark {
            runner: match &self.runner {
                Some(r) => Some(r.clone()),
                None => None,
            },
            name: self.name.clone(),
            crate_name: self.crate_name.clone(),
            entrypoint_path: self.entrypoint_path.clone(),
        }
    }
}

impl Benchmark {
    /// The runner label as a sequence, for contracts.
    pub open spec fn runner_view(&self) -> Option<Seq<char>> {
        match self.runner {
            Some(r) => Some(r@),
            None => None,
        }
    }

    /// The key this benchmark is indexed under: `crate::name`.
    pub open spec fn spec_key(&self) -> Seq<char> {
        self.crate_name@ + "::"@ + self.name@
    }

    /// Builds a benchmark identity, stripping whitespace from both names.
    pub fn new(crate_name: &str, name: &str, path: &str) -> (r: Benchmark)
        ensures
            r.runner_view() is None,
            r.name@ == strip_whitespace(name@),
            r.crate_name@ == strip_whitespace(crate_name@),
            r.entrypoint_path@ == path@,
    {
        let mut b = Benchmark {
            runner: None,
            name: name.to_owned(),
            crate_name: crate_name.to_owned(),
            entrypoint_path: path.to_owned(),
        };
        b.strip();
        b
    }

    /// Removes whitespace from the crate and function names, which may have
    /// been pasted in from attribute text.
    pub fn strip(&mut self)
        ensures
            final(self).name@ == strip_whitespace(old(self).name@),
            final(self).crate_name@ == strip_whitespace(old(self).crate_name@),
            final(self).runner_view() == old(self).runner_view(),
            final(self).entrypoint_path@ == old(self).entrypoint_path@,
    {
        self.crate_name = strip_whitespace_str(self.crate_name.as_str());
        self.name = strip_whitespace_str(self.name.as_str());
    }

    /// Assigns this benchmark to a runner.
    pub fn set_runner(&mut self, runner: &str)
        ensures
            final(self).runner_view() == Some(runner@),
            final(self).name@ == old(self).name@,
            final(self).crate_name@ == old(self).crate_name@,
            final(self).entrypoint_path@ == old(self).entrypoint_path@,
    {
        self.runner = Some(runner.to_owned());
    }

    /// The key this benchmark is indexed under: `crate::name`.
    pub fn key(&self) -> (r: String)
        ensures
            r@ == self.spec_key(),
    {
        let mut k = self.crate_name.clone();
        k.append("::");
        k.append(self.name.as_str());
        k
    }

    /// Takes the runner assignment from `other` where it has one, leaving
    /// this benchmark's own assignment in place otherwise.
    pub fn absorb(&mut self, other: &Benchmark)
        ensures
            final(self).runner_view() == (if other.runner_view() is Some {
                other.runner_view()
            } else {
                old(self).runner_view()
            }),
            final(self).name@ == old(self).name@,
            final(self).crate_name@ == old(self).crate_name@,
            final(self).entrypoint_path@ == old(self).entrypoint_path@,
    {
        match &other.runner {
            Some(r) => {
                self.runner = Some(r.clone());
            },
            None => {},
        }
    }
}

} // verus!
