//! The benchmark registry and runner load balancing.
//!
//! The registry catalogues the known benchmarks with their optional runner
//! assignments; the embedder persists it.  Rebalancing spreads the
//! still-unassigned benchmarks across the runners, heaviest measured
//! runtimes first, always onto the currently lightest runner.

use vstd::prelude::*;
use vstd::string::StringExecFns;

use crate::benchmark::{Benchmark, BenchmarkV};
use crate::estimates::Estimates;
use crate::stats::MAX_METRIC;
use crate::textfmt::str_eq;
use crate::toolchain::Toolchain;

verus! {

/// The persisted catalogue: the runner machines, and every known benchmark
/// under its key.
#[derive(Debug)]
pub struct Registry {
    pub workers: Vec<String>,
    pub benchmarks: Vec<(String, Benchmark)>,
}

/// The views of a keyed benchmark list.
pub open spec fn reg_views(s: Seq<(String, Benchmark)>) -> Seq<(Seq<char>, BenchmarkV)> {
    s.map_values(|p: (String, Benchmark)| (p.0@, p.1@))
}

/// `old` with `update`'s runner taken where `update` has one.
pub open spec fn absorbed_view(old: BenchmarkV, update: BenchmarkV) -> BenchmarkV {
    BenchmarkV {
        runner: (if update.runner is Some {
            update.runner
        } else {
            old.runner
        }),
        name: old.name,
        crate_name: old.crate_name,
        entrypoint_path: old.entrypoint_path,
    }
}

/// `s` with `b` recorded under `key`: the first entry under `key` absorbs
/// `b`'s runner, or a new entry is appended.
pub open spec fn spec_reg_update(
    s: Seq<(Seq<char>, BenchmarkV)>,
    key: Seq<char>,
    b: BenchmarkV,
) -> Seq<(Seq<char>, BenchmarkV)>
    decreases s.len(),
{
    if s.len() == 0 {
        seq![(key, b)]
    } else if s[0].0 == key {
        seq![(key, absorbed_view(s[0].1, b))] + s.drop_first()
    } else {
        seq![s[0]] + spec_reg_update(s.drop_first(), key, b)
    }
}

/// Updating at the first matching position is the same as recording.
proof fn lemma_reg_update_at(
    s: Seq<(Seq<char>, BenchmarkV)>,
    key: Seq<char>,
    b: BenchmarkV,
    at: int,
)
    requires
        0 <= at < s.len(),
        s[at].0 == key,
        forall|j: int| 0 <= j < at ==> (#[trigger] s[j]).0 != key,
    ensures
        spec_reg_update(s, key, b) =~= s.update(at, (key, absorbed_view(s[at].1, b))),
    decreases s.len(),
{
    if at == 0 {
    } else {
        assert(s.drop_first()[at - 1] == s[at]);
        assert forall|j: int| 0 <= j < at - 1 implies (#[trigger] s.drop_first()[j]).0 != key by {
            assert(s.drop_first()[j] == s[j + 1]);
        }
        lemma_reg_update_at(s.drop_first(), key, b, at - 1);
        assert(spec_reg_update(s, key, b) =~= seq![s[0]] + s.drop_first().update(
            at - 1,
            (key, absorbed_view(s[at].1, b)),
        ));
    }
}

/// Recording a fresh key appends it.
proof fn lemma_reg_update_push(s: Seq<(Seq<char>, BenchmarkV)>, key: Seq<char>, b: BenchmarkV)
    requires
        forall|j: int| 0 <= j < s.len() ==> (#[trigger] s[j]).0 != key,
    ensures
        spec_reg_update(s, key, b) =~= s.push((key, b)),
    decreases s.len(),
{
    if s.len() > 0 {
        assert forall|j: int|
            0 <= j < s.drop_first().len() implies (#[trigger] s.drop_first()[j]).0 != key by {
            assert(s.drop_first()[j] == s[j + 1]);
        }
        lemma_reg_update_push(s.drop_first(), key, b);
        assert(spec_reg_update(s, key, b) =~= seq![s[0]] + s.drop_first().push((key, b)));
    }
}

impl Registry {
    /// The runner machines benchmarks may be assigned to.
    pub fn runners(&self) -> (r: &Vec<String>)
        ensures
            r == &self.workers,
    {
        &self.workers
    }

    /// Every catalogued benchmark.
    pub fn benches(&self) -> (r: Vec<Benchmark>)
        ensures
            r@.len() == self.benchmarks@.len(),
            forall|i: int|
                0 <= i < r@.len() ==> (#[trigger] r@[i])@ == self.benchmarks@[i].1@,
    {
        let mut r: Vec<Benchmark> = Vec::new();
        let mut i: usize = 0;
        while i < self.benchmarks.len()
            invariant
                i <= self.benchmarks@.len(),
                r@.len() == i,
                forall|k: int|
                    0 <= k < i ==> (#[trigger] r@[k])@ == self.benchmarks@[k].1@,
            decreases self.benchmarks@.len() - i,
        {
            r.push(self.benchmarks[i].1.clone());
            i = i + 1;
        }
        r
    }

    /// Records `benchmark` in the catalogue: an existing entry under its
    /// key takes the new runner assignment, a missing one is appended.
    pub fn update(&mut self, benchmark: &Benchmark)
        ensures
            reg_views(final(self).benchmarks@) == spec_reg_update(
                reg_views(old(self).benchmarks@),
                benchmark.spec_key(),
                benchmark@,
            ),
            final(self).workers@ == old(self).workers@,
    {
        let key = benchmark.key();
        let ghost orig = reg_views(self.benchmarks@);
        let mut at: Option<usize> = None;
        let mut i: usize = 0;
        while i < self.benchmarks.len()
            invariant
                reg_views(self.benchmarks@) == orig,
                orig.len() == self.benchmarks@.len(),
                key@ == benchmark.spec_key(),
                i <= self.benchmarks@.len(),
                at is None ==> forall|j: int| 0 <= j < i ==> (#[trigger] orig[j]).0 != key@,
                at matches Some(p) ==> p < i && orig[p as int].0 == key@ && forall|j: int|
                    0 <= j < p ==> (#[trigger] orig[j]).0 != key@,
            decreases self.benchmarks@.len() - i,
        {
            proof {
                assert(orig[i as int] == (self.benchmarks@[i as int].0@,
                self.benchmarks@[i as int].1@));
            }
            if at.is_none() && str_eq(self.benchmarks[i].0.as_str(), key.as_str()) {
                at = Some(i);
            }
            i = i + 1;
        }
        match at {
            Some(p) => {
                let mut b = self.benchmarks[p].1.clone();
                b.absorb(benchmark);
                let replaced = (key, b);
                self.benchmarks[p] = replaced;
                proof {
                    lemma_reg_update_at(orig, benchmark.spec_key(), benchmark@, p as int);
                    assert(reg_views(self.benchmarks@) =~= orig.update(
                        p as int,
                        (benchmark.spec_key(), absorbed_view(orig[p as int].1, benchmark@)),
                    ));
                }
            },
            None => {
                let pair = (key, benchmark.clone());
                self.benchmarks.push(pair);
                proof {
                    lemma_reg_update_push(orig, benchmark.spec_key(), benchmark@);
                    assert(reg_views(self.benchmarks@) =~= orig.push(
                        (benchmark.spec_key(), benchmark@),
                    ));
                }
            },
        }
    }
}

/// The catalogued benchmarks that pass an optional runner filter.
pub open spec fn spec_benches_for(s: Seq<BenchmarkV>, runner: Option<Seq<char>>) -> Seq<
    BenchmarkV,
>
    decreases s.len(),
{
    if s.len() == 0 {
        Seq::empty()
    } else {
        let rest = spec_benches_for(s.drop_last(), runner);
        let keep = match runner {
            None => true,
            Some(required) => s.last().runner == Some(required),
        };
        if keep {
            rest + seq![s.last()]
        } else {
            rest
        }
    }
}

/// Reads the catalogued benchmarks out of the registry, keeping only those
/// assigned to `runner` when one is named.
pub fn get_benches(registry: &Registry, runner: Option<&str>) -> (r: Vec<Benchmark>)
    ensures
        r@.map_values(|b: Benchmark| b@) == spec_benches_for(
            registry.benchmarks@.map_values(|p: (String, Benchmark)| p.1@),
            (match runner {
                Some(l) => Some(l@),
                None => None,
            }),
        ),
{
    let all = registry.benches();
    let ghost views = registry.benchmarks@.map_values(|p: (String, Benchmark)| p.1@);
    let ghost wanted: Option<Seq<char>> = match runner {
        Some(l) => Some(l@),
        None => None,
    };
    proof {
        assert(all@.map_values(|b: Benchmark| b@) =~= views);
    }
    let mut r: Vec<Benchmark> = Vec::new();
    let mut i: usize = 0;
    while i < all.len()
        invariant
            i <= all@.len(),
            all@.map_values(|b: Benchmark| b@) == views,
            wanted == (match runner {
                Some(l) => Some(l@),
                None => None::<Seq<char>>,
            }),
            r@.map_values(|b: Benchmark| b@) == spec_benches_for(
                views.subrange(0, i as int),
                wanted,
            ),
        decreases all@.len() - i,
    {
        proof {
            assert(views.subrange(0, i + 1).drop_last() =~= views.subrange(0, i as int));
            assert(views.subrange(0, i + 1).last() == views[i as int]);
            assert(views[i as int] == all@[i as int]@);
        }
        let keep = match runner {
            None => true,
            Some(required) => match &all[i].runner {
                Some(assigned) => str_eq(assigned.as_str(), required),
                None => false,
            },
        };
        if keep {
            let b = all[i].clone();
            r.push(b);
            proof {
                assert(r@.map_values(|b: Benchmark| b@) =~= spec_benches_for(
                    views.subrange(0, i as int),
                    wanted,
                ).push(views[i as int]));
            }
        }
        i = i + 1;
    }
    proof {
        assert(views.subrange(0, views.len() as int) =~= views);
    }
    r
}

/// The benchmark key of every runtime entry names one of the joined series.
pub open spec fn runtimes_from(
    r: Seq<(i64, String)>,
    all: Seq<(String, Vec<(Option<Toolchain>, Vec<u8>, Estimates)>)>,
) -> bool {
    forall|i: int|
        0 <= i < r.len() ==> exists|b: int|
            0 <= b < all.len() && (#[trigger] r[i]).1@ == (#[trigger] all[b]).0@
}

/// Sorted by runtime, heaviest first.
pub open spec fn sorted_desc(r: Seq<(i64, String)>) -> bool {
    forall|i: int, j: int| 0 <= i < j < r.len() ==> (#[trigger] r[i]).0 >= (#[trigger] r[j]).0
}

/// Picks the toolchain with results for the most benchmarks out of the
/// joined series, and hands back each covered benchmark's wall-clock median
/// under it, heaviest first — the bin-packing order rebalancing consumes.
pub fn most_covered_toolchains_runtimes(
    all: &Vec<(String, Vec<(Option<Toolchain>, Vec<u8>, Estimates)>)>,
) -> (r: Vec<(i64, String)>)
    ensures
        sorted_desc(r@),
        runtimes_from(r@, all@),
{
    // count, per toolchain, how many benchmarks have results under it
    let mut coverage: Vec<(Toolchain, usize)> = Vec::new();
    let mut b: usize = 0;
    while b < all.len()
        invariant
            b <= all@.len(),
        decreases all@.len() - b,
    {
        let series = &all[b].1;
        let mut s: usize = 0;
        while s < series.len()
            invariant
                s <= series@.len(),
            decreases series@.len() - s,
        {
            match &series[s].0 {
                Some(tc) => {
                    let mut found = false;
                    let mut c: usize = 0;
                    while c < coverage.len()
                        invariant
                            c <= coverage@.len(),
                        decreases coverage@.len() - c,
                    {
                        if !found && coverage[c].0.eq(tc) {
                            let count = if coverage[c].1 < usize::MAX {
                                coverage[c].1 + 1
                            } else {
                                coverage[c].1
                            };
                            let bumped = (coverage[c].0.clone(), count);
                            coverage[c] = bumped;
                            found = true;
                        }
                        c = c + 1;
                    }
                    if !found {
                        coverage.push((tc.clone(), 1));
                    }
                },
                None => {},
            }
            s = s + 1;
        }
        b = b + 1;
    }
    if coverage.len() == 0 {
        return Vec::new();
    }
    // the winner: the first toolchain with maximal coverage
    let mut best: usize = 0;
    let mut c: usize = 1;
    while c < coverage.len()
        invariant
            coverage@.len() > 0,
            best < coverage@.len(),
            c <= coverage@.len(),
        decreases coverage@.len() - c,
    {
        if coverage[c].1 > coverage[best].1 {
            best = c;
        }
        c = c + 1;
    }
    let winner = coverage[best].0.clone();
    // that toolchain's wall-clock median per covered benchmark
    let mut runtimes: Vec<(i64, String)> = Vec::new();
    let mut b2: usize = 0;
    while b2 < all.len()
        invariant
            b2 <= all@.len(),
            runtimes_from(runtimes@, all@),
        decreases all@.len() - b2,
    {
        let series = &all[b2].1;
        let mut s: usize = 0;
        while s < series.len()
            invariant
                b2 < all@.len(),
                s <= series@.len(),
                runtimes_from(runtimes@, all@),
            decreases series@.len() - s,
        {
            let matches_winner = match &series[s].0 {
                Some(tc) => tc.eq(&winner),
                None => false,
            };
            if matches_winner {
                match crate::estimates::estimates_get(&series[s].2, "nanoseconds") {
                    Some(stat) => {
                        let entry = (stat.median.point_estimate, all[b2].0.clone());
                        runtimes.push(entry);
                        proof {
                            assert(runtimes@.last().1@ == all@[b2 as int].0@);
                        }
                        s = series.len();
                    },
                    None => {
                        s = s + 1;
                    },
                }
            } else {
                s = s + 1;
            }
        }
        b2 = b2 + 1;
    }
    // heaviest first, so rebalancing packs the big benchmarks first
    let mut i: usize = 0;
    while i < runtimes.len()
        invariant
            i <= runtimes@.len(),
            runtimes_from(runtimes@, all@),
            forall|a: int, b3: int|
                0 <= a < b3 < runtimes@.len() && a < i ==> (#[trigger] runtimes@[a]).0 >= (
                #[trigger] runtimes@[b3]).0,
        decreases runtimes@.len() - i,
    {
        let mut max_at: usize = i;
        let mut j: usize = i + 1;
        while j < runtimes.len()
            invariant
                i <= runtimes@.len(),
                i <= max_at < runtimes@.len(),
                i < j <= runtimes@.len(),
                forall|k: int| i <= k < j ==> (#[trigger] runtimes@[k]).0 <= runtimes@[
                    max_at as int].0,
            decreases runtimes@.len() - j,
        {
            if runtimes[j].0 > runtimes[max_at].0 {
                max_at = j;
            }
            j = j + 1;
        }
        if max_at != i {
            let ghost pre = runtimes@;
            let x = (runtimes[i].0, runtimes[i].1.clone());
            let y = (runtimes[max_at].0, runtimes[max_at].1.clone());
            runtimes[i] = y;
            runtimes[max_at] = x;
            proof {
                assert(runtimes@[i as int].0 == pre[max_at as int].0);
                assert(runtimes@[max_at as int].0 == pre[i as int].0);
                assert(runtimes@[i as int].1@ == pre[max_at as int].1@);
                assert(runtimes@[max_at as int].1@ == pre[i as int].1@);
                assert forall|k: int|
                    0 <= k < runtimes@.len() implies exists|bb: int|
                    0 <= bb < all@.len() && (#[trigger] runtimes@[k]).1@ == (
                    #[trigger] all@[bb]).0@ by {
                    if k == i {
                        assert(runtimes@[k].1@ == pre[max_at as int].1@);
                    } else if k == max_at {
                        assert(runtimes@[k].1@ == pre[i as int].1@);
                    } else {
                        assert(runtimes@[k] == pre[k]);
                    }
                }
            }
        }
        i = i + 1;
    }
    runtimes
}

/// A weight list stays within the all-known-runners set.
pub open spec fn runner_known(workers: Seq<String>, name: Seq<char>) -> bool {
    exists|i: int| 0 <= i < workers.len() && (#[trigger] workers[i])@ == name
}

/// Spreads the not-yet-assigned benchmarks across the runners: walking the
/// measured runtimes (heaviest first, as the caller sorted them), a
/// benchmark already assigned only adds its runtime to its runner's load,
/// and an unassigned one goes to the currently lightest runner.  Returns
/// the fresh assignments, one entry per runner that received any.
pub fn rebalance_assignments(
    registry: &Registry,
    runtimes: &Vec<(i64, String)>,
) -> (r: Vec<(String, Vec<String>)>)
    requires
        registry.workers@.len() > 0,
        forall|i: int| 0 <= i < runtimes@.len() ==> 0 <= (#[trigger] runtimes@[i]).0 <= MAX_METRIC,
    ensures
        forall|g: int|
            0 <= g < r@.len() ==> runner_known(registry.workers@, (#[trigger] r@[g]).0@),
{
    let mut weights: Vec<(i128, usize)> = Vec::new();
    let mut w: usize = 0;
    while w < registry.workers.len()
        invariant
            w <= registry.workers@.len(),
            weights@.len() == w,
            forall|k: int| 0 <= k < w ==> (#[trigger] weights@[k]).1 == k && weights@[k].0 == 0,
        decreases registry.workers@.len() - w,
    {
        weights.push((0i128, w));
        w = w + 1;
    }
    let mut groups: Vec<(String, Vec<String>)> = Vec::new();
    let mut i: usize = 0;
    while i < runtimes.len()
        invariant
            i <= runtimes@.len(),
            forall|k: int|
                0 <= k < runtimes@.len() ==> 0 <= (#[trigger] runtimes@[k]).0 <= MAX_METRIC,
            weights@.len() == registry.workers@.len(),
            registry.workers@.len() > 0,
            forall|k: int|
                0 <= k < weights@.len() ==> (#[trigger] weights@[k]).1
                    < registry.workers@.len(),
            forall|g: int|
                0 <= g < groups@.len() ==> runner_known(
                    registry.workers@,
                    (#[trigger] groups@[g]).0@,
                ),
            forall|k: int|
                0 <= k < weights@.len() ==> (#[trigger] weights@[k]).0
                    <= (i as int) * (MAX_METRIC as int),
        decreases runtimes@.len() - i,
    {
        let key = &runtimes[i].1;
        let ns = runtimes[i].0;
        // which runner, if any, this benchmark is already assigned to
        let mut assigned: Option<usize> = None;
        let mut b: usize = 0;
        while b < registry.benchmarks.len()
            invariant
                b <= registry.benchmarks@.len(),
                weights@.len() == registry.workers@.len(),
                (match assigned {
                    Some(wi) => wi < registry.workers@.len(),
                    None => true,
                }),
            decreases registry.benchmarks@.len() - b,
        {
            if assigned.is_none() && str_eq(registry.benchmarks[b].0.as_str(), key.as_str()) {
                match &registry.benchmarks[b].1.runner {
                    Some(rn) => {
                        let mut w2: usize = 0;
                        while w2 < registry.workers.len()
                            invariant
                                w2 <= registry.workers@.len(),
                                weights@.len() == registry.workers@.len(),
                                (match assigned {
                                    Some(wi) => wi < registry.workers@.len(),
                                    None => true,
                                }),
                            decreases registry.workers@.len() - w2,
                        {
                            if assigned.is_none() && str_eq(
                                registry.workers[w2].as_str(),
                                rn.as_str(),
                            ) {
                                assigned = Some(w2);
                            }
                            w2 = w2 + 1;
                        }
                    },
                    None => {},
                }
            }
            b = b + 1;
        }
        match assigned {
            Some(wi) => {
                let updated = (weights[wi].0 + ns as i128, weights[wi].1);
                proof {
                    assert((i as int) * (MAX_METRIC as int) + MAX_METRIC == (i + 1) * (
                    MAX_METRIC as int)) by (nonlinear_arith);
                    assert(forall|k: int|
                        0 <= k < weights@.len() ==> (#[trigger] weights@[k]).0 <= (i + 1) * (
                        MAX_METRIC as int));
                }
                weights[wi] = updated;
            },
            None => {
                // lightest runner takes the new benchmark
                let mut best: usize = 0;
                let mut w3: usize = 1;
                while w3 < weights.len()
                    invariant
                        weights@.len() == registry.workers@.len(),
                        registry.workers@.len() > 0,
                        best < weights@.len(),
                        w3 <= weights@.len(),
                        forall|k: int|
                            0 <= k < weights@.len() ==> (#[trigger] weights@[k]).1
                                < registry.workers@.len(),
                    decreases weights@.len() - w3,
                {
                    if weights[w3].0 < weights[best].0 {
                        best = w3;
                    }
                    w3 = w3 + 1;
                }
                let runner_idx = weights[best].1;
                let runner_name = registry.workers[runner_idx].clone();
                let updated = (weights[best].0 + ns as i128, weights[best].1);
                proof {
                    assert((i as int) * (MAX_METRIC as int) + MAX_METRIC == (i + 1) * (
                    MAX_METRIC as int)) by (nonlinear_arith);
                    assert(forall|k: int|
                        0 <= k < weights@.len() ==> (#[trigger] weights@[k]).0 <= (i + 1) * (
                        MAX_METRIC as int));
                }
                weights[best] = updated;
                // find or create the runner's group
                let mut gi: Option<usize> = None;
                let mut g: usize = 0;
                while g < groups.len()
                    invariant
                        g <= groups@.len(),
                        (match gi {
                            Some(x) => x < groups@.len(),
                            None => true,
                        }),
                        forall|k: int|
                            0 <= k < groups@.len() ==> runner_known(
                                registry.workers@,
                                (#[trigger] groups@[k]).0@,
                            ),
                    decreases groups@.len() - g,
                {
                    if gi.is_none() && str_eq(groups[g].0.as_str(), runner_name.as_str()) {
                        gi = Some(g);
                    }
                    g = g + 1;
                }
                match gi {
                    Some(x) => {
                        let mut taken = groups.remove(x);
                        taken.1.push(key.clone());
                        groups.insert(x, taken);
                        proof {
                            assert(forall|k: int|
                                0 <= k < groups@.len() ==> runner_known(
                                    registry.workers@,
                                    (#[trigger] groups@[k]).0@,
                                ));
                        }
                    },
                    None => {
                        let mut keys: Vec<String> = Vec::new();
                        keys.push(key.clone());
                        proof {
                            assert(registry.workers@[runner_idx as int]@ == runner_name@);
                        }
                        groups.push((runner_name, keys));
                    },
                }
            },
        }
        i = i + 1;
    }
    groups
}

} // verus!
