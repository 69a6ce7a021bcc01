//! The collector: memoized build and measurement of run plans.
//!
//! For each plan the collector does the minimum necessary work, against the
//! store: if the plan's binary hash is unknown the plan needs a build; if the
//! hash is known and usable but unmeasured, the plan needs a run; otherwise
//! the plan is done, successful exactly when its recorded build succeeded.
//! Builds and runs are external subprocesses, so the collector is driven as
//! a state machine: [`Collector::next_action`] decides, the embedder
//! performs the action, and [`Collector::record_build_result`] or
//! [`Collector::record_measurement`] stores the outcome — failures included,
//! which is what keeps a broken toolchain from being rebuilt ever again.

use vstd::prelude::*;
use vstd::string::StringExecFns;

use crate::collect_result::CollectionResult;
use crate::estimates::Estimates;
use crate::hashing::bytes_clone;
use crate::index;
use crate::measurement;
use crate::run_plan::{RunPlan, RunPlanV};
use crate::storage::{find_entry, set_entry, spec_abs_path, Container, Store};
use crate::textfmt::{bytes_hex_short, dec_digits, dec_u64, hex_of_bytes_short};
use crate::toolchain::Toolchain;

verus! {

/// The key a plan's build identity is stored under.
pub open spec fn spec_index_key(rp: RunPlanV) -> index::KeyV {
    index::KeyV {
        benchmark_key: rp.benchmark.crate_name + "::"@ + rp.benchmark.name,
        toolchain: rp.toolchain,
    }
}

/// The runner label a plan's measurements are stored under; unassigned plans
/// measure as `anonymous`.
pub open spec fn spec_runner_label(rp: RunPlanV) -> Seq<char> {
    match rp.benchmark.runner {
        Some(l) => l,
        None => "anonymous"@,
    }
}

/// The key a plan's measurement of the binary hashing to `h` is stored
/// under.  The toolchain does not appear: binaries are measured by content.
pub open spec fn spec_measurement_key(rp: RunPlanV, h: Seq<u8>) -> measurement::KeyV {
    measurement::KeyV {
        binary_hash: h,
        runner: spec_runner_label(rp),
        cpu_shield: rp.shield,
    }
}

/// What one plan needs next.
#[derive(Debug)]
pub enum Action {
    /// No binary hash is recorded: build, hash the binary, and record the
    /// outcome under this key.
    Build(index::Key),
    /// The binary (first field) is known but unmeasured under this key:
    /// execute it, post-process, and record the outcome.
    Measure(Vec<u8>, measurement::Key),
    /// Nothing left to do: whether the plan's build succeeded, and the hash
    /// of its binary in short hexadecimal when it did.
    Done(bool, Option<String>),
}

/// Runs benchmarks, memoizes their results, and lets results be shared
/// across toolchains whose binaries are identical.
pub struct Collector {
    storage: Store,
}

impl Collector {
    /// The build-identity records of the underlying store.
    pub closed spec fn index_seq(&self) -> Seq<
        Container<index::Key, CollectionResult<Vec<u8>>>,
    > {
        self.storage.index_seq()
    }

    /// The measurement records of the underlying store.
    pub closed spec fn measurement_seq(&self) -> Seq<
        Container<measurement::Key, CollectionResult<Estimates>>,
    > {
        self.storage.measurement_seq()
    }

    /// The store's root directory.
    pub closed spec fn spec_data_dir(&self) -> Seq<char> {
        self.storage.spec_data_dir()
    }

    /// Whether the plan still needs its build performed.
    pub open spec fn spec_build_needed(&self, rp: RunPlanV) -> bool {
        find_entry(self.index_seq(), spec_index_key(rp)) is None
    }

    /// Whether nothing at all is left to do for the plan: a binary hash is
    /// recorded, and either the build failed (the failure itself is the
    /// cached outcome) or the binary has a measurement record.
    pub open spec fn spec_skippable(&self, rp: RunPlanV) -> bool {
        match find_entry(self.index_seq(), spec_index_key(rp)) {
            Some(c) => match c.contents {
                Ok(h) => find_entry(self.measurement_seq(), spec_measurement_key(rp, h@))
                    is Some,
                Err(_) => false,
            },
            None => false,
        }
    }

    /// A collector over an empty store rooted at `data_dir`.
    pub fn new(data_dir: String) -> (r: Collector)
        ensures
            r.index_seq().len() == 0,
            r.measurement_seq().len() == 0,
            r.spec_data_dir() == data_dir@,
    {
        Collector { storage: Store::new(data_dir) }
    }

    /// A collector over a store the embedder has already loaded from disk.
    pub fn from_store(storage: Store) -> (r: Collector)
        ensures
            r.index_seq() == storage.index_seq(),
            r.measurement_seq() == storage.measurement_seq(),
            r.spec_data_dir() == storage.spec_data_dir(),
    {
        Collector { storage }
    }

    /// The underlying store.
    pub fn store(&self) -> (r: &Store)
        ensures
            r.index_seq() == self.index_seq(),
            r.measurement_seq() == self.measurement_seq(),
            r.spec_data_dir() == self.spec_data_dir(),
    {
        &self.storage
    }

    /// Decides what the plan needs next, from the store alone.
    pub fn next_action(&self, rp: &RunPlan) -> (r: Action)
        ensures
            (match find_entry(self.index_seq(), spec_index_key(rp@)) {
                None => r matches Action::Build(k) && k@ == spec_index_key(rp@),
                Some(c) => (match c.contents {
                    Err(_) => r matches Action::Done(ok, hex) && ok == false && hex is None,
                    Ok(h) => (match find_entry(
                        self.measurement_seq(),
                        spec_measurement_key(rp@, h@),
                    ) {
                        None => r matches Action::Measure(h2, mk) && h2@ == h@ && mk@
                            == spec_measurement_key(rp@, h@),
                        Some(_) => r matches Action::Done(ok, hex) && ok == true && (hex
                            matches Some(x) && x@ == hex_of_bytes_short(h@)),
                    }),
                }),
            }),
    {
        let ikey = index::Key::new(rp);
        proof {
            assert(ikey@ == spec_index_key(rp@));
        }
        match self.storage.get_index(&ikey) {
            None => Action::Build(ikey),
            Some(res) => match res {
                Err(_) => Action::Done(false, None),
                Ok(h) => {
                    let hash = bytes_clone(h);
                    let runner = match &rp.benchmark.runner {
                        Some(l) => Some(l.clone()),
                        None => None,
                    };
                    let shield = match &rp.shield {
                        Some(s) => Some(s.clone()),
                        None => None,
                    };
                    let mkey = measurement::Key::new(bytes_clone(&hash), runner, shield);
                    proof {
                        assert(mkey@ == spec_measurement_key(rp@, h@));
                    }
                    match self.storage.get_measurement(&mkey) {
                        Some(_) => Action::Done(true, Some(bytes_hex_short(&hash))),
                        None => Action::Measure(hash, mkey),
                    }
                },
            },
        }
    }

    /// Whether this plan can be pruned before any toolchain is installed:
    /// its build succeeded before and that binary is measured.
    pub fn plan_can_be_skipped_with_no_work(&self, rp: &RunPlan) -> (r: bool)
        ensures
            r == self.spec_skippable(rp@),
    {
        match self.next_action(rp) {
            Action::Done(ok, _) => ok,
            _ => false,
        }
    }

    /// Records the outcome of the plan's build — the binary's hash, or the
    /// failure itself, which is equally cacheable — and hands back the file
    /// path the embedder must persist the record at.
    pub fn record_build_result(
        &mut self,
        key: index::Key,
        result: CollectionResult<Vec<u8>>,
        generated_at: i64,
    ) -> (path: String)
        ensures
            final(self).index_seq() == set_entry(
                old(self).index_seq(),
                (Container { generated_at, key, contents: result }),
            ),
            final(self).measurement_seq() == old(self).measurement_seq(),
            final(self).spec_data_dir() == old(self).spec_data_dir(),
            path@ == spec_abs_path(&key, old(self).spec_data_dir()),
    {
        self.storage.set_index(key, result, generated_at)
    }

    /// Records the outcome of measuring one binary — the metric table, or
    /// the run failure — and hands back the file path the embedder must
    /// persist the record at.
    pub fn record_measurement(
        &mut self,
        key: measurement::Key,
        result: CollectionResult<Estimates>,
        generated_at: i64,
    ) -> (path: String)
        ensures
            final(self).measurement_seq() == set_entry(
                old(self).measurement_seq(),
                (Container { generated_at, key, contents: result }),
            ),
            final(self).index_seq() == old(self).index_seq(),
            final(self).spec_data_dir() == old(self).spec_data_dir(),
            path@ == spec_abs_path(&key, old(self).spec_data_dir()),
    {
        self.storage.set_measurement(key, result, generated_at)
    }

    /// The plans of `s` that still need work, in order.
    pub open spec fn spec_needed(&self, s: Seq<RunPlanV>) -> Seq<RunPlanV>
        decreases s.len(),
    {
        if s.len() == 0 {
            Seq::empty()
        } else if self.spec_skippable(s.last()) {
            self.spec_needed(s.drop_last())
        } else {
            self.spec_needed(s.drop_last()) + seq![s.last()]
        }
    }

    /// Filters out every plan for which end-to-end results are already
    /// stored.  This runs before any toolchain is installed, since
    /// installing and building are the expensive steps being avoided.
    pub fn compute_builds_needed(&self, plans: &Vec<(Toolchain, Vec<RunPlan>)>) -> (r: Vec<
        (Toolchain, Vec<RunPlan>),
    >)
        ensures
            r@.len() == plans@.len(),
            forall|g: int|
                0 <= g < plans@.len() ==> (#[trigger] r@[g]).0@ == plans@[g].0@ && plan_views(
                    r@[g].1@,
                ) == self.spec_needed(plan_views(plans@[g].1@)),
    {
        let mut r: Vec<(Toolchain, Vec<RunPlan>)> = Vec::new();
        let mut g: usize = 0;
        while g < plans.len()
            invariant
                g <= plans@.len(),
                r@.len() == g,
                forall|k: int|
                    0 <= k < g ==> (#[trigger] r@[k]).0@ == plans@[k].0@ && plan_views(r@[k].1@)
                        == self.spec_needed(plan_views(plans@[k].1@)),
            decreases plans@.len() - g,
        {
            let group = &plans[g];
            let mut needed: Vec<RunPlan> = Vec::new();
            let mut j: usize = 0;
            proof {
                assert(plan_views(group.1@.subrange(0, 0)) =~= Seq::<RunPlanV>::empty());
            }
            while j < group.1.len()
                invariant
                    j <= group.1@.len(),
                    plan_views(needed@) == self.spec_needed(plan_views(group.1@.subrange(0, j as int))),
                decreases group.1@.len() - j,
            {
                let rp = &group.1[j];
                let ghost pre = plan_views(group.1@.subrange(0, j as int));
                let ghost post = plan_views(group.1@.subrange(0, j + 1));
                proof {
                    assert(post.drop_last() =~= pre);
                    assert(post.last() == group.1@[j as int]@);
                }
                if !self.plan_can_be_skipped_with_no_work(rp) {
                    let copied = rp.clone();
                    needed.push(copied);
                    proof {
                        assert(plan_views(needed@) =~= self.spec_needed(pre) + seq![
                            group.1@[j as int]@,
                        ]);
                    }
                }
                j = j + 1;
            }
            proof {
                assert(group.1@.subrange(0, group.1@.len() as int) =~= group.1@);
            }
            r.push((group.0.clone(), needed));
            g = g + 1;
        }
        r
    }

    /// How many of the batch succeeded.
    pub open spec fn spec_count_ok(s: Seq<(bool, RunPlan, Option<String>)>) -> nat
        decreases s.len(),
    {
        if s.len() == 0 {
            0
        } else {
            Self::spec_count_ok(s.drop_last()) + (if s.last().0 {
                1nat
            } else {
                0nat
            })
        }
    }

    /// The commit message for one persisted batch: the toolchain, then how
    /// many plans succeeded and how many failed.
    pub fn batch_summary(toolchain: &Toolchain, results: &Vec<(bool, RunPlan, Option<String>)>)
        -> (r: String)
        ensures
            r@ == toolchain@ + ": "@ + dec_digits(Self::spec_count_ok(results@)) + " ok, "@
                + dec_digits((results@.len() - Self::spec_count_ok(results@)) as nat)
                + " err"@,
    {
        let mut ok: u64 = 0;
        let mut i: usize = 0;
        while i < results.len()
            invariant
                i <= results@.len(),
                ok == Self::spec_count_ok(results@.subrange(0, i as int)),
                ok <= i,
            decreases results@.len() - i,
        {
            proof {
                assert(results@.subrange(0, i + 1).drop_last() =~= results@.subrange(0, i as int));
                assert(results@.subrange(0, i + 1).last() == results@[i as int]);
            }
            if results[i].0 {
                ok = ok + 1;
            }
            i = i + 1;
        }
        proof {
            assert(results@.subrange(0, results@.len() as int) =~= results@);
            lemma_count_ok_bound(results@);
        }
        let err = results.len() - (ok as usize);
        let mut msg = toolchain.as_str().to_owned();
        msg.append(": ");
        let ok_s = dec_u64(ok);
        msg.append(ok_s.as_str());
        msg.append(" ok, ");
        let err_s = dec_u64(err as u64);
        msg.append(err_s.as_str());
        msg.append(" err");
        msg
    }
}

/// The views of a sequence of plans.
pub open spec fn plan_views(s: Seq<RunPlan>) -> Seq<RunPlanV> {
    s.map_values(|p: RunPlan| p@)
}

/// No batch has more successes than entries.
proof fn lemma_count_ok_bound(s: Seq<(bool, RunPlan, Option<String>)>)
    ensures
        Collector::spec_count_ok(s) <= s.len(),
    decreases s.len(),
{
    if s.len() > 0 {
        lemma_count_ok_bound(s.drop_last());
    }
}

/// Caching is idempotent: once one run of a plan has recorded its build
/// outcome (a usable hash) and recorded a measurement of that binary, the
/// same plan is fully skippable — a second run performs no build and no
/// measurement.
pub proof fn lemma_caching_idempotent(
    before: &Collector,
    mid: &Collector,
    after: &Collector,
    rp: &RunPlan,
    ik: index::Key,
    h: Vec<u8>,
    mk: measurement::Key,
    mr: CollectionResult<Estimates>,
    t1: i64,
    t2: i64,
)
    requires
        ik@ == spec_index_key(rp@),
        mk@ == spec_measurement_key(rp@, h@),
        mid.index_seq() == set_entry(
            before.index_seq(),
            (Container { generated_at: t1, key: ik, contents: Ok(h) }),
        ),
        mid.measurement_seq() == before.measurement_seq(),
        after.index_seq() == mid.index_seq(),
        after.measurement_seq() == set_entry(
            mid.measurement_seq(),
            (Container { generated_at: t2, key: mk, contents: mr }),
        ),
    ensures
        after.spec_skippable(rp@),
        !after.spec_build_needed(rp@),
{
    let ic = Container { generated_at: t1, key: ik, contents: Ok(h) };
    let mc = Container { generated_at: t2, key: mk, contents: mr };
    crate::storage::lemma_set_then_get(before.index_seq(), ic, ik@);
    crate::storage::lemma_set_then_get(mid.measurement_seq(), mc, mk@);
    assert(find_entry(after.index_seq(), spec_index_key(rp@)) == Some(ic));
    assert(find_entry(after.measurement_seq(), spec_measurement_key(rp@, h@)) == Some(mc));
}

/// A failed build is memoized like a successful one: once the failure is
/// recorded under the plan's index key, the plan needs no further build —
/// the recorded failure is the cached outcome.
pub proof fn lemma_failure_memoized(
    before: &Collector,
    after: &Collector,
    rp: &RunPlan,
    ik: index::Key,
    e: crate::collect_result::Error,
    t1: i64,
)
    requires
        ik@ == spec_index_key(rp@),
        after.index_seq() == set_entry(
            before.index_seq(),
            (Container { generated_at: t1, key: ik, contents: Err(e) }),
        ),
    ensures
        !after.spec_build_needed(rp@),
        (match find_entry(after.index_seq(), spec_index_key(rp@)) {
            Some(c) => c.contents is Err,
            None => false,
        }),
{
    let ic = Container { generated_at: t1, key: ik, contents: Err(e) };
    crate::storage::lemma_set_then_get(before.index_seq(), ic, ik@);
}

/// Measurements are shared across toolchains: two plans that differ only in
/// their toolchain derive the same measurement key for the same binary, so a
/// measurement recorded through one is found through the other — one entry,
/// reused by both.
pub proof fn lemma_cross_toolchain_sharing(c: &Collector, p1: &RunPlan, p2: &RunPlan, h: Seq<u8>)
    requires
        p1@.benchmark.runner == p2@.benchmark.runner,
        p1@.shield == p2@.shield,
    ensures
        spec_measurement_key(p1@, h) == spec_measurement_key(p2@, h),
        find_entry(c.measurement_seq(), spec_measurement_key(p2@, h)) == find_entry(
            c.measurement_seq(),
            spec_measurement_key(p1@, h),
        ),
{
}

} // verus!
