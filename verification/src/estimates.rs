//! Measured statistics for one benchmark binary.
//!
//! The external harness reports, per metric (wall-clock nanoseconds and a
//! handful of hardware counters), five statistics, each with a point
//! estimate, a standard error and a confidence interval.  All values are
//! carried as fixed-point integers scaled by [`crate::fixed::SCALE`], so the
//! analysis over them is exact.  A metric table is an association list from
//! metric name to its [`Statistic`], with map semantics given by
//! [`est_find`].

use vstd::prelude::*;
use vstd::string::StringExecFns;

use crate::textfmt::str_eq;

verus! {

/// A confidence interval around a point estimate, fixed-point scaled.
#[derive(Debug, Clone, Copy, PartialEq, Eq, Structural)]
pub struct ConfidenceInterval {
    pub confidence_level: i64,
    pub lower_bound: i64,
    pub upper_bound: i64,
}

/// One estimated quantity, fixed-point scaled.
#[derive(Debug, Clone, Copy, PartialEq, Eq, Structural)]
pub struct Estimate {
    /// The confidence interval for this estimate.
    pub confidence_interval: ConfidenceInterval,
    /// The estimate itself.
    pub point_estimate: i64,
    /// The standard error of this estimate.
    pub standard_error: i64,
}

/// The five statistics the harness reports for one metric.
#[derive(Debug, Clone, Copy, PartialEq, Eq, Structural)]
pub struct Statistic {
    pub mean: Estimate,
    pub median: Estimate,
    pub median_abs_dev: Estimate,
    pub slope: Estimate,
    pub std_dev: Estimate,
}

/// A table of metric name to statistic: the full measurement of one binary.
pub type Estimates = Vec<(String, Statistic)>;

/// The statistic stored under `name`, scanning from the front.
pub open spec fn est_find(table: Seq<(String, Statistic)>, name: Seq<char>) -> Option<Statistic>
    decreases table.len(),
{
    if table.len() == 0 {
        None
    } else if table[0].0@ == name {
        Some(table[0].1)
    } else {
        est_find(table.drop_first(), name)
    }
}

/// No metric name occurs twice in the table.
pub open spec fn est_unique(table: Seq<(String, Statistic)>) -> bool {
    forall|i: int, j: int| 0 <= i < j < table.len() ==> table[i].0@ != table[j].0@
}

/// Looks the statistic stored under `name` up.
pub fn estimates_get(table: &Estimates, name: &str) -> (r: Option<Statistic>)
    ensures
        r == est_find(table@, name@),
{
    proof {
        assert(table@.subrange(0, table@.len() as int) =~= table@);
    }
    let mut i: usize = 0;
    while i < table.len()
        invariant
            i <= table.len(),
            est_find(table@, name@) == est_find(
                table@.subrange(i as int, table@.len() as int),
                name@,
            ),
        decreases table.len() - i,
    {
        let pair = &table[i];
        if str_eq(pair.0.as_str(), name) {
            proof {
                let rest = table@.subrange(i as int, table@.len() as int);
                assert(rest[0] == table@[i as int]);
            }
            return Some(pair.1);
        }
        proof {
            let rest = table@.subrange(i as int, table@.len() as int);
            assert(rest[0] == table@[i as int]);
            assert(rest.drop_first() =~= table@.subrange(i + 1, table@.len() as int));
        }
        i = i + 1;
    }
    None
}

/// Inserts or replaces the statistic stored under `name`.
pub fn estimates_insert(table: Estimates, name: &str, stat: Statistic) -> (r: Estimates)
    requires
        est_unique(table@),
    ensures
        est_unique(r@),
        forall|n: Seq<char>|
            #[trigger] est_find(r@, n) == (if n == name@ {
                Some(stat)
            } else {
                est_find(table@, n)
            }),
{
    let mut out = table;
    let ghost orig = out@;
    let mut pos: Option<usize> = None;
    let mut i: usize = 0;
    while i < out.len()
        invariant
            out@ == orig,
            est_unique(orig),
            i <= out@.len(),
            pos is None ==> forall|k: int| 0 <= k < i ==> orig[k].0@ != name@,
            pos matches Some(p) ==> p < i && orig[p as int].0@ == name@,
        decreases out@.len() - i,
    {
        if pos.is_none() && str_eq(out[i].0.as_str(), name) {
            pos = Some(i);
        }
        i = i + 1;
    }
    match pos {
        Some(at) => {
            let replaced = (out[at].0.clone(), stat);
            out[at] = replaced;
            proof {
                assert(out@ =~= orig.update(at as int, (replaced.0, replaced.1)));
                assert(out@[at as int].0@ == name@);
                lemma_est_find_update(orig, out@, at as int, name@, stat);
            }
        },
        None => {
            let pair = (name.to_owned(), stat);
            out.push(pair);
            proof {
                assert forall|n: Seq<char>| true implies #[trigger] est_find(out@, n) == (if n
                    == name@ {
                    Some(stat)
                } else {
                    est_find(orig, n)
                }) by {
                    lemma_est_find_push(orig, (pair.0, pair.1), n);
                }
                assert forall|a: int, b: int| 0 <= a < b < out@.len() implies out@[a].0@
                    != out@[b].0@ by {
                    if b < orig.len() {
                    } else {
                        assert(out@[b].0@ == name@);
                        assert(orig[a].0@ != name@);
                    }
                }
            }
        },
    }
    out
}

/// Replacing the entry at a position that holds `name` rewrites exactly that
/// name's binding.
proof fn lemma_est_find_update(
    orig: Seq<(String, Statistic)>,
    updated: Seq<(String, Statistic)>,
    at: int,
    name: Seq<char>,
    stat: Statistic,
)
    requires
        est_unique(orig),
        0 <= at < orig.len(),
        orig[at].0@ == name,
        updated.len() == orig.len(),
        updated[at].1 == stat,
        updated[at].0@ == name,
        forall|k: int| 0 <= k < orig.len() && k != at ==> updated[k] == orig[k],
    ensures
        est_unique(updated),
        forall|n: Seq<char>|
            #[trigger] est_find(updated, n) == (if n == name {
                Some(stat)
            } else {
                est_find(orig, n)
            }),
    decreases orig.len(),
{
    assert forall|a: int, b: int| 0 <= a < b < updated.len() implies updated[a].0@
        != updated[b].0@ by {
        assert(orig[a].0@ != orig[b].0@);
        assert(updated[a].0@ == orig[a].0@);
        assert(updated[b].0@ == orig[b].0@);
    }
    assert forall|n: Seq<char>| #[trigger] est_find(updated, n) == (if n == name {
        Some(stat)
    } else {
        est_find(orig, n)
    }) by {
        lemma_est_find_update_one(orig, updated, at, name, stat, n);
    }
}

proof fn lemma_est_find_update_one(
    orig: Seq<(String, Statistic)>,
    updated: Seq<(String, Statistic)>,
    at: int,
    name: Seq<char>,
    stat: Statistic,
    n: Seq<char>,
)
    requires
        est_unique(orig),
        0 <= at < orig.len(),
        orig[at].0@ == name,
        updated.len() == orig.len(),
        updated[at].1 == stat,
        updated[at].0@ == name,
        forall|k: int| 0 <= k < orig.len() && k != at ==> updated[k] == orig[k],
    ensures
        est_find(updated, n) == (if n == name {
            Some(stat)
        } else {
            est_find(orig, n)
        }),
    decreases orig.len(),
{
    if at == 0 {
        if n == name {
        } else {
            assert(updated.drop_first() =~= orig.drop_first());
        }
    } else {
        assert(updated[0] == orig[0]);
        if orig[0].0@ == n {
            assert(orig[0].0@ != name);
        } else {
            assert forall|a: int, b: int| 0 <= a < b < orig.drop_first().len() implies orig
                .drop_first()[a].0@ != orig.drop_first()[b].0@ by {
                assert(orig.drop_first()[a] == orig[a + 1]);
                assert(orig.drop_first()[b] == orig[b + 1]);
            }
            assert(orig.drop_first()[at - 1] == orig[at]);
            assert forall|k: int|
                0 <= k < orig.drop_first().len() && k != at - 1 implies updated.drop_first()[k]
                == orig.drop_first()[k] by {
                assert(updated.drop_first()[k] == updated[k + 1]);
                assert(orig.drop_first()[k] == orig[k + 1]);
            }
            assert(updated.drop_first()[at - 1] == updated[at]);
            lemma_est_find_update_one(orig.drop_first(), updated.drop_first(), at - 1, name, stat, n);
        }
    }
}

/// Appending a fresh name binds exactly that name.
proof fn lemma_est_find_push(
    orig: Seq<(String, Statistic)>,
    p: (String, Statistic),
    n: Seq<char>,
)
    requires
        forall|k: int| 0 <= k < orig.len() ==> orig[k].0@ != p.0@,
    ensures
        est_find(orig.push(p), n) == (if n == p.0@ {
            Some(p.1)
        } else {
            est_find(orig, n)
        }),
    decreases orig.len(),
{
    let s = orig.push(p);
    if orig.len() == 0 {
        assert(s[0] == p);
        if p.0@ == n {
        } else {
            assert(s.drop_first() =~= Seq::<(String, Statistic)>::empty());
        }
    } else {
        assert(s[0] == orig[0]);
        if orig[0].0@ == n {
        } else {
            assert(s.drop_first() =~= orig.drop_first().push(p));
            assert forall|k: int| 0 <= k < orig.drop_first().len() implies orig.drop_first()[k].0@
                != p.0@ by {
                assert(orig.drop_first()[k] == orig[k + 1]);
            }
            lemma_est_find_push(orig.drop_first(), p, n);
        }
    }
}

/// Builds the full metric table for one measurement: the wall-clock statistic
/// under the name `nanoseconds`, then every hardware-counter statistic the
/// harness reported, which wins on a name collision.
pub fn merge_estimates(runtime: Statistic, counters: &Estimates) -> (r: Estimates)
    requires
        est_unique(counters@),
    ensures
        est_unique(r@),
        forall|n: Seq<char>|
            #[trigger] est_find(r@, n) == (if est_find(counters@, n) is Some {
                est_find(counters@, n)
            } else if n == "nanoseconds"@ {
                Some(runtime)
            } else {
                None
            }),
{
    let mut r: Estimates = Vec::new();
    proof {
        assert(r@.len() == 0);
    }
    r = estimates_insert(r, "nanoseconds", runtime);
    let mut i: usize = 0;
    while i < counters.len()
        invariant
            est_unique(counters@),
            est_unique(r@),
            i <= counters@.len(),
            forall|n: Seq<char>|
                #[trigger] est_find(r@, n) == (if est_find(counters@.subrange(0, i as int), n)
                    is Some {
                    est_find(counters@.subrange(0, i as int), n)
                } else if n == "nanoseconds"@ {
                    Some(runtime)
                } else {
                    None
                }),
        decreases counters@.len() - i,
    {
        let name = counters[i].0.clone();
        let stat = counters[i].1;
        r = estimates_insert(r, name.as_str(), stat);
        proof {
            let pre = counters@.subrange(0, i as int);
            let post = counters@.subrange(0, i + 1);
            assert forall|n: Seq<char>| true implies #[trigger] est_find(post, n) == (if n
                == counters@[i as int].0@ {
                Some(counters@[i as int].1)
            } else {
                est_find(pre, n)
            }) by {
                lemma_est_find_snoc(counters@, i as int, n);
            }
        }
        i = i + 1;
    }
    proof {
        assert(counters@.subrange(0, counters@.len() as int) =~= counters@);
    }
    r
}

/// Extending a unique-keyed table by its element at `at` binds that name and
/// leaves the rest alone.
proof fn lemma_est_find_snoc(table: Seq<(String, Statistic)>, at: int, n: Seq<char>)
    requires
        est_unique(table),
        0 <= at < table.len(),
    ensures
        est_find(table.subrange(0, at + 1), n) == (if n == table[at].0@ {
            Some(table[at].1)
        } else {
            est_find(table.subrange(0, at), n)
        }),
    decreases at,
{
    let pre = table.subrange(0, at);
    let post = table.subrange(0, at + 1);
    if at == 0 {
        assert(post.len() == 1);
        if post[0].0@ == n {
        } else {
            assert(post.drop_first() =~= pre);
        }
    } else {
        assert(post[0] == table[0]);
        assert(pre[0] == table[0]);
        if table[0].0@ == n {
            assert(table[0].0@ != table[at].0@);
            assert(est_find(pre, n) == Some(pre[0].1));
        } else {
            assert forall|a: int, b: int|
                0 <= a < b < table.drop_first().len() implies table.drop_first()[a].0@ != table
                .drop_first()[b].0@ by {
                assert(table.drop_first()[a] == table[a + 1]);
                assert(table.drop_first()[b] == table[b + 1]);
            }
            assert(table.drop_first()[at - 1] == table[at]);
            lemma_est_find_snoc(table.drop_first(), at - 1, n);
            assert(post.drop_first() =~= table.drop_first().subrange(0, at));
            assert(pre.drop_first() =~= table.drop_first().subrange(0, at - 1 + 1 - 1));
        }
    }
}

/// Copies a metric table.
pub fn estimates_clone(table: &Estimates) -> (r: Estimates)
    ensures
        r@.len() == table@.len(),
        forall|i: int| #![trigger r@[i], table@[i]] 0 <= i < table@.len() ==> r@[i].0@ == table@[i].0@ && r@[i].1 == table@[i].1,
        forall|n: Seq<char>| #[trigger] est_find(r@, n) == est_find(table@, n),
{
    let mut r: Estimates = Vec::new();
    let mut i: usize = 0;
    while i < table.len()
        invariant
            i <= table@.len(),
            r@.len() == i,
            forall|k: int| #![trigger r@[k], table@[k]] 0 <= k < i ==> r@[k].0@ == table@[k].0@ && r@[k].1 == table@[k].1,
        decreases table@.len() - i,
    {
        let pair = (table[i].0.clone(), table[i].1);
        r.push(pair);
        i = i + 1;
    }
    proof {
        lemma_est_find_congruent(r@, table@);
    }
    r
}

/// Tables equal name-for-name and value-for-value find the same bindings.
proof fn lemma_est_find_congruent(a: Seq<(String, Statistic)>, b: Seq<(String, Statistic)>)
    requires
        a.len() == b.len(),
        forall|i: int| #![trigger a[i], b[i]] 0 <= i < a.len() ==> a[i].0@ == b[i].0@ && a[i].1 == b[i].1,
    ensures
        forall|n: Seq<char>| #[trigger] est_find(a, n) == est_find(b, n),
    decreases a.len(),
{
    if a.len() > 0 {
        assert forall|i: int| #![trigger a.drop_first()[i], b.drop_first()[i]]
            0 <= i < a.drop_first().len() implies a.drop_first()[i].0@ == b.drop_first()[i].0@
            && a.drop_first()[i].1 == b.drop_first()[i].1 by {
            assert(a.drop_first()[i] == a[i + 1]);
            assert(b.drop_first()[i] == b[i + 1]);
            assert(a[i + 1].0@ == b[i + 1].0@ && a[i + 1].1 == b[i + 1].1);
        }
        lemma_est_find_congruent(a.drop_first(), b.drop_first());
        assert forall|n: Seq<char>| true implies #[trigger] est_find(a, n) == est_find(b, n) by {
            assert(a[0].0@ == b[0].0@ && a[0].1 == b[0].1);
            assert(est_find(a.drop_first(), n) == est_find(b.drop_first(), n));
        }
    }
}

} // verus!
