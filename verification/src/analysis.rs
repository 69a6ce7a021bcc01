//! The regression-analysis engine.
//!
//! A benchmark's history, ordered by toolchain, is coalesced into timing
//! records (consecutive toolchains sharing a binary collapse into one
//! record).  Each record's metrics are normalized against the first record
//! in the series, and each record is scored against the raw values of all
//! strictly preceding records: a Gaussian kernel density estimate over the
//! log-transformed history, plus the distance from the historical mean in
//! percent and in standard deviations.  A record is of interest when the
//! density is low and the distance is at least two standard deviations —
//! both at once, to suppress false positives from heavy-tailed but
//! legitimate history.

use vstd::prelude::*;
use vstd::arithmetic::div_mod::{lemma_div_multiples_vanish, lemma_multiply_divide_le};

use crate::estimates::{est_find, Estimates, Statistic};
use crate::fixed::SCALE;
use crate::stats::{
    all_in_range, kde_fx, ln_1p_fx, mean_fx, silverman_h, spec_kde, spec_ln_1p, spec_mean,
    spec_silverman_h, spec_std_dev, std_dev_fx, LOG_MAX, MAX_METRIC, MAX_SAMPLES, MIN_SAMPLES,
};

verus! {

/// One metric's median with its confidence bounds, fixed-point scaled.
#[derive(Debug, Clone, Copy, PartialEq, Eq, Structural)]
pub struct MetricData {
    pub median: i64,
    pub lower_bound: i64,
    pub upper_bound: i64,
}

/// A plausible measured value in every field.
pub open spec fn metric_data_in_range(m: MetricData) -> bool {
    0 <= m.median <= MAX_METRIC && 0 <= m.lower_bound <= MAX_METRIC && 0 <= m.upper_bound
        <= MAX_METRIC
}

/// One value normalized against a baseline: `(v + 1) / (b + 1)` in fixed
/// point — the shift by one unit avoids division blow-ups near zero.
pub open spec fn spec_normalized(v: int, b: int) -> int {
    (v + SCALE) * (SCALE as int) / (b + SCALE)
}

/// A value normalizes against itself to exactly one unit.
pub proof fn lemma_self_normalizes(v: int)
    requires
        0 <= v,
    ensures
        spec_normalized(v, v) == SCALE,
{
    lemma_div_multiples_vanish(SCALE as int, v + SCALE);
    assert((v + SCALE) * (SCALE as int) == (v + SCALE as int) * (SCALE as int))
        by (nonlinear_arith);
    assert(((v + SCALE as int) * (SCALE as int)) == ((v + SCALE as int) as int) * (
    SCALE as int));
    assert((v + SCALE) * (SCALE as int) / (v + SCALE) == SCALE) by {
        lemma_div_multiples_vanish(SCALE as int, v + SCALE as int);
        assert((v + SCALE as int) * (SCALE as int) == (SCALE as int) * (v + SCALE as int))
            by (nonlinear_arith);
    }
}

/// Divides one shifted value by another, exactly as [`spec_normalized`].
fn normalized_value(v: i64, b: i64) -> (r: i64)
    requires
        0 <= v <= MAX_METRIC,
        0 <= b <= MAX_METRIC,
    ensures
        r == spec_normalized(v as int, b as int),
        0 <= r <= MAX_METRIC + SCALE,
{
    let num: i128 = (v as i128 + SCALE as i128) * (SCALE as i128);
    let den: i128 = b as i128 + SCALE as i128;
    proof {
        assert((v as int + SCALE) * (SCALE as int) <= (b as int + SCALE) * (v as int + SCALE))
            by (nonlinear_arith)
            requires
                0 <= v,
                0 <= b,
                SCALE as int <= b as int + SCALE,
        ;
        lemma_multiply_divide_le(
            (v as int + SCALE) * (SCALE as int),
            b as int + SCALE,
            v as int + SCALE,
        );
        vstd::arithmetic::div_mod::lemma_div_pos_is_pos(
            (v as int + SCALE) * (SCALE as int),
            b as int + SCALE,
        );
    }
    (num / den) as i64
}

impl MetricData {
    /// The median and its confidence bounds of one reported statistic.
    pub open spec fn spec_from_statistic(s: Statistic) -> MetricData {
        MetricData {
            median: s.median.point_estimate,
            lower_bound: s.median.confidence_interval.lower_bound,
            upper_bound: s.median.confidence_interval.upper_bound,
        }
    }

    /// Takes the median and its confidence bounds out of one statistic.
    pub fn from_statistic(statistic: &Statistic) -> (r: MetricData)
        ensures
            r == MetricData::spec_from_statistic(*statistic),
    {
        MetricData {
            median: statistic.median.point_estimate,
            lower_bound: statistic.median.confidence_interval.lower_bound,
            upper_bound: statistic.median.confidence_interval.upper_bound,
        }
    }

    /// The neutral element of normalization: exactly one unit everywhere.
    pub open spec fn spec_ones() -> MetricData {
        MetricData { median: SCALE, lower_bound: SCALE, upper_bound: SCALE }
    }

    /// The neutral element of normalization: exactly one unit everywhere.
    pub fn ones() -> (r: MetricData)
        ensures
            r == MetricData::spec_ones(),
    {
        MetricData { median: SCALE, lower_bound: SCALE, upper_bound: SCALE }
    }

    /// This metric normalized against the baseline, field by field.
    pub open spec fn spec_normalized_against(self, baseline: MetricData) -> MetricData {
        MetricData {
            median: spec_normalized(self.median as int, baseline.median as int) as i64,
            lower_bound: spec_normalized(
                self.lower_bound as int,
                baseline.lower_bound as int,
            ) as i64,
            upper_bound: spec_normalized(
                self.upper_bound as int,
                baseline.upper_bound as int,
            ) as i64,
        }
    }

    /// Normalizes this metric against the baseline.
    pub fn normalized_against(&self, baseline: &MetricData) -> (r: MetricData)
        requires
            metric_data_in_range(*self),
            metric_data_in_range(*baseline),
        ensures
            r == self.spec_normalized_against(*baseline),
    {
        MetricData {
            median: normalized_value(self.median, baseline.median),
            lower_bound: normalized_value(self.lower_bound, baseline.lower_bound),
            upper_bound: normalized_value(self.upper_bound, baseline.upper_bound),
        }
    }
}

/// The full set of metrics measured for one record.
#[derive(Debug, Clone, Copy, PartialEq, Eq, Structural)]
pub struct RuntimeMetrics {
    pub nanoseconds: MetricData,
    pub instructions: MetricData,
    pub cpu_cycles: MetricData,
    pub context_switches: MetricData,
    pub cpu_clock: MetricData,
    pub branch_instructions: MetricData,
    pub branch_misses: MetricData,
    pub cache_misses: MetricData,
    pub cache_references: MetricData,
}

/// Plausible measured values in every metric.
pub open spec fn metrics_in_range(m: RuntimeMetrics) -> bool {
    metric_data_in_range(m.nanoseconds) && metric_data_in_range(m.instructions)
        && metric_data_in_range(m.cpu_cycles) && metric_data_in_range(m.context_switches)
        && metric_data_in_range(m.cpu_clock) && metric_data_in_range(m.branch_instructions)
        && metric_data_in_range(m.branch_misses) && metric_data_in_range(m.cache_misses)
        && metric_data_in_range(m.cache_references)
}

/// The statistic stored under `name`, or an all-zero placeholder where none
/// is (callers require presence, so the placeholder is never produced).
pub open spec fn found_stat(table: Seq<(String, Statistic)>, name: Seq<char>) -> Statistic {
    match est_find(table, name) {
        Some(s) => s,
        None => zero_stat(),
    }
}

/// An all-zero statistic.
pub open spec fn zero_stat() -> Statistic {
    Statistic {
        mean: zero_estimate(),
        median: zero_estimate(),
        median_abs_dev: zero_estimate(),
        slope: zero_estimate(),
        std_dev: zero_estimate(),
    }
}

/// An all-zero estimate.
pub open spec fn zero_estimate() -> crate::estimates::Estimate {
    crate::estimates::Estimate {
        confidence_interval: crate::estimates::ConfidenceInterval {
            confidence_level: 0,
            lower_bound: 0,
            upper_bound: 0,
        },
        point_estimate: 0,
        standard_error: 0,
    }
}

/// The metric table holds all nine metrics, each with plausible values.
pub open spec fn measure_complete(table: Seq<(String, Statistic)>) -> bool {
    est_find(table, "nanoseconds"@) is Some && est_find(table, "instructions"@) is Some
        && est_find(table, "cpu-cycles"@) is Some && est_find(table, "context-switches"@)
        is Some && est_find(table, "cpu-clock"@) is Some && est_find(
        table,
        "branch-instructions"@,
    ) is Some && est_find(table, "branch-misses"@) is Some && est_find(table, "cache-misses"@)
        is Some && est_find(table, "cache-references"@) is Some && metric_data_in_range(
        MetricData::spec_from_statistic(found_stat(table, "nanoseconds"@)),
    ) && metric_data_in_range(
        MetricData::spec_from_statistic(found_stat(table, "instructions"@)),
    ) && metric_data_in_range(MetricData::spec_from_statistic(found_stat(table, "cpu-cycles"@)))
        && metric_data_in_range(
        MetricData::spec_from_statistic(found_stat(table, "context-switches"@)),
    ) && metric_data_in_range(MetricData::spec_from_statistic(found_stat(table, "cpu-clock"@)))
        && metric_data_in_range(
        MetricData::spec_from_statistic(found_stat(table, "branch-instructions"@)),
    ) && metric_data_in_range(
        MetricData::spec_from_statistic(found_stat(table, "branch-misses"@)),
    ) && metric_data_in_range(
        MetricData::spec_from_statistic(found_stat(table, "cache-misses"@)),
    ) && metric_data_in_range(
        MetricData::spec_from_statistic(found_stat(table, "cache-references"@)),
    )
}

/// Whether one statistic's median values are plausible measured values.
fn statistic_ready(s: &Statistic) -> (r: bool)
    ensures
        r == metric_data_in_range(MetricData::spec_from_statistic(*s)),
{
    0 <= s.median.point_estimate && s.median.point_estimate <= MAX_METRIC
        && 0 <= s.median.confidence_interval.lower_bound
        && s.median.confidence_interval.lower_bound <= MAX_METRIC
        && 0 <= s.median.confidence_interval.upper_bound
        && s.median.confidence_interval.upper_bound <= MAX_METRIC
}

/// Whether a measurement table is fit for analysis: all nine metrics are
/// present, each with plausible values.  The embedder tests this before
/// handing loaded tables to [`RuntimeMetrics::from_measure`] or
/// [`coalesce_timings`], and skips or repairs what fails.
pub fn measure_ready(table: &Estimates) -> (r: bool)
    ensures
        r == measure_complete(table@),
{
    let names = [
        "nanoseconds",
        "instructions",
        "cpu-cycles",
        "context-switches",
        "cpu-clock",
        "branch-instructions",
        "branch-misses",
        "cache-misses",
        "cache-references",
    ];
    let mut i: usize = 0;
    let mut ok = true;
    while i < 9
        invariant
            i <= 9,
            names@.len() == 9,
            names@[0]@ == "nanoseconds"@ && names@[1]@ == "instructions"@ && names@[2]@
                == "cpu-cycles"@ && names@[3]@ == "context-switches"@ && names@[4]@
                == "cpu-clock"@ && names@[5]@ == "branch-instructions"@ && names@[6]@
                == "branch-misses"@ && names@[7]@ == "cache-misses"@ && names@[8]@
                == "cache-references"@,
            ok == (forall|k: int|
                0 <= k < i ==> est_find(table@, (#[trigger] names@[k])@) is Some
                    && metric_data_in_range(
                    MetricData::spec_from_statistic(found_stat(table@, names@[k]@)),
                )),
        decreases 9 - i,
    {
        let fine = match crate::estimates::estimates_get(table, names[i]) {
            Some(stat) => statistic_ready(&stat),
            None => false,
        };
        ok = ok && fine;
        i = i + 1;
    }
    ok
}

impl RuntimeMetrics {
    /// The metrics a complete measurement table holds.
    pub open spec fn spec_from_measure(table: Seq<(String, Statistic)>) -> RuntimeMetrics {
        RuntimeMetrics {
            nanoseconds: MetricData::spec_from_statistic(found_stat(table, "nanoseconds"@)),
            instructions: MetricData::spec_from_statistic(found_stat(table, "instructions"@)),
            cpu_cycles: MetricData::spec_from_statistic(found_stat(table, "cpu-cycles"@)),
            context_switches: MetricData::spec_from_statistic(
                found_stat(table, "context-switches"@),
            ),
            cpu_clock: MetricData::spec_from_statistic(found_stat(table, "cpu-clock"@)),
            branch_instructions: MetricData::spec_from_statistic(
                found_stat(table, "branch-instructions"@),
            ),
            branch_misses: MetricData::spec_from_statistic(found_stat(table, "branch-misses"@)),
            cache_misses: MetricData::spec_from_statistic(found_stat(table, "cache-misses"@)),
            cache_references: MetricData::spec_from_statistic(
                found_stat(table, "cache-references"@),
            ),
        }
    }

    /// Reads all nine metrics out of a complete measurement table.
    pub fn from_measure(table: &Estimates) -> (r: RuntimeMetrics)
        requires
            measure_complete(table@),
        ensures
            r == RuntimeMetrics::spec_from_measure(table@),
            metrics_in_range(r),
    {
        let nanoseconds = MetricData::from_statistic(
            &crate::estimates::estimates_get(table, "nanoseconds").unwrap(),
        );
        let instructions = MetricData::from_statistic(
            &crate::estimates::estimates_get(table, "instructions").unwrap(),
        );
        let cpu_cycles = MetricData::from_statistic(
            &crate::estimates::estimates_get(table, "cpu-cycles").unwrap(),
        );
        let context_switches = MetricData::from_statistic(
            &crate::estimates::estimates_get(table, "context-switches").unwrap(),
        );
        let cpu_clock = MetricData::from_statistic(
            &crate::estimates::estimates_get(table, "cpu-clock").unwrap(),
        );
        let branch_instructions = MetricData::from_statistic(
            &crate::estimates::estimates_get(table, "branch-instructions").unwrap(),
        );
        let branch_misses = MetricData::from_statistic(
            &crate::estimates::estimates_get(table, "branch-misses").unwrap(),
        );
        let cache_misses = MetricData::from_statistic(
            &crate::estimates::estimates_get(table, "cache-misses").unwrap(),
        );
        let cache_references = MetricData::from_statistic(
            &crate::estimates::estimates_get(table, "cache-references").unwrap(),
        );
        RuntimeMetrics {
            nanoseconds,
            instructions,
            cpu_cycles,
            context_switches,
            cpu_clock,
            branch_instructions,
            branch_misses,
            cache_misses,
            cache_references,
        }
    }

    /// Every metric at exactly one unit.
    pub open spec fn spec_ones() -> RuntimeMetrics {
        RuntimeMetrics {
            nanoseconds: MetricData::spec_ones(),
            instructions: MetricData::spec_ones(),
            cpu_cycles: MetricData::spec_ones(),
            context_switches: MetricData::spec_ones(),
            cpu_clock: MetricData::spec_ones(),
            branch_instructions: MetricData::spec_ones(),
            branch_misses: MetricData::spec_ones(),
            cache_misses: MetricData::spec_ones(),
            cache_references: MetricData::spec_ones(),
        }
    }

    /// Every metric at exactly one unit.
    pub fn ones() -> (r: RuntimeMetrics)
        ensures
            r == RuntimeMetrics::spec_ones(),
    {
        RuntimeMetrics {
            nanoseconds: MetricData::ones(),
            instructions: MetricData::ones(),
            cpu_cycles: MetricData::ones(),
            context_switches: MetricData::ones(),
            cpu_clock: MetricData::ones(),
            branch_instructions: MetricData::ones(),
            branch_misses: MetricData::ones(),
            cache_misses: MetricData::ones(),
            cache_references: MetricData::ones(),
        }
    }

    /// These metrics normalized against the baseline, metric by metric.
    pub open spec fn spec_normalized_against(self, baseline: RuntimeMetrics) -> RuntimeMetrics {
        RuntimeMetrics {
            nanoseconds: self.nanoseconds.spec_normalized_against(baseline.nanoseconds),
            instructions: self.instructions.spec_normalized_against(baseline.instructions),
            cpu_cycles: self.cpu_cycles.spec_normalized_against(baseline.cpu_cycles),
            context_switches: self.context_switches.spec_normalized_against(
                baseline.context_switches,
            ),
            cpu_clock: self.cpu_clock.spec_normalized_against(baseline.cpu_clock),
            branch_instructions: self.branch_instructions.spec_normalized_against(
                baseline.branch_instructions,
            ),
            branch_misses: self.branch_misses.spec_normalized_against(baseline.branch_misses),
            cache_misses: self.cache_misses.spec_normalized_against(baseline.cache_misses),
            cache_references: self.cache_references.spec_normalized_against(
                baseline.cache_references,
            ),
        }
    }

    /// Normalizes these metrics against the baseline.
    pub fn normalized_against(&self, baseline: &RuntimeMetrics) -> (r: RuntimeMetrics)
        requires
            metrics_in_range(*self),
            metrics_in_range(*baseline),
        ensures
            r == self.spec_normalized_against(*baseline),
    {
        RuntimeMetrics {
            nanoseconds: self.nanoseconds.normalized_against(&baseline.nanoseconds),
            instructions: self.instructions.normalized_against(&baseline.instructions),
            cpu_cycles: self.cpu_cycles.normalized_against(&baseline.cpu_cycles),
            context_switches: self.context_switches.normalized_against(
                &baseline.context_switches,
            ),
            cpu_clock: self.cpu_clock.normalized_against(&baseline.cpu_clock),
            branch_instructions: self.branch_instructions.normalized_against(
                &baseline.branch_instructions,
            ),
            branch_misses: self.branch_misses.normalized_against(&baseline.branch_misses),
            cache_misses: self.cache_misses.normalized_against(&baseline.cache_misses),
            cache_references: self.cache_references.normalized_against(
                &baseline.cache_references,
            ),
        }
    }
}

/// One number per metric, for series-wide summaries.
#[derive(Debug, Clone, Copy, PartialEq, Eq, Structural)]
pub struct SimpleRuntimeMetrics {
    pub nanoseconds: i64,
    pub instructions: i64,
    pub cpu_cycles: i64,
    pub context_switches: i64,
    pub cpu_clock: i64,
    pub branch_instructions: i64,
    pub branch_misses: i64,
    pub cache_misses: i64,
    pub cache_references: i64,
}

impl SimpleRuntimeMetrics {
    /// Every metric at exactly one unit.
    pub open spec fn spec_ones() -> SimpleRuntimeMetrics {
        SimpleRuntimeMetrics {
            nanoseconds: SCALE,
            instructions: SCALE,
            cpu_cycles: SCALE,
            context_switches: SCALE,
            cpu_clock: SCALE,
            branch_instructions: SCALE,
            branch_misses: SCALE,
            cache_misses: SCALE,
            cache_references: SCALE,
        }
    }

    /// Every metric at exactly one unit.
    pub fn ones() -> (r: SimpleRuntimeMetrics)
        ensures
            r == SimpleRuntimeMetrics::spec_ones(),
    {
        SimpleRuntimeMetrics {
            nanoseconds: SCALE,
            instructions: SCALE,
            cpu_cycles: SCALE,
            context_switches: SCALE,
            cpu_clock: SCALE,
            branch_instructions: SCALE,
            branch_misses: SCALE,
            cache_misses: SCALE,
            cache_references: SCALE,
        }
    }
}

/// Signed division rounded toward zero, as machine division rounds.
pub open spec fn trunc_div(a: int, b: int) -> int {
    if a >= 0 {
        a / b
    } else {
        -((-a) / b)
    }
}

/// Clamps an unbounded intermediate into the representable range.
pub open spec fn sat_i64(v: int) -> int {
    if v > i64::MAX {
        i64::MAX as int
    } else if v < i64::MIN {
        i64::MIN as int
    } else {
        v
    }
}

/// The log transform of a raw series.
pub open spec fn spec_log_seq(s: Seq<i64>) -> Seq<u64> {
    s.map_values(|v: i64| spec_ln_1p(v as nat) as u64)
}

/// The log transform of a raw series, as signed values for the moment
/// statistics.
pub open spec fn spec_log_seq_i(s: Seq<i64>) -> Seq<i64> {
    s.map_values(|v: i64| spec_ln_1p(v as nat) as i64)
}

/// The density of the current value's log within the log-transformed
/// reference population, under Silverman's bandwidth.
pub open spec fn spec_kde_score(x: i64, prev: Seq<i64>) -> int {
    spec_kde(
        spec_ln_1p(x as nat),
        spec_log_seq(prev),
        spec_silverman_h(spec_std_dev(spec_log_seq_i(prev)), prev.len()),
    ) as int
}

/// The current value's distance from the reference mean, in hundredths of
/// the mean; zero when the mean is zero.
pub open spec fn spec_percent_delta(x: i64, prev: Seq<i64>) -> int {
    let mu = spec_mean(prev);
    if mu == 0 {
        0
    } else {
        sat_i64(trunc_div((x - mu) * 100 * (SCALE as int), mu))
    }
}

/// The current value's distance from the reference mean, in reference
/// standard deviations; zero when the deviation is zero.
pub open spec fn spec_sigma_distance(x: i64, prev: Seq<i64>) -> int {
    let mu = spec_mean(prev);
    let sd = spec_std_dev(prev) as int;
    if sd == 0 {
        0
    } else {
        sat_i64(trunc_div((x - mu) * (SCALE as int), sd))
    }
}

/// How anomalous one value is against its reference population.
#[derive(Debug, Clone, Copy, PartialEq, Eq, Structural)]
pub struct AnomalyScore {
    pub kde_estimate: i64,
    pub percent_delta_from_mean: i64,
    pub stddev_from_mean: i64,
}

/// Low density and at least two standard deviations out — both at once.
pub open spec fn spec_of_interest(s: AnomalyScore) -> bool {
    s.kde_estimate < 10 * SCALE && (s.stddev_from_mean > 2 * SCALE || s.stddev_from_mean < -2
        * SCALE)
}

/// The score of `x` against `prev` — meaningful only when `prev` holds at
/// least [`MIN_SAMPLES`] values.
pub open spec fn spec_anomaly_score(x: i64, prev: Seq<i64>) -> AnomalyScore {
    AnomalyScore {
        kde_estimate: spec_kde_score(x, prev) as i64,
        percent_delta_from_mean: spec_percent_delta(x, prev) as i64,
        stddev_from_mean: spec_sigma_distance(x, prev) as i64,
    }
}

impl AnomalyScore {
    /// Scores `x` against the strictly preceding population `previous`.
    /// With fewer than [`MIN_SAMPLES`] prior values no score exists — the
    /// result is absent, not zero.
    pub fn new(x: i64, previous: &Vec<i64>) -> (r: Option<AnomalyScore>)
        requires
            0 <= x <= MAX_METRIC,
            previous@.len() <= MAX_SAMPLES,
            all_in_range(previous@),
        ensures
            r is Some <==> previous@.len() >= MIN_SAMPLES,
            (match r {
                Some(score) => score == spec_anomaly_score(x, previous@),
                None => true,
            }),
    {
        if previous.len() < MIN_SAMPLES {
            return None;
        }
        let mut logs_u: Vec<u64> = Vec::new();
        let mut logs_i: Vec<i64> = Vec::new();
        let mut i: usize = 0;
        while i < previous.len()
            invariant
                i <= previous@.len(),
                all_in_range(previous@),
                logs_u@ == spec_log_seq(previous@.subrange(0, i as int)),
                logs_i@ == spec_log_seq_i(previous@.subrange(0, i as int)),
                forall|k: int| 0 <= k < i ==> #[trigger] logs_u@[k] <= LOG_MAX,
                all_in_range(logs_i@),
            decreases previous@.len() - i,
        {
            let v = previous[i];
            let lg = ln_1p_fx(v as u64);
            logs_u.push(lg);
            logs_i.push(lg as i64);
            proof {
                assert(spec_log_seq(previous@.subrange(0, i + 1)) =~= spec_log_seq(
                    previous@.subrange(0, i as int),
                ).push(spec_ln_1p(previous@[i as int] as nat) as u64));
                assert(spec_log_seq_i(previous@.subrange(0, i + 1)) =~= spec_log_seq_i(
                    previous@.subrange(0, i as int),
                ).push(spec_ln_1p(previous@[i as int] as nat) as i64));
            }
            i = i + 1;
        }
        proof {
            assert(previous@.subrange(0, previous@.len() as int) =~= previous@);
        }
        let sigma_log = std_dev_fx(&logs_i);
        let h = silverman_h(sigma_log as u64, previous.len());
        let x_log = ln_1p_fx(x as u64);
        let kde_v = kde_fx(x_log, &logs_u, h);
        let mu = mean_fx(previous);
        let sd = std_dev_fx(previous);
        let percent_delta_from_mean: i64 = if mu == 0 {
            0
        } else {
            let num: i128 = (x as i128 - mu as i128) * 100 * (SCALE as i128);
            let q: i128 = num / (mu as i128);
            if q > i64::MAX as i128 {
                i64::MAX
            } else if q < i64::MIN as i128 {
                i64::MIN
            } else {
                q as i64
            }
        };
        let stddev_from_mean: i64 = if sd == 0 {
            0
        } else {
            let num: i128 = (x as i128 - mu as i128) * (SCALE as i128);
            let q: i128 = num / (sd as i128);
            if q > i64::MAX as i128 {
                i64::MAX
            } else if q < i64::MIN as i128 {
                i64::MIN
            } else {
                q as i64
            }
        };
        Some(
            AnomalyScore {
                kde_estimate: kde_v as i64,
                percent_delta_from_mean,
                stddev_from_mean,
            },
        )
    }

    /// Whether this score marks its record as a regression candidate.
    pub fn is_of_interest(&self) -> (r: bool)
        ensures
            r == spec_of_interest(*self),
    {
        self.kde_estimate < 10 * SCALE && (self.stddev_from_mean > 2 * SCALE
            || self.stddev_from_mean < -2 * SCALE)
    }
}

/// The nanosecond medians of a metrics series.
pub open spec fn nanos_medians(s: Seq<RuntimeMetrics>) -> Seq<i64> {
    s.map_values(|m: RuntimeMetrics| m.nanoseconds.median)
}

/// The instruction medians of a metrics series.
pub open spec fn instructions_medians(s: Seq<RuntimeMetrics>) -> Seq<i64> {
    s.map_values(|m: RuntimeMetrics| m.instructions.median)
}

/// The cycle medians of a metrics series.
pub open spec fn cpu_cycles_medians(s: Seq<RuntimeMetrics>) -> Seq<i64> {
    s.map_values(|m: RuntimeMetrics| m.cpu_cycles.median)
}

/// The branch-instruction medians of a metrics series.
pub open spec fn branch_instructions_medians(s: Seq<RuntimeMetrics>) -> Seq<i64> {
    s.map_values(|m: RuntimeMetrics| m.branch_instructions.median)
}

/// The branch-miss medians of a metrics series.
pub open spec fn branch_misses_medians(s: Seq<RuntimeMetrics>) -> Seq<i64> {
    s.map_values(|m: RuntimeMetrics| m.branch_misses.median)
}

/// The cache-reference medians of a metrics series.
pub open spec fn cache_references_medians(s: Seq<RuntimeMetrics>) -> Seq<i64> {
    s.map_values(|m: RuntimeMetrics| m.cache_references.median)
}

/// The cache-miss medians of a metrics series.
pub open spec fn cache_misses_medians(s: Seq<RuntimeMetrics>) -> Seq<i64> {
    s.map_values(|m: RuntimeMetrics| m.cache_misses.median)
}

/// One anomaly score per scored metric.
#[derive(Debug, Clone, Copy, PartialEq, Eq, Structural)]
pub struct AnomalyIndex {
    pub nanoseconds: AnomalyScore,
    pub instructions: AnomalyScore,
    pub cpu_cycles: AnomalyScore,
    pub branch_instructions: AnomalyScore,
    pub branch_misses: AnomalyScore,
    pub cache_references: AnomalyScore,
    pub cache_misses: AnomalyScore,
}

/// The index of `current` against the preceding metrics — meaningful only
/// when enough history precedes.
pub open spec fn spec_anomaly_index(current: RuntimeMetrics, prev: Seq<RuntimeMetrics>)
    -> AnomalyIndex {
    AnomalyIndex {
        nanoseconds: spec_anomaly_score(current.nanoseconds.median, nanos_medians(prev)),
        instructions: spec_anomaly_score(
            current.instructions.median,
            instructions_medians(prev),
        ),
        cpu_cycles: spec_anomaly_score(current.cpu_cycles.median, cpu_cycles_medians(prev)),
        branch_instructions: spec_anomaly_score(
            current.branch_instructions.median,
            branch_instructions_medians(prev),
        ),
        branch_misses: spec_anomaly_score(
            current.branch_misses.median,
            branch_misses_medians(prev),
        ),
        cache_references: spec_anomaly_score(
            current.cache_references.median,
            cache_references_medians(prev),
        ),
        cache_misses: spec_anomaly_score(
            current.cache_misses.median,
            cache_misses_medians(prev),
        ),
    }
}

impl AnomalyIndex {
    /// Scores every metric of `current` against the strictly preceding
    /// records.  With fewer than [`MIN_SAMPLES`] prior records there is no
    /// index at all.
    pub fn new(current: &RuntimeMetrics, previous: &Vec<RuntimeMetrics>) -> (r: Option<
        AnomalyIndex,
    >)
        requires
            metrics_in_range(*current),
            previous@.len() <= MAX_SAMPLES,
            forall|i: int| 0 <= i < previous@.len() ==> metrics_in_range(#[trigger] previous@[i]),
        ensures
            r is Some <==> previous@.len() >= MIN_SAMPLES,
            (match r {
                Some(ix) => ix == spec_anomaly_index(*current, previous@),
                None => true,
            }),
    {
        let mut nanos: Vec<i64> = Vec::new();
        let mut instrs: Vec<i64> = Vec::new();
        let mut cycles: Vec<i64> = Vec::new();
        let mut brinst: Vec<i64> = Vec::new();
        let mut brmiss: Vec<i64> = Vec::new();
        let mut crefs: Vec<i64> = Vec::new();
        let mut cmiss: Vec<i64> = Vec::new();
        let mut i: usize = 0;
        while i < previous.len()
            invariant
                i <= previous@.len(),
                forall|k: int|
                    0 <= k < previous@.len() ==> metrics_in_range(#[trigger] previous@[k]),
                nanos@ == nanos_medians(previous@.subrange(0, i as int)),
                instrs@ == instructions_medians(previous@.subrange(0, i as int)),
                cycles@ == cpu_cycles_medians(previous@.subrange(0, i as int)),
                brinst@ == branch_instructions_medians(previous@.subrange(0, i as int)),
                brmiss@ == branch_misses_medians(previous@.subrange(0, i as int)),
                crefs@ == cache_references_medians(previous@.subrange(0, i as int)),
                cmiss@ == cache_misses_medians(previous@.subrange(0, i as int)),
                all_in_range(nanos@),
                all_in_range(instrs@),
                all_in_range(cycles@),
                all_in_range(brinst@),
                all_in_range(brmiss@),
                all_in_range(crefs@),
                all_in_range(cmiss@),
            decreases previous@.len() - i,
        {
            let m = &previous[i];
            nanos.push(m.nanoseconds.median);
            instrs.push(m.instructions.median);
            cycles.push(m.cpu_cycles.median);
            brinst.push(m.branch_instructions.median);
            brmiss.push(m.branch_misses.median);
            crefs.push(m.cache_references.median);
            cmiss.push(m.cache_misses.median);
            proof {
                let pre = previous@.subrange(0, i as int);
                let post = previous@.subrange(0, i + 1);
                assert(nanos_medians(post) =~= nanos_medians(pre).push(
                    previous@[i as int].nanoseconds.median,
                ));
                assert(instructions_medians(post) =~= instructions_medians(pre).push(
                    previous@[i as int].instructions.median,
                ));
                assert(cpu_cycles_medians(post) =~= cpu_cycles_medians(pre).push(
                    previous@[i as int].cpu_cycles.median,
                ));
                assert(branch_instructions_medians(post) =~= branch_instructions_medians(
                    pre,
                ).push(previous@[i as int].branch_instructions.median));
                assert(branch_misses_medians(post) =~= branch_misses_medians(pre).push(
                    previous@[i as int].branch_misses.median,
                ));
                assert(cache_references_medians(post) =~= cache_references_medians(pre).push(
                    previous@[i as int].cache_references.median,
                ));
                assert(cache_misses_medians(post) =~= cache_misses_medians(pre).push(
                    previous@[i as int].cache_misses.median,
                ));
            }
            i = i + 1;
        }
        proof {
            assert(previous@.subrange(0, previous@.len() as int) =~= previous@);
        }
        let s_nanos = AnomalyScore::new(current.nanoseconds.median, &nanos);
        let s_instr = AnomalyScore::new(current.instructions.median, &instrs);
        let s_cycles = AnomalyScore::new(current.cpu_cycles.median, &cycles);
        let s_brinst = AnomalyScore::new(current.branch_instructions.median, &brinst);
        let s_brmiss = AnomalyScore::new(current.branch_misses.median, &brmiss);
        let s_crefs = AnomalyScore::new(current.cache_references.median, &crefs);
        let s_cmiss = AnomalyScore::new(current.cache_misses.median, &cmiss);
        match (s_nanos, s_instr, s_cycles, s_brinst, s_brmiss, s_crefs, s_cmiss) {
            (
                Some(nanoseconds),
                Some(instructions),
                Some(cpu_cycles),
                Some(branch_instructions),
                Some(branch_misses),
                Some(cache_references),
                Some(cache_misses),
            ) => Some(
                AnomalyIndex {
                    nanoseconds,
                    instructions,
                    cpu_cycles,
                    branch_instructions,
                    branch_misses,
                    cache_references,
                    cache_misses,
                },
            ),
            _ => None,
        }
    }
}

/// One point of a benchmark's toolchain-ordered series: one binary, the
/// toolchains that produced it, its measured metrics, the same metrics
/// normalized against the first record, and the anomaly index against the
/// preceding records where enough history exists.
#[derive(Debug)]
pub struct TimingRecord {
    /// The binary's hash in short hexadecimal.
    pub binary_hash: String,
    /// Every toolchain whose build produced this binary, in series order.
    pub toolchains: Vec<Toolchain>,
    pub anomaly_index: Option<AnomalyIndex>,
    pub metrics: RuntimeMetrics,
    pub normalized_metrics: RuntimeMetrics,
}

use crate::textfmt::hex_of_bytes_short;
use crate::toolchain::Toolchain;

/// The metrics of a record series.
pub open spec fn timings_metrics(s: Seq<TimingRecord>) -> Seq<RuntimeMetrics> {
    s.map_values(|t: TimingRecord| t.metrics)
}

impl Clone for TimingRecord {
    fn clone(&self) -> (r: TimingRecord)
        ensures
            r.binary_hash@ == self.binary_hash@,
            r.toolchains@.len() == self.toolchains@.len(),
            forall|i: int|
                0 <= i < self.toolchains@.len() ==> (#[trigger] r.toolchains@[i])@
                    == self.toolchains@[i]@,
            r.anomaly_index == self.anomaly_index,
            r.metrics == self.metrics,
            r.normalized_metrics == self.normalized_metrics,
    {
        let mut toolchains: Vec<Toolchain> = Vec::new();
        let mut i: usize = 0;
        while i < self.toolchains.len()
            invariant
                i <= self.toolchains@.len(),
                toolchains@.len() == i,
                forall|k: int|
                    0 <= k < i ==> (#[trigger] toolchains@[k])@ == self.toolchains@[k]@,
            decreases self.toolchains@.len() - i,
        {
            toolchains.push(self.toolchains[i].clone());
            i = i + 1;
        }
        TimingRecord {
            binary_hash: self.binary_hash.clone(),
            toolchains,
            anomaly_index: self.anomaly_index,
            metrics: self.metrics,
            normalized_metrics: self.normalized_metrics,
        }
    }
}

impl TimingRecord {
    /// Builds the record for one coalesced group: the binary that hashed to
    /// `current_binhash`, built by `current_toolchains`, measured as
    /// `current_measure`, following the already-built records `previous`.
    ///
    /// The first record of a series normalizes to exactly one unit in every
    /// metric; later records normalize against the first.  The anomaly
    /// index exists exactly when at least [`MIN_SAMPLES`] records precede.
    pub fn new(
        current_binhash: &Vec<u8>,
        current_toolchains: &Vec<Toolchain>,
        current_measure: &Estimates,
        previous: &Vec<TimingRecord>,
    ) -> (r: TimingRecord)
        requires
            measure_complete(current_measure@),
            previous@.len() <= MAX_SAMPLES,
            forall|i: int|
                0 <= i < previous@.len() ==> metrics_in_range(
                    (#[trigger] previous@[i]).metrics,
                ),
        ensures
            r.binary_hash@ == hex_of_bytes_short(current_binhash@),
            r.toolchains@.len() == current_toolchains@.len(),
            forall|i: int|
                0 <= i < current_toolchains@.len() ==> (#[trigger] r.toolchains@[i])@
                    == current_toolchains@[i]@,
            r.metrics == RuntimeMetrics::spec_from_measure(current_measure@),
            metrics_in_range(r.metrics),
            r.normalized_metrics == (if previous@.len() == 0 {
                RuntimeMetrics::spec_ones()
            } else {
                RuntimeMetrics::spec_from_measure(current_measure@).spec_normalized_against(
                    previous@[0].metrics,
                )
            }),
            r.anomaly_index is Some <==> previous@.len() >= MIN_SAMPLES,
            (match r.anomaly_index {
                Some(ix) => ix == spec_anomaly_index(
                    RuntimeMetrics::spec_from_measure(current_measure@),
                    timings_metrics(previous@),
                ),
                None => true,
            }),
    {
        let binary_hash = crate::textfmt::bytes_hex_short(current_binhash);
        let mut toolchains: Vec<Toolchain> = Vec::new();
        let mut i: usize = 0;
        while i < current_toolchains.len()
            invariant
                i <= current_toolchains@.len(),
                toolchains@.len() == i,
                forall|k: int|
                    0 <= k < i ==> (#[trigger] toolchains@[k])@ == current_toolchains@[k]@,
            decreases current_toolchains@.len() - i,
        {
            toolchains.push(current_toolchains[i].clone());
            i = i + 1;
        }
        let metrics = RuntimeMetrics::from_measure(current_measure);
        let normalized_metrics = if previous.len() == 0 {
            RuntimeMetrics::ones()
        } else {
            metrics.normalized_against(&previous[0].metrics)
        };
        let mut prev_metrics: Vec<RuntimeMetrics> = Vec::new();
        let mut j: usize = 0;
        while j < previous.len()
            invariant
                j <= previous@.len(),
                forall|k: int|
                    0 <= k < previous@.len() ==> metrics_in_range(
                        (#[trigger] previous@[k]).metrics,
                    ),
                prev_metrics@ == timings_metrics(previous@.subrange(0, j as int)),
                forall|k: int|
                    0 <= k < j ==> metrics_in_range(#[trigger] prev_metrics@[k]),
            decreases previous@.len() - j,
        {
            prev_metrics.push(previous[j].metrics);
            proof {
                assert(timings_metrics(previous@.subrange(0, j + 1)) =~= timings_metrics(
                    previous@.subrange(0, j as int),
                ).push(previous@[j as int].metrics));
            }
            j = j + 1;
        }
        proof {
            assert(previous@.subrange(0, previous@.len() as int) =~= previous@);
        }
        let anomaly_index = AnomalyIndex::new(&metrics, &prev_metrics);
        TimingRecord {
            binary_hash,
            toolchains,
            anomaly_index,
            metrics,
            normalized_metrics,
        }
    }
}

/// How many timing records a history coalesces into: one per position
/// whose binary hash differs from its predecessor's.
pub open spec fn spec_group_count(h: Seq<(Toolchain, Vec<u8>, Estimates)>) -> nat
    decreases h.len(),
{
    if h.len() == 0 {
        0
    } else if h.len() == 1 {
        1
    } else {
        spec_group_count(h.drop_last()) + (if h.last().1@ != h[h.len() - 2].1@ {
            1nat
        } else {
            0nat
        })
    }
}

/// Where each coalesced group begins: position zero, then every position
/// whose binary hash differs from its predecessor's.
pub open spec fn spec_group_starts(h: Seq<(Toolchain, Vec<u8>, Estimates)>) -> Seq<int>
    decreases h.len(),
{
    if h.len() == 0 {
        Seq::empty()
    } else if h.len() == 1 {
        seq![0int]
    } else if h.last().1@ != h[h.len() - 2].1@ {
        spec_group_starts(h.drop_last()) + seq![h.len() - 1]
    } else {
        spec_group_starts(h.drop_last())
    }
}

/// One past the last history position of the `j`-th group.
pub open spec fn spec_group_end(h: Seq<(Toolchain, Vec<u8>, Estimates)>, j: int) -> int {
    if j + 1 < spec_group_starts(h).len() {
        spec_group_starts(h)[j + 1]
    } else {
        h.len() as int
    }
}

/// The `j`-th record of a coalesced series describes the `j`-th group of
/// its history exactly: its hash and metrics come from the group's first
/// entry, it spans exactly the group's positions, later records normalize
/// against the first record, and its anomaly index is the exact score of
/// its metrics against all preceding records.
pub open spec fn record_matches_group(
    r: Seq<TimingRecord>,
    h: Seq<(Toolchain, Vec<u8>, Estimates)>,
    j: int,
) -> bool {
    let s = spec_group_starts(h)[j];
    0 <= s < h.len() && r[j].binary_hash@ == hex_of_bytes_short(h[s].1@) && r[j].metrics
        == RuntimeMetrics::spec_from_measure(h[s].2@) && r[j].toolchains@.len()
        == spec_group_end(h, j) - s && (j > 0 ==> r[j].normalized_metrics
        == RuntimeMetrics::spec_from_measure(h[s].2@).spec_normalized_against(r[0].metrics)) && (
    match r[j].anomaly_index {
        Some(ix) => ix == spec_anomaly_index(r[j].metrics, timings_metrics(r.subrange(0, j))),
        None => true,
    })
}

/// Coalesces a benchmark's toolchain-ordered history into timing records:
/// consecutive entries whose binary hashes agree collapse into one record
/// spanning their toolchains, measured by the group's first measurement.
///
/// One record is produced per run of equal hashes, describing that run
/// exactly ([`record_matches_group`]).  The first record normalizes to
/// exactly one unit in every metric, and a record carries an anomaly index
/// exactly when at least [`MIN_SAMPLES`] records precede it.
#[verifier::rlimit(60)]
pub fn coalesce_timings(history: &Vec<(Toolchain, Vec<u8>, Estimates)>) -> (r: Vec<TimingRecord>)
    requires
        history@.len() <= MAX_SAMPLES,
        forall|i: int| 0 <= i < history@.len() ==> measure_complete((#[trigger] history@[i]).2@),
    ensures
        r@.len() == spec_group_count(history@),
        r@.len() == spec_group_starts(history@).len(),
        r@.len() > 0 ==> r@[0].normalized_metrics == RuntimeMetrics::spec_ones(),
        r@.len() > 0 ==> r@[0].binary_hash@ == hex_of_bytes_short(history@[0].1@),
        r@.len() > 0 ==> r@[0].metrics == RuntimeMetrics::spec_from_measure(history@[0].2@),
        r@.len() > 0 ==> r@.last().binary_hash@ == hex_of_bytes_short(history@.last().1@),
        forall|j: int|
            0 <= j < r@.len() ==> ((#[trigger] r@[j].anomaly_index) is Some <==> j
                >= MIN_SAMPLES),
        forall|j: int| 0 <= j < r@.len() ==> metrics_in_range((#[trigger] r@[j]).metrics),
        forall|j: int| 0 <= j < r@.len() ==> #[trigger] record_matches_group(r@, history@, j),
        forall|j: int, t: int|
            0 <= j < r@.len() && 0 <= t < r@[j].toolchains@.len() ==> (#[trigger] r@[
            j].toolchains@[t])@ == history@[spec_group_starts(history@)[j] + t].0@,
{
    let mut timings: Vec<TimingRecord> = Vec::new();
    if history.len() == 0 {
        return timings;
    }
    let mut group_hash: Vec<u8> = crate::hashing::bytes_clone(&history[0].1);
    let mut group_toolchains: Vec<Toolchain> = Vec::new();
    group_toolchains.push(history[0].0.clone());
    let mut group_start: usize = 0;
    let ghost mut starts: Seq<int> = Seq::empty();
    let mut i: usize = 1;
    proof {
        assert(spec_group_count(history@.subrange(0, 1)) == 1);
        assert(spec_group_starts(history@.subrange(0, 1)) =~= seq![0int]);
        assert(starts.push(group_start as int) =~= seq![0int]);
    }
    while i < history.len()
        invariant
            1 <= i <= history@.len(),
            history@.len() <= MAX_SAMPLES,
            forall|k: int|
                0 <= k < history@.len() ==> measure_complete((#[trigger] history@[k]).2@),
            group_start < i,
            group_hash@ == history@[group_start as int].1@,
            group_hash@ == history@[i - 1].1@,
            group_toolchains@.len() == i - group_start,
            forall|t: int|
                0 <= t < group_toolchains@.len() ==> (#[trigger] group_toolchains@[t])@
                    == history@[group_start + t].0@,
            timings@.len() <= group_start,
            timings@.len() == 0 <==> group_start == 0,
            timings@.len() + 1 == spec_group_count(history@.subrange(0, i as int)),
            starts.len() == timings@.len(),
            spec_group_starts(history@.subrange(0, i as int)) == starts.push(group_start as int),
            timings@.len() > 0 ==> r_first_ok(timings@, history@),
            forall|j: int|
                0 <= j < timings@.len() ==> ((#[trigger] timings@[j].anomaly_index) is Some
                    <==> j >= MIN_SAMPLES),
            forall|j: int|
                0 <= j < timings@.len() ==> metrics_in_range((#[trigger] timings@[j]).metrics),
            forall|j: int|
                #![trigger starts[j]]
                0 <= j < timings@.len() ==> 0 <= starts[j] < i && timings@[j].binary_hash@
                    == hex_of_bytes_short(history@[starts[j]].1@) && timings@[j].metrics
                    == RuntimeMetrics::spec_from_measure(history@[starts[j]].2@) && (j > 0
                    ==> timings@[j].normalized_metrics == RuntimeMetrics::spec_from_measure(
                    history@[starts[j]].2@,
                ).spec_normalized_against(timings@[0].metrics)) && (match timings@[
                j].anomaly_index {
                    Some(ix) => ix == spec_anomaly_index(
                        timings@[j].metrics,
                        timings_metrics(timings@.subrange(0, j)),
                    ),
                    None => true,
                }) && timings@[j].toolchains@.len() == (if j + 1 < starts.len() {
                    starts[j + 1]
                } else {
                    group_start as int
                }) - starts[j],
            forall|j: int, t: int|
                0 <= j < timings@.len() && 0 <= t < timings@[j].toolchains@.len() ==> (
                #[trigger] timings@[j].toolchains@[t])@ == history@[starts[j] + t].0@,
        decreases history@.len() - i,
    {
        proof {
            let pre = history@.subrange(0, i as int);
            let post = history@.subrange(0, i + 1);
            assert(post.drop_last() =~= pre);
            assert(post.last() == history@[i as int]);
            assert(post[post.len() - 2] == history@[i - 1]);
        }
        let same = bytes_equal(&history[i].1, &group_hash);
        if same {
            group_toolchains.push(history[i].0.clone());
        } else {
            let record = TimingRecord::new(
                &group_hash,
                &group_toolchains,
                &history[group_start].2,
                &timings,
            );
            let ghost timings0 = timings@;
            timings.push(record);
            proof {
                let j = timings0.len() as int;
                assert(timings@.subrange(0, j) =~= timings0);
                assert forall|q: int, t: int|
                    0 <= q < timings@.len() && 0 <= t < timings@[q].toolchains@.len() implies (
                #[trigger] timings@[q].toolchains@[t])@ == history@[(starts.push(
                    group_start as int,
                ))[q] + t].0@ by {
                    if q < j {
                        assert(timings@[q] == timings0[q]);
                    } else {
                        assert(timings@[q].toolchains@[t]@ == group_toolchains@[t]@);
                    }
                }
                assert forall|q: int|
                    0 <= q < j implies #[trigger] timings@.subrange(0, q) =~= timings0.subrange(
                    0,
                    q,
                ) by {}
                starts = starts.push(group_start as int);
            }
            group_hash = crate::hashing::bytes_clone(&history[i].1);
            group_toolchains = Vec::new();
            group_toolchains.push(history[i].0.clone());
            group_start = i;
        }
        i = i + 1;
    }
    proof {
        assert(history@.subrange(0, history@.len() as int) =~= history@);
    }
    let record = TimingRecord::new(
        &group_hash,
        &group_toolchains,
        &history[group_start].2,
        &timings,
    );
    let ghost timings0 = timings@;
    timings.push(record);
    proof {
        let full = spec_group_starts(history@);
        assert(full == starts.push(group_start as int));
        let n = timings@.len() as int;
        assert(timings@.subrange(0, n - 1) =~= timings0);
        assert forall|j: int|
            0 <= j < timings@.len() implies #[trigger] record_matches_group(
            timings@,
            history@,
            j,
        ) by {
            if j < n - 1 {
                assert(timings@[j] == timings0[j]);
                assert(full[j] == starts[j]);
                assert(timings@.subrange(0, j) =~= timings0.subrange(0, j));
                if j + 1 < full.len() - 1 + 1 {
                }
                if j + 1 < starts.len() {
                    assert(full[j + 1] == starts[j + 1]);
                } else {
                    assert(full[j + 1] == group_start as int);
                }
                assert(spec_group_end(history@, j) == (if j + 1 < starts.len() {
                    starts[j + 1]
                } else {
                    group_start as int
                }));
            } else {
                assert(full[j] == group_start as int);
                assert(spec_group_end(history@, j) == history@.len() as int);
                assert(timings@[j].toolchains@.len() == history@.len() - group_start);
                assert(timings@.subrange(0, j) =~= timings0);
            }
        }
        assert forall|j: int, t: int|
            0 <= j < timings@.len() && 0 <= t < timings@[j].toolchains@.len() implies (
        #[trigger] timings@[j].toolchains@[t])@ == history@[spec_group_starts(history@)[j]
            + t].0@ by {
            if j < n - 1 {
                assert(timings@[j] == timings0[j]);
                assert(full[j] == starts[j]);
            } else {
                assert(full[j] == group_start as int);
                assert(timings@[j].toolchains@[t]@ == group_toolchains@[t]@);
            }
        }
    }
    timings
}

/// The first record of a built series describes the first history entry.
pub open spec fn r_first_ok(
    timings: Seq<TimingRecord>,
    history: Seq<(Toolchain, Vec<u8>, Estimates)>,
) -> bool {
    timings[0].normalized_metrics == RuntimeMetrics::spec_ones() && timings[0].binary_hash@
        == hex_of_bytes_short(history[0].1@) && timings[0].metrics
        == RuntimeMetrics::spec_from_measure(history[0].2@)
}

/// The context-switch medians of a metrics series.
pub open spec fn context_switches_medians(s: Seq<RuntimeMetrics>) -> Seq<i64> {
    s.map_values(|m: RuntimeMetrics| m.context_switches.median)
}

/// The cpu-clock medians of a metrics series.
pub open spec fn cpu_clock_medians(s: Seq<RuntimeMetrics>) -> Seq<i64> {
    s.map_values(|m: RuntimeMetrics| m.cpu_clock.median)
}

/// Collects the nine median series of a record series.
#[allow(unused_parens)]
fn median_columns(timings: &Vec<TimingRecord>) -> (r: (
    Vec<i64>,
    Vec<i64>,
    Vec<i64>,
    Vec<i64>,
    Vec<i64>,
    Vec<i64>,
    Vec<i64>,
    Vec<i64>,
    Vec<i64>,
))
    requires
        forall|i: int|
            0 <= i < timings@.len() ==> metrics_in_range((#[trigger] timings@[i]).metrics),
    ensures
        r.0@ == nanos_medians(timings_metrics(timings@)),
        r.1@ == instructions_medians(timings_metrics(timings@)),
        r.2@ == cpu_cycles_medians(timings_metrics(timings@)),
        r.3@ == context_switches_medians(timings_metrics(timings@)),
        r.4@ == cpu_clock_medians(timings_metrics(timings@)),
        r.5@ == branch_instructions_medians(timings_metrics(timings@)),
        r.6@ == branch_misses_medians(timings_metrics(timings@)),
        r.7@ == cache_misses_medians(timings_metrics(timings@)),
        r.8@ == cache_references_medians(timings_metrics(timings@)),
        all_in_range(r.0@) && all_in_range(r.1@) && all_in_range(r.2@) && all_in_range(r.3@)
            && all_in_range(r.4@) && all_in_range(r.5@) && all_in_range(r.6@) && all_in_range(
            r.7@,
        ) && all_in_range(r.8@),
{
    let mut nanos: Vec<i64> = Vec::new();
    let mut instrs: Vec<i64> = Vec::new();
    let mut cycles: Vec<i64> = Vec::new();
    let mut ctx: Vec<i64> = Vec::new();
    let mut clock: Vec<i64> = Vec::new();
    let mut brinst: Vec<i64> = Vec::new();
    let mut brmiss: Vec<i64> = Vec::new();
    let mut cmiss: Vec<i64> = Vec::new();
    let mut crefs: Vec<i64> = Vec::new();
    let mut i: usize = 0;
    while i < timings.len()
        invariant
            i <= timings@.len(),
            forall|k: int|
                0 <= k < timings@.len() ==> metrics_in_range((#[trigger] timings@[k]).metrics),
            nanos@ == nanos_medians(timings_metrics(timings@.subrange(0, i as int))),
            instrs@ == instructions_medians(timings_metrics(timings@.subrange(0, i as int))),
            cycles@ == cpu_cycles_medians(timings_metrics(timings@.subrange(0, i as int))),
            ctx@ == context_switches_medians(timings_metrics(timings@.subrange(0, i as int))),
            clock@ == cpu_clock_medians(timings_metrics(timings@.subrange(0, i as int))),
            brinst@ == branch_instructions_medians(
                timings_metrics(timings@.subrange(0, i as int)),
            ),
            brmiss@ == branch_misses_medians(timings_metrics(timings@.subrange(0, i as int))),
            cmiss@ == cache_misses_medians(timings_metrics(timings@.subrange(0, i as int))),
            crefs@ == cache_references_medians(timings_metrics(timings@.subrange(0, i as int))),
            all_in_range(nanos@) && all_in_range(instrs@) && all_in_range(cycles@)
                && all_in_range(ctx@) && all_in_range(clock@) && all_in_range(brinst@)
                && all_in_range(brmiss@) && all_in_range(cmiss@) && all_in_range(crefs@),
        decreases timings@.len() - i,
    {
        let m = &timings[i].metrics;
        nanos.push(m.nanoseconds.median);
        instrs.push(m.instructions.median);
        cycles.push(m.cpu_cycles.median);
        ctx.push(m.context_switches.median);
        clock.push(m.cpu_clock.median);
        brinst.push(m.branch_instructions.median);
        brmiss.push(m.branch_misses.median);
        cmiss.push(m.cache_misses.median);
        crefs.push(m.cache_references.median);
        proof {
            let pre = timings_metrics(timings@.subrange(0, i as int));
            let post = timings_metrics(timings@.subrange(0, i + 1));
            let mm = timings@[i as int].metrics;
            assert(post =~= pre.push(mm));
            assert(nanos_medians(post) =~= nanos_medians(pre).push(mm.nanoseconds.median));
            assert(instructions_medians(post) =~= instructions_medians(pre).push(
                mm.instructions.median,
            ));
            assert(cpu_cycles_medians(post) =~= cpu_cycles_medians(pre).push(
                mm.cpu_cycles.median,
            ));
            assert(context_switches_medians(post) =~= context_switches_medians(pre).push(
                mm.context_switches.median,
            ));
            assert(cpu_clock_medians(post) =~= cpu_clock_medians(pre).push(mm.cpu_clock.median));
            assert(branch_instructions_medians(post) =~= branch_instructions_medians(pre).push(
                mm.branch_instructions.median,
            ));
            assert(branch_misses_medians(post) =~= branch_misses_medians(pre).push(
                mm.branch_misses.median,
            ));
            assert(cache_misses_medians(post) =~= cache_misses_medians(pre).push(
                mm.cache_misses.median,
            ));
            assert(cache_references_medians(post) =~= cache_references_medians(pre).push(
                mm.cache_references.median,
            ));
        }
        i = i + 1;
    }
    proof {
        assert(timings@.subrange(0, timings@.len() as int) =~= timings@);
    }
    (nanos, instrs, cycles, ctx, clock, brinst, brmiss, cmiss, crefs)
}

/// The mean of each metric's medians across a series.
pub fn calculate_means(timings: &Vec<TimingRecord>) -> (r: SimpleRuntimeMetrics)
    requires
        1 <= timings@.len() <= MAX_SAMPLES,
        forall|i: int|
            0 <= i < timings@.len() ==> metrics_in_range((#[trigger] timings@[i]).metrics),
    ensures
        r.nanoseconds == spec_mean(nanos_medians(timings_metrics(timings@))),
        r.instructions == spec_mean(instructions_medians(timings_metrics(timings@))),
        r.cpu_cycles == spec_mean(cpu_cycles_medians(timings_metrics(timings@))),
        r.context_switches == spec_mean(context_switches_medians(timings_metrics(timings@))),
        r.cpu_clock == spec_mean(cpu_clock_medians(timings_metrics(timings@))),
        r.branch_instructions == spec_mean(
            branch_instructions_medians(timings_metrics(timings@)),
        ),
        r.branch_misses == spec_mean(branch_misses_medians(timings_metrics(timings@))),
        r.cache_misses == spec_mean(cache_misses_medians(timings_metrics(timings@))),
        r.cache_references == spec_mean(cache_references_medians(timings_metrics(timings@))),
        0 <= r.nanoseconds <= MAX_METRIC && 0 <= r.instructions <= MAX_METRIC && 0
            <= r.cpu_cycles <= MAX_METRIC && 0 <= r.context_switches <= MAX_METRIC && 0
            <= r.cpu_clock <= MAX_METRIC && 0 <= r.branch_instructions <= MAX_METRIC && 0
            <= r.branch_misses <= MAX_METRIC && 0 <= r.cache_misses <= MAX_METRIC && 0
            <= r.cache_references <= MAX_METRIC,
{
    let cols = median_columns(timings);
    SimpleRuntimeMetrics {
        nanoseconds: mean_fx(&cols.0),
        instructions: mean_fx(&cols.1),
        cpu_cycles: mean_fx(&cols.2),
        context_switches: mean_fx(&cols.3),
        cpu_clock: mean_fx(&cols.4),
        branch_instructions: mean_fx(&cols.5),
        branch_misses: mean_fx(&cols.6),
        cache_misses: mean_fx(&cols.7),
        cache_references: mean_fx(&cols.8),
    }
}

/// The sample standard deviation of each metric's medians across a series,
/// around the given per-metric means.
pub fn calculate_std_devs(timings: &Vec<TimingRecord>, means: &SimpleRuntimeMetrics) -> (r:
    SimpleRuntimeMetrics)
    requires
        2 <= timings@.len() <= MAX_SAMPLES,
        forall|i: int|
            0 <= i < timings@.len() ==> metrics_in_range((#[trigger] timings@[i]).metrics),
        0 <= means.nanoseconds <= MAX_METRIC,
        0 <= means.instructions <= MAX_METRIC,
        0 <= means.cpu_cycles <= MAX_METRIC,
        0 <= means.context_switches <= MAX_METRIC,
        0 <= means.cpu_clock <= MAX_METRIC,
        0 <= means.branch_instructions <= MAX_METRIC,
        0 <= means.branch_misses <= MAX_METRIC,
        0 <= means.cache_misses <= MAX_METRIC,
        0 <= means.cache_references <= MAX_METRIC,
    ensures
        r.nanoseconds as nat == crate::stats::spec_std_dev_with(
            nanos_medians(timings_metrics(timings@)),
            means.nanoseconds as int,
        ),
        r.instructions as nat == crate::stats::spec_std_dev_with(
            instructions_medians(timings_metrics(timings@)),
            means.instructions as int,
        ),
        r.cpu_cycles as nat == crate::stats::spec_std_dev_with(
            cpu_cycles_medians(timings_metrics(timings@)),
            means.cpu_cycles as int,
        ),
        r.context_switches as nat == crate::stats::spec_std_dev_with(
            context_switches_medians(timings_metrics(timings@)),
            means.context_switches as int,
        ),
        r.cpu_clock as nat == crate::stats::spec_std_dev_with(
            cpu_clock_medians(timings_metrics(timings@)),
            means.cpu_clock as int,
        ),
        r.branch_instructions as nat == crate::stats::spec_std_dev_with(
            branch_instructions_medians(timings_metrics(timings@)),
            means.branch_instructions as int,
        ),
        r.branch_misses as nat == crate::stats::spec_std_dev_with(
            branch_misses_medians(timings_metrics(timings@)),
            means.branch_misses as int,
        ),
        r.cache_misses as nat == crate::stats::spec_std_dev_with(
            cache_misses_medians(timings_metrics(timings@)),
            means.cache_misses as int,
        ),
        r.cache_references as nat == crate::stats::spec_std_dev_with(
            cache_references_medians(timings_metrics(timings@)),
            means.cache_references as int,
        ),
{
    let cols = median_columns(timings);
    SimpleRuntimeMetrics {
        nanoseconds: crate::stats::std_dev_with_mean_fx(&cols.0, means.nanoseconds),
        instructions: crate::stats::std_dev_with_mean_fx(&cols.1, means.instructions),
        cpu_cycles: crate::stats::std_dev_with_mean_fx(&cols.2, means.cpu_cycles),
        context_switches: crate::stats::std_dev_with_mean_fx(&cols.3, means.context_switches),
        cpu_clock: crate::stats::std_dev_with_mean_fx(&cols.4, means.cpu_clock),
        branch_instructions: crate::stats::std_dev_with_mean_fx(
            &cols.5,
            means.branch_instructions,
        ),
        branch_misses: crate::stats::std_dev_with_mean_fx(&cols.6, means.branch_misses),
        cache_misses: crate::stats::std_dev_with_mean_fx(&cols.7, means.cache_misses),
        cache_references: crate::stats::std_dev_with_mean_fx(&cols.8, means.cache_references),
    }
}

/// Each value as a ratio of the first, in fixed point: the first maps to
/// exactly one unit.
pub open spec fn spec_ratio_to_first(v: int, first: int) -> int {
    sat_i64(v * (SCALE as int) / first)
}

/// Normalizes a series against its first value: the first becomes exactly
/// one unit, every later value the fixed-point ratio to it.
pub fn normalized_against_first(values: &Vec<i64>) -> (r: Vec<i64>)
    requires
        1 <= values@.len(),
        all_in_range(values@),
        values@[0] > 0,
    ensures
        r@.len() == values@.len(),
        r@[0] == SCALE,
        forall|i: int|
            1 <= i < values@.len() ==> #[trigger] r@[i] == spec_ratio_to_first(
                values@[i] as int,
                values@[0] as int,
            ),
{
    let mut r: Vec<i64> = Vec::new();
    r.push(SCALE);
    let first = values[0];
    let mut i: usize = 1;
    while i < values.len()
        invariant
            1 <= i <= values@.len(),
            all_in_range(values@),
            first == values@[0],
            first > 0,
            r@.len() == i,
            r@[0] == SCALE,
            forall|k: int|
                1 <= k < i ==> #[trigger] r@[k] == spec_ratio_to_first(
                    values@[k] as int,
                    values@[0] as int,
                ),
        decreases values@.len() - i,
    {
        let num: i128 = (values[i] as i128) * (SCALE as i128);
        let q: i128 = num / (first as i128);
        let v: i64 = if q > i64::MAX as i128 {
            i64::MAX
        } else if q < i64::MIN as i128 {
            i64::MIN
        } else {
            q as i64
        };
        r.push(v);
        i = i + 1;
    }
    r
}

/// One regression candidate: a record judged anomalous, with the benchmark
/// it belongs to and the first toolchain of its record.
#[derive(Debug)]
pub struct AnomalousTiming {
    pub index: AnomalyIndex,
    pub bench_fn: String,
    pub toolchain: Toolchain,
    pub timing: TimingRecord,
}

/// The names that identify one regression candidate.
pub struct AnomalousTimingV {
    pub bench_fn: Seq<char>,
    pub toolchain: Seq<char>,
    pub binary_hash: Seq<char>,
    pub index: AnomalyIndex,
}

/// The names of a built candidate entry.
pub open spec fn entry_view(e: AnomalousTiming) -> AnomalousTimingV {
    AnomalousTimingV {
        bench_fn: e.bench_fn@,
        toolchain: e.toolchain@,
        binary_hash: e.timing.binary_hash@,
        index: e.index,
    }
}

/// The names of a sequence of candidate entries.
pub open spec fn entry_views(s: Seq<AnomalousTiming>) -> Seq<AnomalousTimingV> {
    s.map_values(|e: AnomalousTiming| entry_view(e))
}

/// A record is a regression candidate when it carries an index and its
/// wall-clock score is of interest.
pub open spec fn timing_of_interest(t: TimingRecord) -> bool {
    match t.anomaly_index {
        Some(ix) => spec_of_interest(ix.nanoseconds),
        None => false,
    }
}

/// An all-zero anomaly index; stands in only where no index exists, which
/// no candidate reaches.
pub open spec fn spec_zero_index() -> AnomalyIndex {
    AnomalyIndex {
        nanoseconds: zero_score(),
        instructions: zero_score(),
        cpu_cycles: zero_score(),
        branch_instructions: zero_score(),
        branch_misses: zero_score(),
        cache_references: zero_score(),
        cache_misses: zero_score(),
    }
}

/// An all-zero anomaly score.
pub open spec fn zero_score() -> AnomalyScore {
    AnomalyScore { kde_estimate: 0, percent_delta_from_mean: 0, stddev_from_mean: 0 }
}

/// The candidate one labelled record yields.
pub open spec fn candidate_of(p: (String, TimingRecord)) -> AnomalousTimingV {
    AnomalousTimingV {
        bench_fn: p.0@,
        toolchain: p.1.toolchains@[0]@,
        binary_hash: p.1.binary_hash@,
        index: (match p.1.anomaly_index {
            Some(ix) => ix,
            None => spec_zero_index(),
        }),
    }
}

/// Every regression candidate of a labelled series, in series order.
pub open spec fn spec_candidates(s: Seq<(String, TimingRecord)>) -> Seq<AnomalousTimingV>
    decreases s.len(),
{
    if s.len() == 0 {
        Seq::empty()
    } else if timing_of_interest(s.last().1) {
        spec_candidates(s.drop_last()) + seq![candidate_of(s.last())]
    } else {
        spec_candidates(s.drop_last())
    }
}

/// The candidates whose records the toolchain named `tc` introduced, in
/// series order.
pub open spec fn spec_candidates_for(c: Seq<AnomalousTimingV>, tc: Seq<char>) -> Seq<
    AnomalousTimingV,
>
    decreases c.len(),
{
    if c.len() == 0 {
        Seq::empty()
    } else if c.last().toolchain == tc {
        spec_candidates_for(c.drop_last(), tc) + seq![c.last()]
    } else {
        spec_candidates_for(c.drop_last(), tc)
    }
}

/// The names of a sequence of toolchains.
pub open spec fn toolchain_views(s: Seq<Toolchain>) -> Seq<Seq<char>> {
    s.map_values(|t: Toolchain| t@)
}

/// The all-zero anomaly index.
fn zero_index() -> (r: AnomalyIndex)
    ensures
        r == spec_zero_index(),
{
    let z = AnomalyScore { kde_estimate: 0, percent_delta_from_mean: 0, stddev_from_mean: 0 };
    AnomalyIndex {
        nanoseconds: z,
        instructions: z,
        cpu_cycles: z,
        branch_instructions: z,
        branch_misses: z,
        cache_references: z,
        cache_misses: z,
    }
}

/// Whether one toolchain's name comes strictly before another's in
/// byte-lexicographic order — for dated nightlies, chronological order.
fn toolchain_lex_lt(a: &Toolchain, b: &Toolchain) -> (r: bool)
    ensures
        r == crate::textfmt::lex_lt(
            vstd::utf8::encode_utf8(a@),
            vstd::utf8::encode_utf8(b@),
        ),
{
    crate::textfmt::bytes_lex_lt(a.as_str().as_bytes(), b.as_str().as_bytes())
}

/// Collects every regression candidate of a labelled series, in series
/// order.
fn collect_candidates(timings: &Vec<(String, TimingRecord)>) -> (flat: Vec<AnomalousTiming>)
    requires
        forall|i: int|
            0 <= i < timings@.len() ==> (#[trigger] timings@[i]).1.toolchains@.len() > 0,
    ensures
        entry_views(flat@) == spec_candidates(timings@),
{
    let mut flat: Vec<AnomalousTiming> = Vec::new();
    let mut i: usize = 0;
    proof {
        assert(entry_views(flat@) =~= spec_candidates(timings@.subrange(0, 0)));
    }
    while i < timings.len()
        invariant
            i <= timings@.len(),
            forall|k: int|
                0 <= k < timings@.len() ==> (#[trigger] timings@[k]).1.toolchains@.len() > 0,
            entry_views(flat@) == spec_candidates(timings@.subrange(0, i as int)),
        decreases timings@.len() - i,
    {
        proof {
            assert(timings@.subrange(0, i + 1).drop_last() =~= timings@.subrange(0, i as int));
            assert(timings@.subrange(0, i + 1).last() == timings@[i as int]);
        }
        let pair = &timings[i];
        let interesting = match &pair.1.anomaly_index {
            Some(ix) => ix.nanoseconds.is_of_interest(),
            None => false,
        };
        if interesting {
            let timing = pair.1.clone();
            let ix = match &timing.anomaly_index {
                Some(ix) => *ix,
                None => {
                    proof {
                        assert(false);
                    }
                    zero_index()
                },
            };
            let toolchain = timing.toolchains[0].clone();
            let entry = AnomalousTiming { index: ix, bench_fn: pair.0.clone(), toolchain, timing };
            flat.push(entry);
            proof {
                assert(entry_view(flat@.last()) == candidate_of(timings@[i as int]));
                assert(entry_views(flat@) =~= entry_views(flat@.drop_last()) + seq![
                    entry_view(flat@.last()),
                ]);
            }
        }
        i = i + 1;
    }
    proof {
        assert(timings@.subrange(0, timings@.len() as int) =~= timings@);
    }
    flat
}

/// Whether some group carries the toolchain named `tc`.
pub open spec fn has_group_for(groups: Seq<(Toolchain, Vec<AnomalousTiming>)>, tc: Seq<char>) -> bool {
    exists|g: int| 0 <= g < groups.len() && (#[trigger] groups[g]).0@ == tc
}

/// Whether some candidate's record was introduced by the toolchain named
/// `tc`.
pub open spec fn names_a_candidate(cands: Seq<AnomalousTimingV>, tc: Seq<char>) -> bool {
    exists|i: int| 0 <= i < cands.len() && (#[trigger] cands[i]).toolchain == tc
}

/// Sorts a set of group keys so their names descend in byte-lexicographic
/// order — for dated nightlies, the most recent toolchain first — carrying
/// the two witness maps through every exchange: one candidate bearing each
/// key, and the key position holding each candidate's toolchain.
#[verifier::rlimit(40)]
fn sort_keys_descending(
    keys: Vec<Toolchain>,
    Ghost(benches): Ghost<Seq<Seq<char>>>,
    Ghost(kwit0): Ghost<Seq<int>>,
    Ghost(cwit0): Ghost<Seq<int>>,
) -> (r: (Vec<Toolchain>, Ghost<Seq<int>>, Ghost<Seq<int>>))
    requires
        kwit0.len() == keys@.len(),
        forall|k: int|
            #![trigger kwit0[k]]
            0 <= k < keys@.len() ==> 0 <= kwit0[k] < benches.len() && benches[kwit0[k]]
                == keys@[k]@,
        cwit0.len() == benches.len(),
        forall|c: int|
            #![trigger cwit0[c]]
            0 <= c < benches.len() ==> 0 <= cwit0[c] < keys@.len() && keys@[cwit0[c]]@
                == benches[c],
        forall|a: int, b: int|
            0 <= a < b < keys@.len() ==> (#[trigger] keys@[a])@ != (#[trigger] keys@[b])@,
    ensures
        r.0@.len() == keys@.len(),
        r.1@.len() == r.0@.len(),
        forall|k: int|
            #![trigger r.1@[k]]
            0 <= k < r.0@.len() ==> 0 <= r.1@[k] < benches.len() && benches[r.1@[k]]
                == r.0@[k]@,
        r.2@.len() == benches.len(),
        forall|c: int|
            #![trigger r.2@[c]]
            0 <= c < benches.len() ==> 0 <= r.2@[c] < r.0@.len() && r.0@[r.2@[c]]@
                == benches[c],
        forall|a: int, b: int|
            0 <= a < b < r.0@.len() ==> (#[trigger] r.0@[a])@ != (#[trigger] r.0@[b])@,
        forall|a: int, b: int|
            0 <= a < b < r.0@.len() ==> crate::textfmt::lex_lt(
                vstd::utf8::encode_utf8((#[trigger] r.0@[b])@),
                vstd::utf8::encode_utf8((#[trigger] r.0@[a])@),
            ),
{
    let mut keys = keys;
    let ghost mut kwit = kwit0;
    let ghost mut cwit = cwit0;
    let mut s: usize = 0;
    while s < keys.len()
        invariant
            s <= keys@.len(),
            kwit.len() == keys@.len(),
            keys@.len() == kwit0.len(),
            forall|k: int|
                #![trigger kwit[k]]
                0 <= k < keys@.len() ==> 0 <= kwit[k] < benches.len() && benches[kwit[k]]
                    == keys@[k]@,
            cwit.len() == benches.len(),
            forall|c: int|
                #![trigger cwit[c]]
                0 <= c < benches.len() ==> 0 <= cwit[c] < keys@.len() && keys@[cwit[c]]@
                    == benches[c],
            forall|a: int, b: int|
                0 <= a < b < keys@.len() ==> (#[trigger] keys@[a])@ != (#[trigger] keys@[b])@,
            forall|a: int, b: int|
                0 <= a < b < keys@.len() && a < s ==> !crate::textfmt::lex_lt(
                    vstd::utf8::encode_utf8((#[trigger] keys@[a])@),
                    vstd::utf8::encode_utf8((#[trigger] keys@[b])@),
                ),
        decreases keys@.len() - s,
    {
        let mut max_at: usize = s;
        let mut j: usize = s + 1;
        proof {
            lemma_lex_irrefl(vstd::utf8::encode_utf8(keys@[s as int]@));
        }
        while j < keys.len()
            invariant
                s <= max_at < keys@.len(),
                s < j <= keys@.len(),
                forall|k: int|
                    s <= k < j ==> !crate::textfmt::lex_lt(
                        vstd::utf8::encode_utf8(keys@[max_at as int]@),
                        vstd::utf8::encode_utf8((#[trigger] keys@[k])@),
                    ),
            decreases keys@.len() - j,
        {
            let ghost m0 = max_at as int;
            if toolchain_lex_lt(&keys[max_at], &keys[j]) {
                max_at = j;
                proof {
                    lemma_lex_irrefl(vstd::utf8::encode_utf8(keys@[j as int]@));
                    assert forall|k: int|
                        s <= k < j + 1 implies !crate::textfmt::lex_lt(
                        vstd::utf8::encode_utf8(keys@[j as int]@),
                        vstd::utf8::encode_utf8((#[trigger] keys@[k])@),
                    ) by {
                        if k < j {
                            // were the new maximum before this element, the
                            // old maximum would be too, by transitivity
                            if crate::textfmt::lex_lt(
                                vstd::utf8::encode_utf8(keys@[j as int]@),
                                vstd::utf8::encode_utf8(keys@[k]@),
                            ) {
                                lemma_lex_trans(
                                    vstd::utf8::encode_utf8(keys@[m0]@),
                                    vstd::utf8::encode_utf8(keys@[j as int]@),
                                    vstd::utf8::encode_utf8(keys@[k]@),
                                );
                            }
                        }
                    }
                }
            }
            j = j + 1;
        }
        if max_at != s {
            let ghost kv0 = keys@;
            let ghost kwit_before = kwit;
            let ghost cwit_before = cwit;
            let x = keys[s].clone();
            let y = keys[max_at].clone();
            keys[s] = y;
            keys[max_at] = x;
            proof {
                let si = s as int;
                let mi = max_at as int;
                kwit = kwit.update(si, kwit_before[mi]).update(mi, kwit_before[si]);
                cwit = Seq::new(
                    cwit_before.len(),
                    |c: int|
                        if cwit_before[c] == si {
                            mi
                        } else if cwit_before[c] == mi {
                            si
                        } else {
                            cwit_before[c]
                        },
                );
                assert(keys@[si]@ == kv0[mi]@);
                assert(keys@[mi]@ == kv0[si]@);
                assert forall|k: int|
                    0 <= k < keys@.len() && k != si && k != mi implies keys@[k] == kv0[k] by {}
                assert forall|k: int|
                    #![trigger kwit[k]]
                    0 <= k < keys@.len() implies 0 <= kwit[k] < benches.len() && benches[kwit[k]]
                    == keys@[k]@ by {
                    let kv: int = if k == si {
                        mi
                    } else if k == mi {
                        si
                    } else {
                        k
                    };
                    assert(kwit[k] == kwit_before[kv]);
                    assert(keys@[k]@ == kv0[kv]@);
                }
                assert forall|c: int|
                    #![trigger cwit[c]]
                    0 <= c < benches.len() implies 0 <= cwit[c] < keys@.len() && keys@[cwit[c]]@
                    == benches[c] by {
                    if cwit_before[c] == si {
                        assert(keys@[mi]@ == kv0[si]@);
                    } else if cwit_before[c] == mi {
                        assert(keys@[si]@ == kv0[mi]@);
                    } else {
                        assert(keys@[cwit[c]] == kv0[cwit_before[c]]);
                    }
                }
                assert forall|a: int, b: int|
                    0 <= a < b < keys@.len() implies (#[trigger] keys@[a])@ != (
                #[trigger] keys@[b])@ by {
                    let av: int = if a == si {
                        mi
                    } else if a == mi {
                        si
                    } else {
                        a
                    };
                    let bv: int = if b == si {
                        mi
                    } else if b == mi {
                        si
                    } else {
                        b
                    };
                    assert(keys@[a]@ == kv0[av]@);
                    assert(keys@[b]@ == kv0[bv]@);
                }
            }
        }
        proof {
            assert forall|a: int, b: int|
                0 <= a < b < keys@.len() && a < s + 1 implies !crate::textfmt::lex_lt(
                vstd::utf8::encode_utf8((#[trigger] keys@[a])@),
                vstd::utf8::encode_utf8((#[trigger] keys@[b])@),
            ) by {}
        }
        s = s + 1;
    }
    proof {
        // distinct names descend strictly once no name comes before a later
        // one: the order is total, and equal encodings mean equal names
        assert forall|a: int, b: int|
            0 <= a < b < keys@.len() implies crate::textfmt::lex_lt(
            vstd::utf8::encode_utf8((#[trigger] keys@[b])@),
            vstd::utf8::encode_utf8((#[trigger] keys@[a])@),
        ) by {
            let ea = vstd::utf8::encode_utf8(keys@[a]@);
            let eb = vstd::utf8::encode_utf8(keys@[b]@);
            crate::textfmt::lemma_lex_total(ea, eb);
            if ea == eb {
                vstd::utf8::encode_utf8_decode_utf8(keys@[a]@);
                vstd::utf8::encode_utf8_decode_utf8(keys@[b]@);
                assert(keys@[a]@ == keys@[b]@);
            }
        }
    }
    (keys, Ghost(kwit), Ghost(cwit))
}

/// The regression candidates of a whole analysis pass, grouped by the
/// toolchain that introduced each, most recent toolchain first.
#[derive(Debug)]
pub struct Analysis {
    pub anomalous_timings: Vec<(Toolchain, Vec<AnomalousTiming>)>,
}

impl Analysis {
    /// Collects every regression candidate out of a labelled record series
    /// and groups the candidates by their records' first toolchains, in
    /// order of each toolchain's first appearance.  Each group holds exactly
    /// the candidates its toolchain introduced, in series order, and every
    /// candidate lands in exactly one group.
    #[verifier::rlimit(40)]
    pub fn new(timings: &Vec<(String, TimingRecord)>) -> (r: Analysis)
        requires
            forall|i: int|
                0 <= i < timings@.len() ==> (#[trigger] timings@[i]).1.toolchains@.len() > 0,
        ensures
            forall|g: int|
                0 <= g < r.anomalous_timings@.len() ==> entry_views(
                    (#[trigger] r.anomalous_timings@[g]).1@,
                ) == spec_candidates_for(
                    spec_candidates(timings@),
                    r.anomalous_timings@[g].0@,
                ),
            forall|i: int|
                0 <= i < spec_candidates(timings@).len() ==> #[trigger] has_group_for(
                    r.anomalous_timings@,
                    spec_candidates(timings@)[i].toolchain,
                ),
            forall|g: int|
                0 <= g < r.anomalous_timings@.len() ==> names_a_candidate(
                    spec_candidates(timings@),
                    (#[trigger] r.anomalous_timings@[g]).0@,
                ),
            forall|a: int, b: int|
                0 <= a < b < r.anomalous_timings@.len() ==> (#[trigger] r.anomalous_timings@[a]).0@
                    != (#[trigger] r.anomalous_timings@[b]).0@,
            forall|a: int, b: int|
                0 <= a < b < r.anomalous_timings@.len() ==> crate::textfmt::lex_lt(
                    vstd::utf8::encode_utf8((#[trigger] r.anomalous_timings@[b]).0@),
                    vstd::utf8::encode_utf8((#[trigger] r.anomalous_timings@[a]).0@),
                ),
    {
        let ghost cands = spec_candidates(timings@);
        let flat = collect_candidates(timings);
        // each candidate's toolchain once, in order of first appearance;
        // alongside, one witness per key (a candidate bearing it) and one
        // witness per candidate (the key position holding its toolchain)
        let mut keys: Vec<Toolchain> = Vec::new();
        let ghost mut kwit: Seq<int> = Seq::empty();
        let ghost mut cwit: Seq<int> = Seq::empty();
        let mut f: usize = 0;
        while f < flat.len()
            invariant
                f <= flat@.len(),
                cands == entry_views(flat@),
                cands == spec_candidates(timings@),
                forall|a: int, b: int|
                    0 <= a < b < keys@.len() ==> (#[trigger] keys@[a])@ != (#[trigger] keys@[b])@,
                kwit.len() == keys@.len(),
                forall|k: int|
                    #![trigger kwit[k]]
                    0 <= k < keys@.len() ==> 0 <= kwit[k] < f && cands[kwit[k]].toolchain
                        == keys@[k]@,
                cwit.len() == f,
                forall|c: int|
                    #![trigger cwit[c]]
                    0 <= c < f ==> 0 <= cwit[c] < keys@.len() && keys@[cwit[c]]@
                        == cands[c].toolchain,
            decreases flat@.len() - f,
        {
            let ghost keys0 = keys@;
            let tc = &flat[f].toolchain;
            proof {
                assert(cands[f as int] == entry_view(flat@[f as int]));
            }
            let mut found: Option<usize> = None;
            let mut a: usize = 0;
            while a < keys.len()
                invariant
                    a <= keys@.len(),
                    (match found {
                        Some(p) => p < keys@.len() && keys@[p as int]@ == tc@,
                        None => forall|b: int| 0 <= b < a ==> (#[trigger] keys@[b])@ != tc@,
                    }),
                decreases keys@.len() - a,
            {
                if found.is_none() && crate::textfmt::str_eq(keys[a].as_str(), tc.as_str()) {
                    found = Some(a);
                }
                a = a + 1;
            }
            match found {
                Some(p) => {
                    proof {
                        cwit = cwit.push(p as int);
                    }
                },
                None => {
                    keys.push(tc.clone());
                    proof {
                        kwit = kwit.push(f as int);
                        cwit = cwit.push(keys@.len() - 1);
                        assert(keys@.last()@ == cands[f as int].toolchain);
                        assert forall|x: int, y: int|
                            0 <= x < y < keys@.len() implies (#[trigger] keys@[x])@ != (
                        #[trigger] keys@[y])@ by {
                            if y < keys0.len() {
                            } else {
                                assert(keys@[y]@ == tc@);
                                assert(keys@[x] == keys0[x]);
                            }
                        }
                    }
                },
            }
            f = f + 1;
        }
        proof {
            assert(cands.len() == flat@.len());
        }
        // most recent toolchain first: sort the keys descending by name,
        // carrying the witnesses through
        let ghost benches = cands.map_values(|x: AnomalousTimingV| x.toolchain);
        proof {
            assert forall|k: int|
                #![trigger kwit[k]]
                0 <= k < keys@.len() implies 0 <= kwit[k] < benches.len() && benches[kwit[k]]
                == keys@[k]@ by {
                assert(benches[kwit[k]] == cands[kwit[k]].toolchain);
            }
            assert forall|c: int|
                #![trigger cwit[c]]
                0 <= c < benches.len() implies 0 <= cwit[c] < keys@.len() && keys@[cwit[c]]@
                == benches[c] by {
                assert(benches[c] == cands[c].toolchain);
            }
        }
        let sorted = sort_keys_descending(keys, Ghost(benches), Ghost(kwit), Ghost(cwit));
        let keys = sorted.0;
        proof {
            kwit = sorted.1@;
            cwit = sorted.2@;
            assert forall|k: int|
                #![trigger kwit[k]]
                0 <= k < keys@.len() implies 0 <= kwit[k] < cands.len() && cands[
                kwit[k]].toolchain == keys@[k]@ by {
                assert(benches[kwit[k]] == cands[kwit[k]].toolchain);
            }
            assert forall|c: int|
                #![trigger cwit[c]]
                0 <= c < cands.len() implies 0 <= cwit[c] < keys@.len() && keys@[cwit[c]]@
                == cands[c].toolchain by {
                assert(benches[c] == cands[c].toolchain);
            }
        }
        // one group per key, in key order
        let mut groups: Vec<(Toolchain, Vec<AnomalousTiming>)> = Vec::new();
        let mut g: usize = 0;
        while g < keys.len()
            invariant
                g <= keys@.len(),
                cands == entry_views(flat@),
                cands == spec_candidates(timings@),
                kwit.len() == keys@.len(),
                forall|k: int|
                    #![trigger kwit[k]]
                    0 <= k < keys@.len() ==> 0 <= kwit[k] < cands.len() && cands[
                        kwit[k]].toolchain == keys@[k]@,
                cwit.len() == cands.len(),
                forall|c: int|
                    #![trigger cwit[c]]
                    0 <= c < cands.len() ==> 0 <= cwit[c] < keys@.len() && keys@[cwit[c]]@
                        == cands[c].toolchain,
                forall|a: int, b: int|
                    0 <= a < b < keys@.len() ==> (#[trigger] keys@[a])@ != (#[trigger] keys@[b])@,
                forall|a: int, b: int|
                    0 <= a < b < keys@.len() ==> crate::textfmt::lex_lt(
                        vstd::utf8::encode_utf8((#[trigger] keys@[b])@),
                        vstd::utf8::encode_utf8((#[trigger] keys@[a])@),
                    ),
                groups@.len() == g,
                forall|k: int| 0 <= k < g ==> (#[trigger] groups@[k]).0@ == keys@[k]@,
                forall|k: int|
                    0 <= k < g ==> entry_views((#[trigger] groups@[k]).1@)
                        == spec_candidates_for(cands, groups@[k].0@),
            decreases keys@.len() - g,
        {
            let key = &keys[g];
            let mut group: Vec<AnomalousTiming> = Vec::new();
            let mut j: usize = 0;
            proof {
                assert(entry_views(group@) =~= spec_candidates_for(cands.subrange(0, 0), key@));
            }
            while j < flat.len()
                invariant
                    j <= flat@.len(),
                    cands == entry_views(flat@),
                    entry_views(group@) == spec_candidates_for(
                        cands.subrange(0, j as int),
                        key@,
                    ),
                decreases flat@.len() - j,
            {
                proof {
                    assert(cands.subrange(0, j + 1).drop_last() =~= cands.subrange(0, j as int));
                    assert(cands.subrange(0, j + 1).last() == cands[j as int]);
                    assert(cands[j as int] == entry_view(flat@[j as int]));
                }
                if crate::textfmt::str_eq(flat[j].toolchain.as_str(), key.as_str()) {
                    let e = &flat[j];
                    let copied = AnomalousTiming {
                        index: e.index,
                        bench_fn: e.bench_fn.clone(),
                        toolchain: e.toolchain.clone(),
                        timing: e.timing.clone(),
                    };
                    group.push(copied);
                    proof {
                        assert(entry_view(group@.last()) == cands[j as int]);
                        assert(entry_views(group@) =~= entry_views(group@.drop_last()) + seq![
                            entry_view(group@.last()),
                        ]);
                    }
                }
                j = j + 1;
            }
            proof {
                assert(cands.subrange(0, cands.len() as int) =~= cands);
            }
            groups.push((key.clone(), group));
            g = g + 1;
        }
        let result = Analysis { anomalous_timings: groups };
        proof {
            assert forall|i: int|
                0 <= i < spec_candidates(timings@).len() implies #[trigger] has_group_for(
                result.anomalous_timings@,
                spec_candidates(timings@)[i].toolchain,
            ) by {
                assert(cands[i] == spec_candidates(timings@)[i]);
                assert(0 <= cwit[i] < result.anomalous_timings@.len());
                assert(result.anomalous_timings@[cwit[i]].0@ == keys@[cwit[i]]@);
                assert(result.anomalous_timings@[cwit[i]].0@ == spec_candidates(
                    timings@,
                )[i].toolchain);
            }
            assert forall|a: int, b: int|
                0 <= a < b < result.anomalous_timings@.len() implies crate::textfmt::lex_lt(
                vstd::utf8::encode_utf8((#[trigger] result.anomalous_timings@[b]).0@),
                vstd::utf8::encode_utf8((#[trigger] result.anomalous_timings@[a]).0@),
            ) by {
                assert(result.anomalous_timings@[a].0@ == keys@[a]@);
                assert(result.anomalous_timings@[b].0@ == keys@[b]@);
            }
            assert forall|gr: int|
                0 <= gr < result.anomalous_timings@.len() implies names_a_candidate(
                spec_candidates(timings@),
                (#[trigger] result.anomalous_timings@[gr]).0@,
            ) by {
                assert(result.anomalous_timings@[gr].0@ == keys@[gr]@);
                assert(0 <= kwit[gr] < cands.len());
                assert(cands[kwit[gr]].toolchain == keys@[gr]@);
                assert(spec_candidates(timings@)[kwit[gr]] == cands[kwit[gr]]);
            }
        }
        result
    }
}

/// Nothing comes before itself in the lexicographic order.
proof fn lemma_lex_irrefl(x: Seq<u8>)
    ensures
        !crate::textfmt::lex_lt(x, x),
    decreases x.len(),
{
    if x.len() > 0 {
        lemma_lex_irrefl(x.drop_first());
    }
}

/// The lexicographic order is transitive.
proof fn lemma_lex_trans(x: Seq<u8>, y: Seq<u8>, z: Seq<u8>)
    requires
        crate::textfmt::lex_lt(x, y),
        crate::textfmt::lex_lt(y, z),
    ensures
        crate::textfmt::lex_lt(x, z),
    decreases x.len() + y.len() + z.len(),
{
    if x.len() > 0 && y.len() > 0 && z.len() > 0 && x[0] == y[0] && y[0] == z[0] {
        lemma_lex_trans(x.drop_first(), y.drop_first(), z.drop_first());
    }
}

/// Whether two byte strings are equal.
fn bytes_equal(a: &Vec<u8>, b: &Vec<u8>) -> (r: bool)
    ensures
        r == (a@ == b@),
{
    if a.len() != b.len() {
        return false;
    }
    let mut i: usize = 0;
    while i < a.len()
        invariant
            a@.len() == b@.len(),
            i <= a@.len(),
            forall|k: int| 0 <= k < i ==> a@[k] == b@[k],
        decreases a@.len() - i,
    {
        if a[i] != b[i] {
            return false;
        }
        i = i + 1;
    }
    proof {
        assert(a@ =~= b@);
    }
    true
}

} // verus!
