use vstd::prelude::*;
use crate::decision::Decision;
use crate::metrics::{
    MedianPair, ends_in_brake, has_false_alarm, latency_at_or_after, median, spec_ends_in_brake,
    spec_has_false_alarm, spec_latency, spec_median, spec_transitions, transitions,
};

verus! {

/// First seed of the hard-braking-lead suite.
pub const HARD_SEED_BASE: u64 = 1_000_000;

/// First seed of the empty-road suite.
pub const EMPTY_SEED_BASE: u64 = 2_000_000;

/// First seed of the cut-in suite.
pub const CUT_IN_SEED_BASE: u64 = 3_000_000;

/// A response later than this many cycles after the truth crossing is
/// reported as a failure.
pub const MAX_RESPONSE_LATENCY: usize = 3;

/// The scenario suites that the metrics evaluate.
#[derive(Clone, Copy, Debug, PartialEq, Eq, Structural)]
pub enum Suite {
    HardBraking,
    EmptyRoad,
    CutIn,
}

impl Suite {
    pub open spec fn spec_seed_base(&self) -> u64 {
        match self {
            Suite::HardBraking => HARD_SEED_BASE,
            Suite::EmptyRoad => EMPTY_SEED_BASE,
            Suite::CutIn => CUT_IN_SEED_BASE,
        }
    }

    /// The seed of the suite's first trial.
    #[verifier::when_used_as_spec(spec_seed_base)]
    pub fn seed_base(&self) -> (r: u64)
        ensures
            r == self.spec_seed_base(),
    {
        match self {
            Suite::HardBraking => HARD_SEED_BASE,
            Suite::EmptyRoad => EMPTY_SEED_BASE,
            Suite::CutIn => CUT_IN_SEED_BASE,
        }
    }

    /// The suite's name in reports and replay commands.
    pub fn name(&self) -> (r: &'static str)
        ensures
            r@ == match self {
                Suite::HardBraking => "hard-braking"@,
                Suite::EmptyRoad => "empty-road"@,
                Suite::CutIn => "cut-in"@,
            },
    {
        match self {
            Suite::HardBraking => "hard-braking",
            Suite::EmptyRoad => "empty-road",
            Suite::CutIn => "cut-in",
        }
    }
}

/// Seed of trial `offset` of `suite`.
pub open spec fn spec_trial_seed(suite: Suite, offset: int) -> int {
    suite.spec_seed_base() + offset
}

/// The seed of trial `offset` of `suite`: the suite's base plus the offset.
pub fn trial_seed(suite: Suite, offset: u64) -> (r: u64)
    requires
        spec_trial_seed(suite, offset as int) <= u64::MAX,
    ensures
        r == spec_trial_seed(suite, offset as int),
{
    suite.seed_base() + offset
}

/// Why a trial is listed as a replayable observation.
#[derive(Clone, Copy, Debug, PartialEq, Eq, Structural)]
pub enum FailureReason {
    NoFinalBrake,
    EmptyRoadIntervention,
    LateWarn,
    NoWarn,
    LateBrake,
    NoBrake,
}

impl FailureReason {
    /// The reason as reports print it.
    pub fn text(&self) -> (r: &'static str)
        ensures
            r@ == match self {
                FailureReason::NoFinalBrake => "no Brake in final 20 cycles"@,
                FailureReason::EmptyRoadIntervention => "Warn or Brake on empty road"@,
                FailureReason::LateWarn => "Warn response later than 3 cycles"@,
                FailureReason::NoWarn => "no Warn response at or after truth crossing"@,
                FailureReason::LateBrake => "Brake response later than 3 cycles"@,
                FailureReason::NoBrake => "no Brake response at or after truth crossing"@,
            },
    {
        match self {
            FailureReason::NoFinalBrake => "no Brake in final 20 cycles",
            FailureReason::EmptyRoadIntervention => "Warn or Brake on empty road",
            FailureReason::LateWarn => "Warn response later than 3 cycles",
            FailureReason::NoWarn => "no Warn response at or after truth crossing",
            FailureReason::LateBrake => "Brake response later than 3 cycles",
            FailureReason::NoBrake => "no Brake response at or after truth crossing",
        }
    }
}

/// One replayable observation: the suite, the seed that reproduces the
/// run, and what went wrong.
#[derive(Clone, Copy, Debug, PartialEq, Eq, Structural)]
pub struct Failure {
    pub suite: Suite,
    pub seed: u64,
    pub reason: FailureReason,
}

/// The abstract state of an evaluation in progress.
pub struct Tally {
    pub hard_runs: nat,
    pub hard_brakes: nat,
    pub hard_transitions: nat,
    pub empty_runs: nat,
    pub false_alarms: nat,
    pub cut_in_runs: nat,
    pub cut_in_transitions: nat,
    pub warn_latencies: Seq<usize>,
    pub brake_latencies: Seq<usize>,
    pub failures: Seq<Failure>,
}

/// Nothing recorded yet.
pub open spec fn empty_tally() -> Tally {
    Tally {
        hard_runs: 0,
        hard_brakes: 0,
        hard_transitions: 0,
        empty_runs: 0,
        false_alarms: 0,
        cut_in_runs: 0,
        cut_in_transitions: 0,
        warn_latencies: Seq::empty(),
        brake_latencies: Seq::empty(),
        failures: Seq::empty(),
    }
}

/// The tally after one hard-braking-lead run: it counts as a brake when
/// `Brake` appears in its final second, and is listed as a failure otherwise.
pub open spec fn after_hard_braking(t: Tally, seed: u64, run: Seq<Decision>) -> Tally {
    Tally {
        hard_runs: t.hard_runs + 1,
        hard_brakes: if spec_ends_in_brake(run) { t.hard_brakes + 1 } else { t.hard_brakes },
        hard_transitions: t.hard_transitions + spec_transitions(run),
        failures: if spec_ends_in_brake(run) {
            t.failures
        } else {
            t.failures.push(Failure { suite: Suite::HardBraking, seed, reason: FailureReason::NoFinalBrake })
        },
        ..t
    }
}

/// The tally after one empty-road run: any `Warn` or `Brake` makes it a
/// false alarm, which is also listed as a failure.
pub open spec fn after_empty_road(t: Tally, seed: u64, run: Seq<Decision>) -> Tally {
    Tally {
        empty_runs: t.empty_runs + 1,
        false_alarms: if spec_has_false_alarm(run) { t.false_alarms + 1 } else { t.false_alarms },
        failures: if spec_has_false_alarm(run) {
            t.failures.push(
                Failure { suite: Suite::EmptyRoad, seed, reason: FailureReason::EmptyRoadIntervention },
            )
        } else {
            t.failures
        },
        ..t
    }
}

/// Latency samples after one response search: a responder adds its latency;
/// a miss adds nothing.
pub open spec fn add_sample(samples: Seq<usize>, latency: Option<int>) -> Seq<usize> {
    match latency {
        Some(l) => samples.push(l as usize),
        None => samples,
    }
}

/// Failures after one response search: a miss is listed with `missing`, a
/// response later than `MAX_RESPONSE_LATENCY` with `late`.
pub open spec fn add_response_failure(
    failures: Seq<Failure>,
    seed: u64,
    latency: Option<int>,
    late: FailureReason,
    missing: FailureReason,
) -> Seq<Failure> {
    match latency {
        Some(l) => if l > MAX_RESPONSE_LATENCY as int {
            failures.push(Failure { suite: Suite::CutIn, seed, reason: late })
        } else {
            failures
        },
        None => failures.push(Failure { suite: Suite::CutIn, seed, reason: missing }),
    }
}

/// The tally after one cut-in run: the `Warn` response is searched from
/// `warn_crossing`, then the `Brake` response from `brake_crossing`.
pub open spec fn after_cut_in(
    t: Tally,
    seed: u64,
    run: Seq<Decision>,
    warn_crossing: int,
    brake_crossing: int,
) -> Tally {
    let warn = spec_latency(run, warn_crossing, Decision::Warn);
    let brake = spec_latency(run, brake_crossing, Decision::Brake);
    Tally {
        cut_in_runs: t.cut_in_runs + 1,
        cut_in_transitions: t.cut_in_transitions + spec_transitions(run),
        warn_latencies: add_sample(t.warn_latencies, warn),
        brake_latencies: add_sample(t.brake_latencies, brake),
        failures: add_response_failure(
            add_response_failure(t.failures, seed, warn, FailureReason::LateWarn, FailureReason::NoWarn),
            seed,
            brake,
            FailureReason::LateBrake,
            FailureReason::NoBrake,
        ),
        ..t
    }
}

/// An evaluation in progress: counts and latency samples of the runs
/// recorded so far, and their replayable failures, in recording order.
pub struct Evaluation {
    hard_runs: u64,
    hard_brakes: u64,
    hard_transitions: u128,
    empty_runs: u64,
    false_alarms: u64,
    cut_in_runs: u64,
    cut_in_transitions: u128,
    warn_latencies: Vec<usize>,
    brake_latencies: Vec<usize>,
    failures: Vec<Failure>,
}

impl View for Evaluation {
    type V = Tally;

    closed spec fn view(&self) -> Tally {
        Tally {
            hard_runs: self.hard_runs as nat,
            hard_brakes: self.hard_brakes as nat,
            hard_transitions: self.hard_transitions as nat,
            empty_runs: self.empty_runs as nat,
            false_alarms: self.false_alarms as nat,
            cut_in_runs: self.cut_in_runs as nat,
            cut_in_transitions: self.cut_in_transitions as nat,
            warn_latencies: self.warn_latencies@,
            brake_latencies: self.brake_latencies@,
            failures: self.failures@,
        }
    }
}

/// One more than the most transitions a single run can hold.
pub open spec fn run_transition_bound() -> int {
    0x1_0000_0000_0000_0000
}

impl Tally {
    /// Counts that an evaluation keeps consistent: each outcome count is at
    /// most its run count, and every count fits the machine integers.
    pub open spec fn well_formed(self) -> bool {
        &&& self.hard_brakes <= self.hard_runs <= u64::MAX
        &&& self.false_alarms <= self.empty_runs <= u64::MAX
        &&& self.cut_in_runs <= u64::MAX
        &&& self.warn_latencies.len() <= self.cut_in_runs
        &&& self.brake_latencies.len() <= self.cut_in_runs
        &&& self.hard_transitions <= self.hard_runs * run_transition_bound()
        &&& self.cut_in_transitions <= self.cut_in_runs * run_transition_bound()
    }
}

/// The result of an evaluation: outcome counts over `trials` runs of each
/// suite, latency medians over responders, chatter totals, and the
/// replayable failures in the order they were found.
pub struct MetricsReport {
    pub trials: u64,
    pub hard_brakes: u64,
    pub false_alarms: u64,
    pub warn_responses: usize,
    pub brake_responses: usize,
    pub warn_latency_median: Option<MedianPair>,
    pub brake_latency_median: Option<MedianPair>,
    pub hard_transitions: u128,
    pub cut_in_transitions: u128,
    pub failures: Vec<Failure>,
}

/// `r` reports tally `t` over `trials` runs per suite.
pub open spec fn reports(r: MetricsReport, t: Tally, trials: u64) -> bool {
    &&& r.trials == trials
    &&& r.hard_brakes == t.hard_brakes
    &&& r.false_alarms == t.false_alarms
    &&& r.warn_responses == t.warn_latencies.len()
    &&& r.brake_responses == t.brake_latencies.len()
    &&& r.warn_latency_median == spec_median(t.warn_latencies)
    &&& r.brake_latency_median == spec_median(t.brake_latencies)
    &&& r.hard_transitions == t.hard_transitions
    &&& r.cut_in_transitions == t.cut_in_transitions
    &&& r.failures@ == t.failures
}

impl Evaluation {
    /// An evaluation with nothing recorded.
    pub fn new() -> (e: Evaluation)
        ensures
            e@ == empty_tally(),
            e@.well_formed(),
    {
        Evaluation {
            hard_runs: 0,
            hard_brakes: 0,
            hard_transitions: 0,
            empty_runs: 0,
            false_alarms: 0,
            cut_in_runs: 0,
            cut_in_transitions: 0,
            warn_latencies: Vec::new(),
            brake_latencies: Vec::new(),
            failures: Vec::new(),
        }
    }

    /// Records one hard-braking-lead run, replayable with `seed`.
    pub fn record_hard_braking(&mut self, seed: u64, run: &[Decision])
        requires
            old(self)@.well_formed(),
            old(self)@.hard_runs < u64::MAX,
        ensures
            final(self)@ == after_hard_braking(old(self)@, seed, run@),
            final(self)@.well_formed(),
    {
        let t: usize = transitions(run);
        proof {
            assert(self.hard_transitions + t <= (self.hard_runs + 1) * run_transition_bound())
                by (nonlinear_arith)
                requires
                    self.hard_transitions <= self.hard_runs * run_transition_bound(),
                    t < run_transition_bound(),
            ;
            assert((self.hard_runs + 1) * run_transition_bound() <= u64::MAX as int * run_transition_bound())
                by (nonlinear_arith)
                requires
                    self.hard_runs < u64::MAX,
                    run_transition_bound() > 0,
            ;
        }
        self.hard_runs = self.hard_runs + 1;
        self.hard_transitions = self.hard_transitions + t as u128;
        if ends_in_brake(run) {
            self.hard_brakes = self.hard_brakes + 1;
        } else {
            self.failures.push(
                Failure { suite: Suite::HardBraking, seed, reason: FailureReason::NoFinalBrake },
            );
        }
    }

    /// Records one empty-road run, replayable with `seed`.
    pub fn record_empty_road(&mut self, seed: u64, run: &[Decision])
        requires
            old(self)@.well_formed(),
            old(self)@.empty_runs < u64::MAX,
        ensures
            final(self)@ == after_empty_road(old(self)@, seed, run@),
            final(self)@.well_formed(),
    {
        self.empty_runs = self.empty_runs + 1;
        if has_false_alarm(run) {
            self.false_alarms = self.false_alarms + 1;
            self.failures.push(
                Failure { suite: Suite::EmptyRoad, seed, reason: FailureReason::EmptyRoadIntervention },
            );
        }
    }

    /// Records one cut-in run, replayable with `seed`; `warn_crossing` and
    /// `brake_crossing` are the first cycles at which the noiseless truth
    /// crosses the warn and brake thresholds.
    pub fn record_cut_in(
        &mut self,
        seed: u64,
        run: &[Decision],
        warn_crossing: usize,
        brake_crossing: usize,
    )
        requires
            old(self)@.well_formed(),
            old(self)@.cut_in_runs < u64::MAX,
        ensures
            final(self)@ == after_cut_in(
                old(self)@,
                seed,
                run@,
                warn_crossing as int,
                brake_crossing as int,
            ),
            final(self)@.well_formed(),
    {
        let t: usize = transitions(run);
        proof {
            assert(self.cut_in_transitions + t <= (self.cut_in_runs + 1) * run_transition_bound())
                by (nonlinear_arith)
                requires
                    self.cut_in_transitions <= self.cut_in_runs * run_transition_bound(),
                    t < run_transition_bound(),
            ;
            assert((self.cut_in_runs + 1) * run_transition_bound() <= u64::MAX as int * run_transition_bound())
                by (nonlinear_arith)
                requires
                    self.cut_in_runs < u64::MAX,
                    run_transition_bound() > 0,
            ;
        }
        self.cut_in_runs = self.cut_in_runs + 1;
        self.cut_in_transitions = self.cut_in_transitions + t as u128;
        match latency_at_or_after(run, warn_crossing, Decision::Warn) {
            Some(latency) => {
                self.warn_latencies.push(latency);
                if latency > MAX_RESPONSE_LATENCY {
                    self.failures.push(
                        Failure { suite: Suite::CutIn, seed, reason: FailureReason::LateWarn },
                    );
                }
            },
            None => {
                self.failures.push(Failure { suite: Suite::CutIn, seed, reason: FailureReason::NoWarn });
            },
        }
        match latency_at_or_after(run, brake_crossing, Decision::Brake) {
            Some(latency) => {
                self.brake_latencies.push(latency);
                if latency > MAX_RESPONSE_LATENCY {
                    self.failures.push(
                        Failure { suite: Suite::CutIn, seed, reason: FailureReason::LateBrake },
                    );
                }
            },
            None => {
                self.failures.push(
                    Failure { suite: Suite::CutIn, seed, reason: FailureReason::NoBrake },
                );
            },
        }
    }

    /// The report of everything recorded, over `trials` runs per suite.
    pub fn report(self, trials: u64) -> (r: MetricsReport)
        requires
            self@.well_formed(),
        ensures
            reports(r, self@, trials),
    {
        let mut warn = self.warn_latencies;
        let mut brake = self.brake_latencies;
        let warn_responses: usize = warn.len();
        let brake_responses: usize = brake.len();
        let warn_latency_median = median(warn.as_mut_slice());
        let brake_latency_median = median(brake.as_mut_slice());
        MetricsReport {
            trials,
            hard_brakes: self.hard_brakes,
            false_alarms: self.false_alarms,
            warn_responses,
            brake_responses,
            warn_latency_median,
            brake_latency_median,
            hard_transitions: self.hard_transitions,
            cut_in_transitions: self.cut_in_transitions,
            failures: self.failures,
        }
    }
}

} // verus!

verus! {

/// The decision sequences of a batch of runs.
pub open spec fn run_views(runs: Seq<Vec<Decision>>) -> Seq<Seq<Decision>> {
    runs.map_values(|v: Vec<Decision>| v@)
}

/// The tally after the hard-braking-lead runs `runs`, trial `i` with seed
/// `HARD_SEED_BASE + i`.
pub open spec fn hard_braking_fold(t: Tally, runs: Seq<Seq<Decision>>) -> Tally
    decreases runs.len(),
{
    if runs.len() == 0 {
        t
    } else {
        after_hard_braking(
            hard_braking_fold(t, runs.drop_last()),
            spec_trial_seed(Suite::HardBraking, runs.len() - 1) as u64,
            runs.last(),
        )
    }
}

/// The tally after the empty-road runs `runs`, trial `i` with seed
/// `EMPTY_SEED_BASE + i`.
pub open spec fn empty_road_fold(t: Tally, runs: Seq<Seq<Decision>>) -> Tally
    decreases runs.len(),
{
    if runs.len() == 0 {
        t
    } else {
        after_empty_road(
            empty_road_fold(t, runs.drop_last()),
            spec_trial_seed(Suite::EmptyRoad, runs.len() - 1) as u64,
            runs.last(),
        )
    }
}

/// The tally after the cut-in runs `runs`, trial `i` with seed
/// `CUT_IN_SEED_BASE + i`.
pub open spec fn cut_in_fold(
    t: Tally,
    runs: Seq<Seq<Decision>>,
    warn_crossing: int,
    brake_crossing: int,
) -> Tally
    decreases runs.len(),
{
    if runs.len() == 0 {
        t
    } else {
        after_cut_in(
            cut_in_fold(t, runs.drop_last(), warn_crossing, brake_crossing),
            spec_trial_seed(Suite::CutIn, runs.len() - 1) as u64,
            runs.last(),
            warn_crossing,
            brake_crossing,
        )
    }
}

/// The tally of a whole evaluation: the hard-braking runs, then the
/// empty-road runs, then the cut-in runs.
pub open spec fn evaluation_tally(
    hard: Seq<Seq<Decision>>,
    empty: Seq<Seq<Decision>>,
    cut_in: Seq<Seq<Decision>>,
    warn_crossing: int,
    brake_crossing: int,
) -> Tally {
    cut_in_fold(
        empty_road_fold(hard_braking_fold(empty_tally(), hard), empty),
        cut_in,
        warn_crossing,
        brake_crossing,
    )
}

/// `runs` are `count` outputs of `run` for `suite`, trial `i` with its seed.
pub open spec fn produced_by<F: Fn(Suite, u64) -> Vec<Decision>>(
    run: F,
    suite: Suite,
    count: int,
    runs: Seq<Vec<Decision>>,
) -> bool {
    &&& runs.len() == count
    &&& forall|i: int|
        0 <= i < count ==> call_ensures(
            run,
            (suite, spec_trial_seed(suite, i) as u64),
            #[trigger] runs[i],
        )
}

/// Runs `trials` trials of each suite through `run`, which produces the
/// decisions of one seeded run of a suite, and reports the metrics. The cut-in
/// responses are searched from `warn_crossing` and `brake_crossing`.
pub fn evaluate<F: Fn(Suite, u64) -> Vec<Decision>>(
    trials: u64,
    warn_crossing: usize,
    brake_crossing: usize,
    run: F,
) -> (r: MetricsReport)
    requires
        CUT_IN_SEED_BASE as int + trials as int <= u64::MAX as int + 1,
        forall|suite: Suite, seed: u64| call_requires(run, (suite, seed)),
    ensures
        exists|hard: Seq<Vec<Decision>>, empty: Seq<Vec<Decision>>, cut_in: Seq<Vec<Decision>>|
            {
                &&& produced_by(run, Suite::HardBraking, trials as int, hard)
                &&& produced_by(run, Suite::EmptyRoad, trials as int, empty)
                &&& produced_by(run, Suite::CutIn, trials as int, cut_in)
                &&& reports(
                    r,
                    #[trigger] evaluation_tally(
                        run_views(hard),
                        run_views(empty),
                        run_views(cut_in),
                        warn_crossing as int,
                        brake_crossing as int,
                    ),
                    trials,
                )
            },
{
    let mut evaluation = Evaluation::new();
    let ghost mut hard: Seq<Vec<Decision>> = Seq::empty();
    let mut offset: u64 = 0;
    while offset < trials
        invariant
            offset <= trials,
            CUT_IN_SEED_BASE as int + trials as int <= u64::MAX as int + 1,
            forall|suite: Suite, seed: u64| call_requires(run, (suite, seed)),
            produced_by(run, Suite::HardBraking, offset as int, hard),
            evaluation@ == hard_braking_fold(empty_tally(), run_views(hard)),
            evaluation@.hard_runs == offset,
            evaluation@.empty_runs == 0,
            evaluation@.cut_in_runs == 0,
            evaluation@.well_formed(),
        decreases trials - offset,
    {
        let seed: u64 = trial_seed(Suite::HardBraking, offset);
        let decisions = run(Suite::HardBraking, seed);
        evaluation.record_hard_braking(seed, decisions.as_slice());
        proof {
            let prev = hard;
            hard = hard.push(decisions);
            assert(run_views(hard).drop_last() =~= run_views(prev));
        }
        offset = offset + 1;
    }
    let ghost after_hard = evaluation@;
    let ghost mut empty: Seq<Vec<Decision>> = Seq::empty();
    offset = 0;
    while offset < trials
        invariant
            offset <= trials,
            CUT_IN_SEED_BASE as int + trials as int <= u64::MAX as int + 1,
            forall|suite: Suite, seed: u64| call_requires(run, (suite, seed)),
            produced_by(run, Suite::HardBraking, trials as int, hard),
            produced_by(run, Suite::EmptyRoad, offset as int, empty),
            after_hard == hard_braking_fold(empty_tally(), run_views(hard)),
            evaluation@ == empty_road_fold(after_hard, run_views(empty)),
            evaluation@.empty_runs == offset,
            evaluation@.cut_in_runs == 0,
            evaluation@.well_formed(),
        decreases trials - offset,
    {
        let seed: u64 = trial_seed(Suite::EmptyRoad, offset);
        let decisions = run(Suite::EmptyRoad, seed);
        evaluation.record_empty_road(seed, decisions.as_slice());
        proof {
            let prev = empty;
            empty = empty.push(decisions);
            assert(run_views(empty).drop_last() =~= run_views(prev));
        }
        offset = offset + 1;
    }
    let ghost after_empty = evaluation@;
    let ghost mut cut_in: Seq<Vec<Decision>> = Seq::empty();
    offset = 0;
    while offset < trials
        invariant
            offset <= trials,
            CUT_IN_SEED_BASE as int + trials as int <= u64::MAX as int + 1,
            forall|suite: Suite, seed: u64| call_requires(run, (suite, seed)),
            produced_by(run, Suite::HardBraking, trials as int, hard),
            produced_by(run, Suite::EmptyRoad, trials as int, empty),
            produced_by(run, Suite::CutIn, offset as int, cut_in),
            after_empty == empty_road_fold(
                hard_braking_fold(empty_tally(), run_views(hard)),
                run_views(empty),
            ),
            evaluation@ == cut_in_fold(
                after_empty,
                run_views(cut_in),
                warn_crossing as int,
                brake_crossing as int,
            ),
            evaluation@.cut_in_runs == offset,
            evaluation@.well_formed(),
        decreases trials - offset,
    {
        let seed: u64 = trial_seed(Suite::CutIn, offset);
        let decisions = run(Suite::CutIn, seed);
        evaluation.record_cut_in(seed, decisions.as_slice(), warn_crossing, brake_crossing);
        proof {
            let prev = cut_in;
            cut_in = cut_in.push(decisions);
            assert(run_views(cut_in).drop_last() =~= run_views(prev));
        }
        offset = offset + 1;
    }
    let r = evaluation.report(trials);
    proof {
        assert(reports(
            r,
            evaluation_tally(
                run_views(hard),
                run_views(empty),
                run_views(cut_in),
                warn_crossing as int,
                brake_crossing as int,
            ),
            trials,
        ));
    }
    r
}

} // verus!

verus! {

/// Acceptance: at least this percentage of hard-braking runs end in `Brake`.
pub const MIN_HARD_BRAKE_PCT: u64 = 99;

/// Acceptance: at most this percentage of empty-road runs are false alarms.
pub const MAX_FALSE_ALARM_PCT: u64 = 2;

/// Acceptance: at least this percentage of cut-in runs respond at all.
pub const MIN_RESPONSE_COVERAGE_PCT: u64 = 95;

/// Acceptance: the median response latency is at most this many cycles.
pub const MAX_MEDIAN_LATENCY: usize = 3;

/// `count` of `trials` is at least `pct` percent, in exact arithmetic.
pub open spec fn at_least_pct(count: int, trials: int, pct: int) -> bool {
    100 * count >= pct * trials
}

/// A median is present (some run responded) and at most `MAX_MEDIAN_LATENCY`.
pub open spec fn median_within_target(m: Option<MedianPair>) -> bool {
    match m {
        Some(pair) => pair.lower + pair.upper <= 2 * MAX_MEDIAN_LATENCY,
        None => false,
    }
}

/// The acceptance targets, with every rate compared exactly as a fraction
/// of `trials`.
pub open spec fn spec_meets_targets(r: MetricsReport) -> bool {
    &&& r.trials > 0
    &&& at_least_pct(r.hard_brakes as int, r.trials as int, MIN_HARD_BRAKE_PCT as int)
    &&& 100 * r.false_alarms <= MAX_FALSE_ALARM_PCT * r.trials
    &&& at_least_pct(r.warn_responses as int, r.trials as int, MIN_RESPONSE_COVERAGE_PCT as int)
    &&& at_least_pct(r.brake_responses as int, r.trials as int, MIN_RESPONSE_COVERAGE_PCT as int)
    &&& median_within_target(r.warn_latency_median)
    &&& median_within_target(r.brake_latency_median)
}

fn median_meets_target(m: Option<MedianPair>) -> (b: bool)
    ensures
        b == median_within_target(m),
{
    match m {
        Some(pair) => pair.lower as u128 + pair.upper as u128 <= 2 * MAX_MEDIAN_LATENCY as u128,
        None => false,
    }
}

impl MetricsReport {
    /// Whether the report meets every acceptance target: with at least one
    /// trial, hard-braking runs ending in `Brake` at least 99%, empty-road
    /// false alarms at most 2%, `Warn` and `Brake` response coverage each at
    /// least 95%, and both latency medians present and at most 3 cycles.
    /// A percentage `100 * count / trials` reaches a bound exactly when
    /// `100 * count` reaches `bound * trials`.
    pub fn meets_targets(&self) -> (b: bool)
        ensures
            b == spec_meets_targets(*self),
    {
        let trials: u128 = self.trials as u128;
        proof {
            assert(forall|p: u128| p <= 100 ==> #[trigger] (p * trials) <= 100 * u64::MAX)
                by (nonlinear_arith)
                requires
                    trials <= u64::MAX,
            ;
        }
        let hard_ok = 100 * (self.hard_brakes as u128) >= MIN_HARD_BRAKE_PCT as u128 * trials;
        let false_alarm_ok = 100 * (self.false_alarms as u128) <= MAX_FALSE_ALARM_PCT as u128
            * trials;
        let warn_ok = 100 * (self.warn_responses as u128) >= MIN_RESPONSE_COVERAGE_PCT as u128
            * trials;
        let brake_ok = 100 * (self.brake_responses as u128) >= MIN_RESPONSE_COVERAGE_PCT as u128
            * trials;
        self.trials > 0 && hard_ok && false_alarm_ok && warn_ok && brake_ok && median_meets_target(
            self.warn_latency_median,
        ) && median_meets_target(self.brake_latency_median)
    }
}

} // verus!

verus! {

/// How many of `failures` have reason `reason`.
pub open spec fn count_reason(failures: Seq<Failure>, reason: FailureReason) -> nat
    decreases failures.len(),
{
    if failures.len() == 0 {
        0
    } else {
        count_reason(failures.drop_last(), reason) + if failures.last().reason == reason {
            1nat
        } else {
            0nat
        }
    }
}

proof fn lemma_count_push(failures: Seq<Failure>, f: Failure, reason: FailureReason)
    ensures
        count_reason(failures.push(f), reason) == count_reason(failures, reason) + if f.reason
            == reason {
            1nat
        } else {
            0nat
        },
{
    assert(failures.push(f).drop_last() =~= failures);
}

proof fn lemma_hard_braking_fold(t: Tally, runs: Seq<Seq<Decision>>)
    ensures
        ({
            let u = hard_braking_fold(t, runs);
            &&& u.hard_runs == t.hard_runs + runs.len()
            &&& u.hard_brakes + count_reason(u.failures, FailureReason::NoFinalBrake) == t.hard_brakes
                + count_reason(t.failures, FailureReason::NoFinalBrake) + runs.len()
            &&& forall|r: FailureReason|
                r != FailureReason::NoFinalBrake ==> #[trigger] count_reason(u.failures, r)
                    == count_reason(t.failures, r)
            &&& u.empty_runs == t.empty_runs
            &&& u.false_alarms == t.false_alarms
            &&& u.cut_in_runs == t.cut_in_runs
            &&& u.warn_latencies == t.warn_latencies
            &&& u.brake_latencies == t.brake_latencies
        }),
    decreases runs.len(),
{
    if runs.len() > 0 {
        lemma_hard_braking_fold(t, runs.drop_last());
        let prev = hard_braking_fold(t, runs.drop_last());
        let seed: u64 = spec_trial_seed(Suite::HardBraking, runs.len() - 1) as u64;
        let f = Failure { suite: Suite::HardBraking, seed, reason: FailureReason::NoFinalBrake };
        assert forall|r: FailureReason| true implies #[trigger] count_reason(
            prev.failures.push(f),
            r,
        ) == count_reason(prev.failures, r) + if f.reason == r {
            1nat
        } else {
            0nat
        } by {
            lemma_count_push(prev.failures, f, r);
        }
    }
}

proof fn lemma_empty_road_fold(t: Tally, runs: Seq<Seq<Decision>>)
    ensures
        ({
            let u = empty_road_fold(t, runs);
            &&& u.empty_runs == t.empty_runs + runs.len()
            &&& u.false_alarms == t.false_alarms + (count_reason(
                u.failures,
                FailureReason::EmptyRoadIntervention,
            ) - count_reason(t.failures, FailureReason::EmptyRoadIntervention))
            &&& count_reason(u.failures, FailureReason::EmptyRoadIntervention) >= count_reason(
                t.failures,
                FailureReason::EmptyRoadIntervention,
            )
            &&& forall|r: FailureReason|
                r != FailureReason::EmptyRoadIntervention ==> #[trigger] count_reason(u.failures, r)
                    == count_reason(t.failures, r)
            &&& u.hard_runs == t.hard_runs
            &&& u.hard_brakes == t.hard_brakes
            &&& u.cut_in_runs == t.cut_in_runs
            &&& u.warn_latencies == t.warn_latencies
            &&& u.brake_latencies == t.brake_latencies
        }),
    decreases runs.len(),
{
    if runs.len() > 0 {
        lemma_empty_road_fold(t, runs.drop_last());
        let prev = empty_road_fold(t, runs.drop_last());
        let seed: u64 = spec_trial_seed(Suite::EmptyRoad, runs.len() - 1) as u64;
        let f = Failure { suite: Suite::EmptyRoad, seed, reason: FailureReason::EmptyRoadIntervention };
        assert forall|r: FailureReason| true implies #[trigger] count_reason(
            prev.failures.push(f),
            r,
        ) == count_reason(prev.failures, r) + if f.reason == r {
            1nat
        } else {
            0nat
        } by {
            lemma_count_push(prev.failures, f, r);
        }
    }
}

/// A response that came, but later than `MAX_RESPONSE_LATENCY` cycles.
pub open spec fn is_late(latency: Option<int>) -> bool {
    match latency {
        Some(l) => l > MAX_RESPONSE_LATENCY as int,
        None => false,
    }
}

proof fn lemma_response_failure(
    failures: Seq<Failure>,
    seed: u64,
    latency: Option<int>,
    late: FailureReason,
    missing: FailureReason,
    r: FailureReason,
)
    requires
        late != missing,
    ensures
        count_reason(add_response_failure(failures, seed, latency, late, missing), r) == count_reason(
            failures,
            r,
        ) + if r == missing && latency is None {
            1nat
        } else if r == late && is_late(latency) {
            1nat
        } else {
            0nat
        },
{
    match latency {
        Some(l) => if l > MAX_RESPONSE_LATENCY as int {
            lemma_count_push(failures, Failure { suite: Suite::CutIn, seed, reason: late }, r);
        },
        None => {
            lemma_count_push(failures, Failure { suite: Suite::CutIn, seed, reason: missing }, r);
        },
    }
}

proof fn lemma_cut_in_fold(t: Tally, runs: Seq<Seq<Decision>>, warn_crossing: int, brake_crossing: int)
    ensures
        ({
            let u = cut_in_fold(t, runs, warn_crossing, brake_crossing);
            &&& u.cut_in_runs == t.cut_in_runs + runs.len()
            &&& u.warn_latencies.len() + count_reason(u.failures, FailureReason::NoWarn)
                == t.warn_latencies.len() + count_reason(t.failures, FailureReason::NoWarn)
                + runs.len()
            &&& u.brake_latencies.len() + count_reason(u.failures, FailureReason::NoBrake)
                == t.brake_latencies.len() + count_reason(t.failures, FailureReason::NoBrake)
                + runs.len()
            &&& count_reason(u.failures, FailureReason::NoFinalBrake) == count_reason(
                t.failures,
                FailureReason::NoFinalBrake,
            )
            &&& count_reason(u.failures, FailureReason::EmptyRoadIntervention) == count_reason(
                t.failures,
                FailureReason::EmptyRoadIntervention,
            )
            &&& u.hard_runs == t.hard_runs
            &&& u.hard_brakes == t.hard_brakes
            &&& u.empty_runs == t.empty_runs
            &&& u.false_alarms == t.false_alarms
        }),
    decreases runs.len(),
{
    if runs.len() > 0 {
        lemma_cut_in_fold(t, runs.drop_last(), warn_crossing, brake_crossing);
        let prev = cut_in_fold(t, runs.drop_last(), warn_crossing, brake_crossing);
        let seed: u64 = spec_trial_seed(Suite::CutIn, runs.len() - 1) as u64;
        let run = runs.last();
        let warn = spec_latency(run, warn_crossing, Decision::Warn);
        let brake = spec_latency(run, brake_crossing, Decision::Brake);
        let mid = add_response_failure(prev.failures, seed, warn, FailureReason::LateWarn, FailureReason::NoWarn);
        assert forall|r: FailureReason| true implies #[trigger] count_reason(
            add_response_failure(mid, seed, brake, FailureReason::LateBrake, FailureReason::NoBrake),
            r,
        ) == count_reason(prev.failures, r) + (if r == FailureReason::NoWarn && warn is None {
            1nat
        } else if r == FailureReason::LateWarn && is_late(warn) {
            1nat
        } else {
            0nat
        }) + (if r == FailureReason::NoBrake && brake is None {
            1nat
        } else if r == FailureReason::LateBrake && is_late(brake) {
            1nat
        } else {
            0nat
        }) by {
            lemma_response_failure(prev.failures, seed, warn, FailureReason::LateWarn, FailureReason::NoWarn, r);
            lemma_response_failure(mid, seed, brake, FailureReason::LateBrake, FailureReason::NoBrake, r);
        }
        let u = cut_in_fold(t, runs, warn_crossing, brake_crossing);
        assert(count_reason(u.failures, FailureReason::NoWarn) == count_reason(prev.failures, FailureReason::NoWarn) + if warn is None { 1nat } else { 0nat });
        assert(count_reason(u.failures, FailureReason::NoBrake) == count_reason(prev.failures, FailureReason::NoBrake) + if brake is None { 1nat } else { 0nat });
        assert(count_reason(u.failures, FailureReason::NoFinalBrake) == count_reason(prev.failures, FailureReason::NoFinalBrake));
        assert(count_reason(u.failures, FailureReason::EmptyRoadIntervention) == count_reason(prev.failures, FailureReason::EmptyRoadIntervention));
    }
}

/// Every trial is accounted for: each hard-braking run either ends in
/// `Brake` or is listed as a failure; each empty-road false alarm is listed;
/// and each cut-in run either contributes a latency sample or is listed as a
/// miss, once for `Warn` and once for `Brake`. A miss thus lowers the
/// response coverage and adds no latency sample.
pub proof fn evaluation_accounts_for_every_trial(
    hard: Seq<Seq<Decision>>,
    empty: Seq<Seq<Decision>>,
    cut_in: Seq<Seq<Decision>>,
    warn_crossing: int,
    brake_crossing: int,
)
    ensures
        ({
            let t = evaluation_tally(hard, empty, cut_in, warn_crossing, brake_crossing);
            &&& t.hard_runs == hard.len()
            &&& t.empty_runs == empty.len()
            &&& t.cut_in_runs == cut_in.len()
            &&& t.hard_brakes + count_reason(t.failures, FailureReason::NoFinalBrake) == hard.len()
            &&& t.false_alarms == count_reason(t.failures, FailureReason::EmptyRoadIntervention)
            &&& t.warn_latencies.len() + count_reason(t.failures, FailureReason::NoWarn)
                == cut_in.len()
            &&& t.brake_latencies.len() + count_reason(t.failures, FailureReason::NoBrake)
                == cut_in.len()
        }),
{
    let t0 = empty_tally();
    lemma_hard_braking_fold(t0, hard);
    let t1 = hard_braking_fold(t0, hard);
    lemma_empty_road_fold(t1, empty);
    let t2 = empty_road_fold(t1, empty);
    lemma_cut_in_fold(t2, cut_in, warn_crossing, brake_crossing);
    assert(count_reason(t1.failures, FailureReason::EmptyRoadIntervention) == 0);
    assert(count_reason(t2.failures, FailureReason::NoWarn) == 0);
    assert(count_reason(t2.failures, FailureReason::NoBrake) == 0);
}

} // verus!

verus! {

/// A report meets the targets exactly when it covers at least one trial,
/// at least 99% of hard-braking runs end in `Brake`, at most 2% of
/// empty-road runs are false alarms, at least 95% of cut-in runs respond
/// with `Warn` and, separately, at least 95% respond with `Brake`, and both
/// latency medians exist and are at most 3 cycles (their middle pairs sum
/// to at most 6).
pub proof fn targets_are_the_acceptance_table(r: MetricsReport)
    ensures
        spec_meets_targets(r) <==> {
            &&& r.trials > 0
            &&& 100 * r.hard_brakes >= 99 * r.trials
            &&& 100 * r.false_alarms <= 2 * r.trials
            &&& 100 * r.warn_responses >= 95 * r.trials
            &&& 100 * r.brake_responses >= 95 * r.trials
            &&& r.warn_latency_median is Some
            &&& r.warn_latency_median.unwrap().lower + r.warn_latency_median.unwrap().upper <= 6
            &&& r.brake_latency_median is Some
            &&& r.brake_latency_median.unwrap().lower + r.brake_latency_median.unwrap().upper <= 6
        },
{
}

} // verus!
