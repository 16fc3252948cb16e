use vstd::prelude::*;
use crate::decision::Decision;
use vstd::relations::{sorted_by, total_ordering};
use vstd::seq_lib::lemma_sorted_unique;

verus! {

/// A run "ends in `Brake`" when `Brake` appears within this many final
/// cycles (one second at 20 Hz).
pub const FINAL_BRAKE_WINDOW: usize = 20;

/// First index of the final-brake window of a run of `len` cycles.
pub open spec fn final_window_start(len: int) -> int {
    if len > FINAL_BRAKE_WINDOW as int {
        len - FINAL_BRAKE_WINDOW as int
    } else {
        0
    }
}

/// `Brake` appears within the final `FINAL_BRAKE_WINDOW` cycles of `run`.
pub open spec fn spec_ends_in_brake(run: Seq<Decision>) -> bool {
    exists|i: int| final_window_start(run.len() as int) <= i < run.len() && run[i] == Decision::Brake
}

/// Some cycle of `run` is a `Warn` or a `Brake`.
pub open spec fn spec_has_false_alarm(run: Seq<Decision>) -> bool {
    exists|i: int| 0 <= i < run.len() && (#[trigger] run[i]).at_least(Decision::Warn)
}

/// The first cycle at or after `crossing` whose decision is at least as
/// severe as `required`, counted from `crossing`; `None` when no cycle from
/// `crossing` on reaches it.
pub open spec fn spec_latency(run: Seq<Decision>, crossing: int, required: Decision) -> Option<int> {
    if exists|i: int| crossing <= i < run.len() && (#[trigger] run[i]).at_least(required) {
        let first = choose|i: int|
            crossing <= i < run.len() && (#[trigger] run[i]).at_least(required) && forall|j: int|
                crossing <= j < i ==> !(#[trigger] run[j]).at_least(required);
        Some(first - crossing)
    } else {
        None
    }
}

/// Number of adjacent cycle pairs of `run` whose decisions differ.
pub open spec fn spec_transitions(run: Seq<Decision>) -> nat
    decreases run.len(),
{
    if run.len() < 2 {
        0
    } else {
        let rest = spec_transitions(run.drop_last());
        if run[run.len() - 2] != run[run.len() - 1] {
            rest + 1
        } else {
            rest
        }
    }
}

/// Whether `Brake` appears within the final `FINAL_BRAKE_WINDOW` cycles of
/// the run (all of it, when it is shorter than the window).
pub fn ends_in_brake(decisions: &[Decision]) -> (r: bool)
    ensures
        r == spec_ends_in_brake(decisions@),
{
    let len: usize = decisions.len();
    let start: usize = len.saturating_sub(FINAL_BRAKE_WINDOW);
    let mut i: usize = start;
    while i < len
        invariant
            len == decisions@.len(),
            start == final_window_start(len as int),
            start <= i <= len,
            forall|j: int| start <= j < i ==> decisions@[j] != Decision::Brake,
        decreases len - i,
    {
        if decisions[i] == Decision::Brake {
            return true;
        }
        i += 1;
    }
    false
}

/// Whether any cycle of the run is a `Warn` or a `Brake`: on an empty road,
/// one such cycle makes the run a false alarm.
pub fn has_false_alarm(decisions: &[Decision]) -> (r: bool)
    ensures
        r == spec_has_false_alarm(decisions@),
{
    let mut i: usize = 0;
    while i < decisions.len()
        invariant
            i <= decisions@.len(),
            forall|j: int| 0 <= j < i ==> !(#[trigger] decisions@[j]).at_least(Decision::Warn),
        decreases decisions@.len() - i,
    {
        if decisions[i].is_at_least(Decision::Warn) {
            return true;
        }
        i += 1;
    }
    false
}

/// Cycles from `crossing` to the first decision at or after it that is at
/// least as severe as `required`; `None` when the run never responds from
/// `crossing` on. Decisions before `crossing` do not count.
pub fn latency_at_or_after(decisions: &[Decision], crossing: usize, required: Decision) -> (r:
    Option<usize>)
    ensures
        match r {
            Some(l) => spec_latency(decisions@, crossing as int, required) == Some(l as int),
            None => spec_latency(decisions@, crossing as int, required) is None,
        },
{
    let mut i: usize = crossing;
    while i < decisions.len()
        invariant
            crossing <= i,
            forall|j: int| crossing <= j < i ==> !(#[trigger] decisions@[j]).at_least(required),
        decreases decisions@.len() - i,
    {
        if decisions[i].is_at_least(required) {
            proof {
                let run = decisions@;
                let first = choose|k: int|
                    crossing <= k < run.len() && (#[trigger] run[k]).at_least(required) && forall|
                        j: int,
                    | crossing <= j < k ==> !(#[trigger] run[j]).at_least(required);
                assert(crossing <= i < run.len() && run[i as int].at_least(required) && forall|
                    j: int,
                | crossing <= j < i ==> !(#[trigger] run[j]).at_least(required));
                if first < i {
                    assert(!run[first].at_least(required));
                } else if first > i {
                    assert(!run[i as int].at_least(required));
                }
            }
            return Some(i - crossing);
        }
        i += 1;
    }
    None
}

/// Number of adjacent cycle pairs whose decisions differ: the run's chatter.
pub fn transitions(decisions: &[Decision]) -> (r: usize)
    ensures
        r == spec_transitions(decisions@),
{
    let len: usize = decisions.len();
    if len < 2 {
        return 0;
    }
    let mut count: usize = 0;
    let mut i: usize = 1;
    while i < len
        invariant
            len == decisions@.len(),
            1 <= i <= len,
            count <= i,
            count == spec_transitions(decisions@.take(i as int)),
        decreases len - i,
    {
        proof {
            let next = decisions@.take(i + 1);
            assert(next.drop_last() =~= decisions@.take(i as int));
        }
        if decisions[i - 1] != decisions[i] {
            count += 1;
        }
        i += 1;
    }
    proof {
        assert(decisions@.take(len as int) =~= decisions@);
    }
    count
}

} // verus!

verus! {

broadcast use vstd::seq_lib::group_to_multiset_ensures;

/// The order in which latency samples are sorted.
pub open spec fn usize_leq() -> spec_fn(usize, usize) -> bool {
    |a: usize, b: usize| a <= b
}

/// The two middle values of a sample: for an odd count both are the middle
/// sample; for an even count they are the two samples either side of the
/// middle. The median itself is their mean, `(lower + upper) / 2`.
#[derive(Clone, Copy, Debug, PartialEq, Eq, Structural)]
pub struct MedianPair {
    pub lower: usize,
    pub upper: usize,
}

/// The middle pair of a sorted sample; `None` for an empty one.
pub open spec fn spec_middle_pair(sorted: Seq<usize>) -> Option<MedianPair> {
    if sorted.len() == 0 {
        None
    } else {
        let middle: int = (sorted.len() / 2) as int;
        if sorted.len() % 2 == 0 {
            Some(MedianPair { lower: sorted[middle - 1], upper: sorted[middle as int] })
        } else {
            Some(MedianPair { lower: sorted[middle as int], upper: sorted[middle as int] })
        }
    }
}

/// The middle pair of a sample in any order: that of its ascending sort.
pub open spec fn spec_median(values: Seq<usize>) -> Option<MedianPair> {
    spec_middle_pair(values.sort_by(usize_leq()))
}

/// `slice::sort_unstable` on `usize`s: std documents that it sorts the
/// slice ascending; as a sort it keeps the same elements. Nothing more is
/// claimed of it.
#[verifier::external_body]
fn sort_ascending(values: &mut [usize])
    ensures
        sorted_by(final(values)@, usize_leq()),
        final(values)@.to_multiset() == old(values)@.to_multiset(),
{
    values.sort_unstable();
}

proof fn lemma_usize_leq_total()
    ensures
        total_ordering(usize_leq()),
{
}

/// The median of latency samples, as its middle pair; `None` when there are
/// no samples (no responders). Sorts `values` ascending in place.
pub fn median(values: &mut [usize]) -> (r: Option<MedianPair>)
    ensures
        final(values)@ == old(values)@.sort_by(usize_leq()),
        r == spec_median(old(values)@),
{
    if values.len() == 0 {
        proof {
            lemma_usize_leq_total();
            old(values)@.lemma_sort_by_ensures(usize_leq());
            assert(old(values)@.to_multiset().len() == 0);
            assert(old(values)@.sort_by(usize_leq()).to_multiset().len() == 0);
            assert(old(values)@.sort_by(usize_leq()) =~= old(values)@);
        }
        return None;
    }
    sort_ascending(values);
    proof {
        assert(values@.to_multiset().len() == old(values)@.to_multiset().len());
        lemma_usize_leq_total();
        old(values)@.lemma_sort_by_ensures(usize_leq());
        lemma_sorted_unique(values@, old(values)@.sort_by(usize_leq()), usize_leq());
    }
    let middle: usize = values.len() / 2;
    if values.len() % 2 == 0 {
        Some(MedianPair { lower: values[middle - 1], upper: values[middle] })
    } else {
        Some(MedianPair { lower: values[middle], upper: values[middle] })
    }
}

} // verus!

verus! {

/// Reordering latency samples does not change their median.
pub proof fn median_ignores_order(a: Seq<usize>, b: Seq<usize>)
    requires
        a.to_multiset() == b.to_multiset(),
    ensures
        spec_median(a) == spec_median(b),
{
    lemma_usize_leq_total();
    a.lemma_sort_by_ensures(usize_leq());
    b.lemma_sort_by_ensures(usize_leq());
    lemma_sorted_unique(a.sort_by(usize_leq()), b.sort_by(usize_leq()), usize_leq());
}

} // verus!

verus! {

/// The cycles `i` of `run` whose decision differs from the one before.
pub open spec fn change_points(run: Seq<Decision>) -> Set<int> {
    Set::new(|i: int| 1 <= i < run.len() && run[i - 1] != run[i])
}

/// A run's chatter counts every change between adjacent cycles, whichever
/// way it goes (up in severity or down): it is the number of cycles `i`
/// with `run[i - 1] != run[i]`.
pub proof fn transitions_count_every_change(run: Seq<Decision>)
    ensures
        change_points(run).finite(),
        spec_transitions(run) == change_points(run).len(),
    decreases run.len(),
{
    if run.len() < 2 {
        assert(change_points(run) =~= Set::<int>::empty());
    } else {
        let prev = run.drop_last();
        transitions_count_every_change(prev);
        let n = run.len() - 1;
        if run[n - 1] != run[n] {
            assert(change_points(run) =~= change_points(prev).insert(n));
            assert(!change_points(prev).contains(n));
        } else {
            assert(change_points(run) =~= change_points(prev));
        }
    }
}

/// Any `Warn` or `Brake` anywhere in a run makes it a false alarm, and a
/// run is no false alarm only when every cycle is `NoAction`.
pub proof fn any_intervention_is_a_false_alarm(run: Seq<Decision>)
    ensures
        forall|i: int|
            0 <= i < run.len() && (run[i] == Decision::Warn || run[i] == Decision::Brake)
                ==> spec_has_false_alarm(run),
        !spec_has_false_alarm(run) <==> forall|i: int|
            0 <= i < run.len() ==> run[i] == Decision::NoAction,
{
    assert forall|i: int|
        0 <= i < run.len() && (run[i] == Decision::Warn || run[i] == Decision::Brake) implies spec_has_false_alarm(
        run,
    ) by {
        assert(run[i].at_least(Decision::Warn));
    }
    if !spec_has_false_alarm(run) {
        assert forall|i: int| 0 <= i < run.len() implies run[i] == Decision::NoAction by {
            if run[i] != Decision::NoAction {
                assert(run[i].at_least(Decision::Warn));
            }
        }
    }
}

/// The latency is measured to the first cycle at or after the crossing
/// whose decision ranks at least as severe as required, however far from
/// the crossing it lies; there is no latency only when no cycle from the
/// crossing on reaches the required severity.
pub proof fn latency_reaches_the_first_response(run: Seq<Decision>, crossing: int, required: Decision)
    ensures
        forall|i0: int|
            crossing <= i0 < run.len() && run[i0].rank() >= required.rank() && (forall|j: int|
                crossing <= j < i0 ==> run[j].rank() < required.rank()) ==> spec_latency(
                run,
                crossing,
                required,
            ) == Some(i0 - crossing),
        spec_latency(run, crossing, required) is None <==> forall|i: int|
            crossing <= i < run.len() ==> run[i].rank() < required.rank(),
{
    assert forall|i0: int|
        crossing <= i0 < run.len() && run[i0].rank() >= required.rank() && (forall|j: int|
            crossing <= j < i0 ==> run[j].rank() < required.rank()) implies spec_latency(
        run,
        crossing,
        required,
    ) == Some(i0 - crossing) by {
        assert(run[i0].at_least(required));
        assert(forall|j: int| crossing <= j < i0 ==> !(#[trigger] run[j]).at_least(required));
        let first = choose|i: int|
            crossing <= i < run.len() && (#[trigger] run[i]).at_least(required) && forall|j: int|
                crossing <= j < i ==> !(#[trigger] run[j]).at_least(required);
        if first < i0 {
            assert(!run[first].at_least(required));
        } else if first > i0 {
            assert(!run[i0].at_least(required));
        }
    }
    if spec_latency(run, crossing, required) is None {
        assert forall|i: int| crossing <= i < run.len() implies run[i].rank() < required.rank() by {
            if run[i].rank() >= required.rank() {
                assert(run[i].at_least(required));
            }
        }
    } else {
        if forall|i: int| crossing <= i < run.len() ==> run[i].rank() < required.rank() {
            assert(!exists|i: int| crossing <= i < run.len() && (#[trigger] run[i]).at_least(required));
        }
    }
}

} // verus!
