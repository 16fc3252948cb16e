use vstd::prelude::*;

verus! {

/// One sensor channel's view of one true track across cycles: visible, or
/// hidden with `left` more hidden cycles of the current dropout to come.
#[derive(Clone, Copy, Debug, PartialEq, Eq, Structural)]
pub struct Dropout {
    pub left: u32,
    pub visible: bool,
}

/// The channel state after one cycle: a dropout in progress continues; else
/// a dropout of `len` cycles starts when `start` rolled true; else the track
/// is visible.
pub open spec fn spec_advance(d: Dropout, start: bool, len: u32) -> Dropout {
    if d.left > 0 {
        Dropout { left: (d.left - 1) as u32, visible: false }
    } else if start {
        Dropout { left: (len - 1) as u32, visible: false }
    } else {
        Dropout { left: 0, visible: true }
    }
}

/// The channel state after one cycle per roll in `rolls`, each a dropout-start
/// flag and a dropout length.
pub open spec fn after_cycles(d: Dropout, rolls: Seq<(bool, u32)>) -> Dropout
    decreases rolls.len(),
{
    if rolls.len() == 0 {
        d
    } else {
        spec_advance(after_cycles(d, rolls.drop_last()), rolls.last().0, rolls.last().1)
    }
}

/// The state of a dropout of `len` cycles begun this cycle.
pub open spec fn started(len: u32) -> Dropout {
    Dropout { left: (len - 1) as u32, visible: false }
}

impl Dropout {
    /// A track that the channel sees.
    pub fn new() -> (d: Dropout)
        ensures
            d == (Dropout { left: 0, visible: true }),
    {
        Dropout { left: 0, visible: true }
    }

    /// Begins a dropout of `len` cycles: the start cycle is the first hidden
    /// cycle, so `len` hides the track for exactly `len` cycles.
    pub fn start(&mut self, len: u32)
        requires
            len >= 1,
        ensures
            *final(self) == started(len),
    {
        self.left = len - 1;
        self.visible = false;
    }

    /// Moves the channel one cycle on, given this cycle's rolls: whether a
    /// dropout starts, and how many cycles it would last.
    pub fn advance(&mut self, start: bool, len: u32)
        requires
            old(self).left == 0 && start ==> len >= 1,
        ensures
            *final(self) == spec_advance(*old(self), start, len),
    {
        if self.left > 0 {
            self.left = self.left - 1;
            self.visible = false;
        } else if start {
            self.start(len);
        } else {
            self.visible = true;
        }
    }
}

proof fn lemma_counting_down(d: Dropout, rolls: Seq<(bool, u32)>, i: int)
    requires
        0 <= i <= d.left,
        i <= rolls.len(),
    ensures
        after_cycles(d, rolls.take(i)).left == d.left - i,
        i > 0 ==> !after_cycles(d, rolls.take(i)).visible,
    decreases i,
{
    if i > 0 {
        lemma_counting_down(d, rolls, i - 1);
        assert(rolls.take(i).drop_last() =~= rolls.take(i - 1));
    }
}

/// A dropout in progress with `d.left` hidden cycles to come hides the track
/// for exactly those cycles, whatever is rolled meanwhile; the cycle after,
/// the track is visible again unless a new dropout starts right then.
pub proof fn dropout_in_progress_hides_exactly_its_remaining_cycles(
    d: Dropout,
    rolls: Seq<(bool, u32)>,
)
    requires
        rolls.len() > d.left,
        !rolls[d.left as int].0,
    ensures
        forall|i: int| 0 < i <= d.left ==> !#[trigger] after_cycles(d, rolls.take(i)).visible,
        after_cycles(d, rolls.take(d.left + 1)).visible,
{
    assert forall|i: int| 0 < i <= d.left implies !#[trigger] after_cycles(
        d,
        rolls.take(i),
    ).visible by {
        lemma_counting_down(d, rolls, i);
    }
    lemma_counting_down(d, rolls, d.left as int);
    let k: int = d.left as int;
    assert(rolls.take(k + 1).drop_last() =~= rolls.take(k));
    assert(rolls.take(k + 1).last() == rolls[k]);
}

/// A dropout requested with length `len` hides the track for exactly `len`
/// cycles: the cycle it starts in and the `len - 1` after it. The track shows
/// again on the next cycle unless a new dropout starts right then.
pub proof fn requested_dropout_hides_exactly_its_length(len: u32, rolls: Seq<(bool, u32)>)
    requires
        len >= 1,
        rolls.len() >= len,
        !rolls[len - 1].0,
    ensures
        !started(len).visible,
        forall|i: int| 0 < i < len ==> !#[trigger] after_cycles(started(len), rolls.take(i)).visible,
        after_cycles(started(len), rolls.take(len as int)).visible,
{
    dropout_in_progress_hides_exactly_its_remaining_cycles(started(len), rolls);
}

} // verus!

verus! {

/// Something observable for a limited number of cycles: `life_left` more
/// observations to come.
pub struct Lived<T> {
    pub item: T,
    pub life_left: u32,
}

/// What survives one aging step, in order: each entry loses one cycle of
/// life, and those left with none are gone.
pub open spec fn survivors<T>(s: Seq<Lived<T>>) -> Seq<Lived<T>>
    decreases s.len(),
{
    if s.len() == 0 {
        Seq::empty()
    } else {
        let rest = survivors(s.drop_last());
        let last = s.last();
        if last.life_left > 1 {
            rest.push(Lived { item: last.item, life_left: (last.life_left - 1) as u32 })
        } else {
            rest
        }
    }
}

/// Ages observed entries by one cycle: each loses one cycle of life
/// (never below zero) and those left with none are dropped, keeping the
/// order of the rest. Aging after each observation makes a life of N
/// observable for exactly N cycles.
pub fn age<T>(entries: Vec<Lived<T>>) -> (r: Vec<Lived<T>>)
    ensures
        r@ == survivors(entries@),
{
    let ghost all = entries@;
    let mut out: Vec<Lived<T>> = Vec::new();
    for entry in it: entries.into_iter()
        invariant
            it.seq() == all,
            out@ == survivors(all.take(it.index() as int)),
    {
        proof {
            assert(all.take(it.index() + 1).drop_last() =~= all.take(it.index() as int));
        }
        let life: u32 = entry.life_left.saturating_sub(1);
        if life > 0 {
            out.push(Lived { item: entry.item, life_left: life });
        }
    }
    proof {
        assert(all.take(all.len() as int) =~= all);
    }
    out
}

} // verus!

verus! {

/// The entries left after `k` aging steps.
pub open spec fn aged<T>(s: Seq<Lived<T>>, k: nat) -> Seq<Lived<T>>
    decreases k,
{
    if k == 0 {
        s
    } else {
        survivors(aged(s, (k - 1) as nat))
    }
}

/// An entry with a life of `n` cycles is observable for exactly `n` cycles:
/// after `k` aging steps it is still there, with `n - k` cycles left,
/// exactly when `k < n`.
pub proof fn life_n_is_observable_exactly_n_cycles<T>(item: T, n: u32, k: nat)
    requires
        n >= 1,
    ensures
        k < n ==> aged(seq![Lived { item, life_left: n }], k) == seq![
            Lived { item, life_left: (n - k) as u32 },
        ],
        k >= n ==> aged(seq![Lived { item, life_left: n }], k).len() == 0,
    decreases k,
{
    let s = seq![Lived { item, life_left: n }];
    if k > 0 {
        life_n_is_observable_exactly_n_cycles(item, n, (k - 1) as nat);
        let prev = aged(s, (k - 1) as nat);
        if k - 1 < n {
            let e = Lived { item, life_left: (n - (k - 1)) as u32 };
            assert(prev == seq![e]);
            assert(seq![e].drop_last() =~= Seq::<Lived<T>>::empty());
            assert(seq![e].last() == e);
            assert(survivors(Seq::<Lived<T>>::empty()) == Seq::<Lived<T>>::empty());
            if k < n {
                assert(survivors(seq![e]) =~= seq![Lived { item, life_left: (n - k) as u32 }]);
            } else {
                assert(survivors(seq![e]).len() == 0);
            }
        } else {
            assert(prev.len() == 0);
            assert(survivors(prev) =~= Seq::<Lived<T>>::empty());
        }
    }
}

} // verus!

verus! {

/// The entries of `s` that outlive `k` cycles, in order, each with `k`
/// cycles less to live.
pub open spec fn outliving<T>(s: Seq<Lived<T>>, k: nat) -> Seq<Lived<T>>
    decreases s.len(),
{
    if s.len() == 0 {
        Seq::empty()
    } else {
        let rest = outliving(s.drop_last(), k);
        let last = s.last();
        if last.life_left > k {
            rest.push(Lived { item: last.item, life_left: (last.life_left - k) as u32 })
        } else {
            rest
        }
    }
}

proof fn lemma_survivors_step<T>(s: Seq<Lived<T>>, k: nat)
    ensures
        survivors(outliving(s, k)) == outliving(s, k + 1),
    decreases s.len(),
{
    if s.len() > 0 {
        lemma_survivors_step(s.drop_last(), k);
        let rest = outliving(s.drop_last(), k);
        let last = s.last();
        if last.life_left > k {
            let e = Lived { item: last.item, life_left: (last.life_left - k) as u32 };
            assert(rest.push(e).drop_last() =~= rest);
            assert(rest.push(e).last() == e);
        }
    }
}

/// Aging `k >= 1` times leaves exactly the entries that had more than `k`
/// cycles of life, in their order, each with `k` cycles less to
/// live.
pub proof fn aging_keeps_exactly_the_entries_that_outlive_it<T>(s: Seq<Lived<T>>, k: nat)
    requires
        k >= 1,
    ensures
        aged(s, k) == outliving(s, k),
    decreases k,
{
    if k == 1 {
        assert(aged(s, 0) == s);
        lemma_survivors_step_from_start(s);
    } else {
        aging_keeps_exactly_the_entries_that_outlive_it(s, (k - 1) as nat);
        lemma_survivors_step(s, (k - 1) as nat);
    }
}

proof fn lemma_survivors_step_from_start<T>(s: Seq<Lived<T>>)
    ensures
        survivors(s) == outliving(s, 1),
    decreases s.len(),
{
    if s.len() > 0 {
        lemma_survivors_step_from_start(s.drop_last());
    }
}

} // verus!
