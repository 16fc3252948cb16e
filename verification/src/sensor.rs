use vstd::prelude::*;
use rand::Rng;
use rand::rngs::StdRng;

verus! {

/// Which perception channel produced a report. Both observe the same world;
/// their noise, dropouts, and spurious detections differ and are
/// decorrelated.
#[derive(Clone, Copy, Debug, PartialEq, Eq, Structural)]
pub enum Sensor {
    Radar,
    Camera,
}

/// How many of `sensors` are `which`.
pub open spec fn count_from(sensors: Seq<Sensor>, which: Sensor) -> nat
    decreases sensors.len(),
{
    if sensors.len() == 0 {
        0
    } else {
        count_from(sensors.drop_last(), which) + if sensors.last() == which {
            1nat
        } else {
            0nat
        }
    }
}

/// How many reports of one cycle came from each channel, given each
/// report's channel: `(radar, camera)`.
pub fn channel_counts(sensors: &[Sensor]) -> (r: (usize, usize))
    ensures
        r.0 == count_from(sensors@, Sensor::Radar),
        r.1 == count_from(sensors@, Sensor::Camera),
        r.0 + r.1 == sensors@.len(),
{
    let mut radar: usize = 0;
    let mut i: usize = 0;
    while i < sensors.len()
        invariant
            i <= sensors@.len(),
            radar == count_from(sensors@.take(i as int), Sensor::Radar),
            i - radar == count_from(sensors@.take(i as int), Sensor::Camera),
            radar <= i,
        decreases sensors@.len() - i,
    {
        proof {
            assert(sensors@.take(i + 1).drop_last() =~= sensors@.take(i as int));
        }
        if sensors[i] == Sensor::Radar {
            radar += 1;
        }
        i += 1;
    }
    proof {
        assert(sensors@.take(i as int) =~= sensors@);
    }
    (radar, sensors.len() - radar)
}

#[verifier::external_type_specification]
#[verifier::external_body]
pub struct ExStdRng(rand::rngs::StdRng);

/// `rand::Rng::gen_range` on an inclusive `u32` range of `rand::rngs::StdRng`:
/// rand samples uniformly from `low..=high` and panics on an empty range.
/// Claimed: the result lies in `low..=high`. Which value comes is chance.
#[verifier::external_body]
fn gen_range_inclusive(rng: &mut StdRng, low: u32, high: u32) -> (r: u32)
    requires
        low <= high,
    ensures
        low <= r <= high,
{
    rng.gen_range(low..=high)
}

/// A dropout lasts between 1 and this many cycles.
pub const MAX_DROPOUT_CYCLES: u32 = 3;

/// A ghost track lives between 1 and this many cycles.
pub const MAX_GHOST_LIFE: u32 = 2;

/// Track ids run from 1 to this; ghosts draw from the same ids.
pub const MAX_TRACK_ID: u32 = 8;

/// The length of a dropout, should one start: 1 to 3 cycles.
pub fn roll_dropout_length(rng: &mut StdRng) -> (len: u32)
    ensures
        1 <= len <= MAX_DROPOUT_CYCLES,
{
    gen_range_inclusive(rng, 1, MAX_DROPOUT_CYCLES)
}

/// The id of a new ghost track: 1 to 8, the id space real tracks use, so
/// no id tells a ghost from a real object.
pub fn roll_ghost_id(rng: &mut StdRng) -> (id: u32)
    ensures
        1 <= id <= MAX_TRACK_ID,
{
    gen_range_inclusive(rng, 1, MAX_TRACK_ID)
}

/// The life of a new ghost track: 1 or 2 cycles.
pub fn roll_ghost_life(rng: &mut StdRng) -> (life: u32)
    ensures
        1 <= life <= MAX_GHOST_LIFE,
{
    gen_range_inclusive(rng, 1, MAX_GHOST_LIFE)
}

} // verus!
