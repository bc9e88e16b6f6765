use vstd::prelude::*;

use crate::error::Atrac3Error;
use crate::sound_unit::{GainBand, GainPoint};

verus! {

pub const GAIN_HISTORY_SLOTS: usize = 32;
pub const GAIN_CURVE_SLOTS: usize = 64;
pub const GAIN_CURVE_SAMPLES: usize = 256;
pub const WINDOW_EDGE_ZERO_SAMPLES: usize = 32;
pub const UNITY_GAIN_LEVEL_CODE: u8 = 4;
pub const GAIN_LEVEL_CODE_COUNT: usize = 16;
pub const GAIN_LEVEL_EXPONENTS: [i32; 16] = [-6, -5, -4, -3, -2, -1, 0, 1, 2, 3, 4, 5, 6, 7, 8, 9];

#[derive(Debug, Clone, Copy, PartialEq, Eq, Structural)]
pub enum DecoderWindowKind {
    Full,
    ZeroTail,
    ZeroHead,
    ZeroEdges,
}

/// The decoder window for a band: its head is zeroed when the previous frame
/// carried gain points, its tail when the current frame does.
pub open spec fn window_kind(previous_active: bool, current_active: bool) -> DecoderWindowKind {
    if !previous_active && !current_active {
        DecoderWindowKind::Full
    } else if !previous_active && current_active {
        DecoderWindowKind::ZeroTail
    } else if previous_active && !current_active {
        DecoderWindowKind::ZeroHead
    } else {
        DecoderWindowKind::ZeroEdges
    }
}

pub fn decoder_window_kind(flag_a_active: bool, flag_b_active: bool) -> (k: DecoderWindowKind)
    ensures
        k == window_kind(flag_a_active, flag_b_active),
{
    match (flag_a_active, flag_b_active) {
        (false, false) => DecoderWindowKind::Full,
        (false, true) => DecoderWindowKind::ZeroTail,
        (true, false) => DecoderWindowKind::ZeroHead,
        (true, true) => DecoderWindowKind::ZeroEdges,
    }
}

/// The history slots scanned for a band: eight groups of eight for band 0,
/// one group fewer for each higher band, down to one group from band 7 on.
pub fn band_history_slots(band_index: usize) -> (r: usize)
    ensures
        r == (8 - (if band_index < 7 {
            band_index as int
        } else {
            7
        })) * 8,
{
    let capped: usize = if band_index < 7 {
        band_index
    } else {
        7
    };
    8usize.saturating_sub(capped) * 8
}

/// The first point of a gain band that breaks the curve rules: a level code
/// outside the table, or a location not after the previous point's.
pub open spec fn gain_curve_check(points: Seq<GainPoint>) -> Result<(), Atrac3Error>
    decreases points.len(),
{
    if points.len() == 0 {
        Ok(())
    } else {
        match gain_curve_check(points.drop_last()) {
            Err(e) => Err(e),
            Ok(_) => {
                let p = points.last();
                if p.level as nat >= GAIN_LEVEL_CODE_COUNT {
                    Err(Atrac3Error::GainLevelCodeTooLarge { level: p.level })
                } else if points.len() >= 2 && p.location <= points[points.len() - 2].location {
                    Err(
                        Atrac3Error::GainLocationsNotIncreasing {
                            previous: points[points.len() - 2].location,
                            current: p.location,
                        },
                    )
                } else {
                    Ok(())
                }
            },
        }
    }
}

pub fn validate_gain_band(band: &GainBand) -> (r: Result<(), Atrac3Error>)
    ensures
        r == gain_curve_check(band.points@),
{
    let mut previous_location: Option<u8> = None;
    let mut i: usize = 0;
    while i < band.points.len()
        invariant
            i <= band.points@.len(),
            gain_curve_check(band.points@.take(i as int)) is Ok,
            previous_location == if i == 0 {
                None::<u8>
            } else {
                Some(band.points@[i - 1].location)
            },
        decreases band.points@.len() - i,
    {
        let point: GainPoint = band.points[i];
        proof {
            assert(band.points@.take(i + 1).drop_last() =~= band.points@.take(i as int));
        }
        if !((point.level as usize) < GAIN_LEVEL_CODE_COUNT) {
            proof {
                lemma_gain_curve_first_err(band.points@, i as int);
            }
            return Err(
                Atrac3Error::GainLevelCodeTooLarge { level: point.level },
            );
        }
        if let Some(last_location) = previous_location {
            if !(point.location > last_location) {
                proof {
                    lemma_gain_curve_first_err(band.points@, i as int);
                }
                return Err(
                    Atrac3Error::GainLocationsNotIncreasing {
                        previous: last_location,
                        current: point.location,
                    },
                );
            }
        }
        previous_location = Some(point.location);
        i = i + 1;
    }
    proof {
        assert(band.points@.take(band.points@.len() as int) =~= band.points@);
    }
    Ok(())
}

proof fn lemma_gain_curve_first_err(points: Seq<GainPoint>, i: int)
    requires
        0 <= i < points.len(),
        gain_curve_check(points.take(i)) is Ok,
        gain_curve_check(points.take(i + 1)) is Err,
    ensures
        gain_curve_check(points) == gain_curve_check(points.take(i + 1)),
    decreases points.len(),
{
    if i + 1 == points.len() {
        assert(points.take(i + 1) =~= points);
    } else {
        assert(points.drop_last().take(i) =~= points.take(i));
        assert(points.drop_last().take(i + 1) =~= points.take(i + 1));
        lemma_gain_curve_first_err(points.drop_last(), i);
    }
}

/// Moves the backward points (from `backward_start` up to slot 7) down
/// behind the `forward_count` forward points and returns the total count.
pub fn merge_backward_points(
    positions: &mut [i32; 8],
    level_deltas: &mut [i32; 8],
    forward_count: usize,
    backward_start: usize,
) -> (total: usize)
    requires
        backward_start >= 7 || forward_count + (7 - backward_start) <= 8,
    ensures
        total == forward_count + if backward_start < 7 {
            7 - backward_start
        } else {
            0
        },
        forall|w: int|
            #![trigger final(positions)@[w]]
            #![trigger final(level_deltas)@[w]]
            0 <= w < 8 ==> {
                let t = w - forward_count;
                if forward_count <= w < total {
                    &&& final(positions)@[w] == if forward_count <= backward_start {
                        old(positions)@[backward_start + t]
                    } else {
                        old(positions)@[backward_start as int]
                    }
                    &&& final(level_deltas)@[w] == if forward_count <= backward_start {
                        old(level_deltas)@[backward_start + t]
                    } else {
                        old(level_deltas)@[backward_start as int]
                    }
                } else {
                    &&& final(positions)@[w] == old(positions)@[w]
                    &&& final(level_deltas)@[w] == old(level_deltas)@[w]
                }
            },
{
    let ghost p0 = positions@;
    let ghost d0 = level_deltas@;
    let mut write_index: usize = forward_count;
    let mut read_index: usize = backward_start;
    while read_index < 7
        invariant
            backward_start >= 7 || forward_count + (7 - backward_start) <= 8,
            backward_start <= read_index <= 7 || (backward_start >= 7 && read_index
                == backward_start),
            write_index == forward_count + (read_index - backward_start),
            forall|w: int|
                #![trigger positions@[w]]
                #![trigger level_deltas@[w]]
                0 <= w < 8 ==> {
                    let t = w - forward_count;
                    if forward_count <= w < write_index {
                        &&& positions@[w] == if forward_count <= backward_start {
                            p0[backward_start + t]
                        } else {
                            p0[backward_start as int]
                        }
                        &&& level_deltas@[w] == if forward_count <= backward_start {
                            d0[backward_start + t]
                        } else {
                            d0[backward_start as int]
                        }
                    } else {
                        &&& positions@[w] == p0[w]
                        &&& level_deltas@[w] == d0[w]
                    }
                },
        decreases 7 - read_index,
    {
        let p: i32 = positions[read_index];
        let d: i32 = level_deltas[read_index];
        positions[write_index] = p;
        level_deltas[write_index] = d;
        write_index = write_index + 1;
        read_index = read_index + 1;
    }
    write_index
}

} // verus!
