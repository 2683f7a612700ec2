//! Value checks.

use vstd::prelude::*;

use crate::float32::Float32;

verus! {

/// The first place, from `from` on, at which a value is bad.
pub open spec fn first_bad_from(
    values: Seq<Float32>,
    bad: spec_fn(Float32) -> bool,
    from: nat,
) -> Option<int>
    decreases values.len() - from,
{
    if from >= values.len() {
        None
    } else if bad(values[from as int]) {
        Some(from as int)
    } else {
        first_bad_from(values, bad, from + 1)
    }
}

/// The first place at which a value is bad.
pub open spec fn first_bad(values: Seq<Float32>, bad: spec_fn(Float32) -> bool) -> Option<int> {
    first_bad_from(values, bad, 0)
}

/// Not a coordinate.
pub open spec fn bad_coordinate() -> spec_fn(Float32) -> bool {
    |x: Float32| !x.valid_coordinate()
}

/// Not a correction scale.
pub open spec fn bad_scale() -> spec_fn(Float32) -> bool {
    |x: Float32| !x.valid_scale()
}

/// Not a calibration shift.
pub open spec fn bad_tqplus_shift() -> spec_fn(Float32) -> bool {
    |x: Float32| !x.valid_tqplus_shift()
}

/// Not a calibration scale.
pub open spec fn bad_tqplus_scale() -> spec_fn(Float32) -> bool {
    |x: Float32| !x.valid_tqplus_scale()
}

/// The vector and the coordinate that place `i` of a flat batch belongs to.
pub open spec fn coordinate_of(i: int, dim: usize) -> (usize, usize) {
    if dim == 0 {
        (0, i as usize)
    } else {
        ((i / dim as int) as usize, (i % dim as int) as usize)
    }
}

/// The first coordinate of a flat batch that the index does not take: its
/// vector, its place in the vector, and its value.
pub open spec fn first_invalid(values: Seq<Float32>, dim: usize) -> Option<
    (usize, usize, Float32),
> {
    match first_bad(values, bad_coordinate()) {
        Some(i) => Some((coordinate_of(i, dim).0, coordinate_of(i, dim).1, values[i])),
        None => None,
    }
}

/// What the first bad place is: a bad one, with none before it; and where
/// there is none, every value is good.
pub proof fn lemma_first_bad(values: Seq<Float32>, bad: spec_fn(Float32) -> bool, from: nat)
    ensures
        match first_bad_from(values, bad, from) {
            Some(i) => from <= i < values.len() && bad(values[i]) && forall|k: int|
                from <= k < i ==> !bad(#[trigger] values[k]),
            None => forall|k: int| from <= k < values.len() ==> !bad(#[trigger] values[k]),
        },
    decreases values.len() - from,
{
    if from < values.len() && !bad(values[from as int]) {
        lemma_first_bad(values, bad, from + 1);
    }
}

/// The first bad place of good values and what follows them.
proof fn lemma_first_bad_skip(
    values: Seq<Float32>,
    bad: spec_fn(Float32) -> bool,
    from: nat,
    upto: nat,
)
    requires
        from <= upto <= values.len(),
        forall|k: int| from <= k < upto ==> !bad(#[trigger] values[k]),
    ensures
        first_bad_from(values, bad, from) == first_bad_from(values, bad, upto),
    decreases upto - from,
{
    if from < upto {
        assert(!bad(values[from as int]));
        lemma_first_bad_skip(values, bad, from + 1, upto);
    }
}

/// Finds the first value that is not finite (NaN, an infinity), or so large
/// that sums of squares could overflow.
///
/// Returns its vector, its coordinate and the value itself, or `None` if every
/// value is good.
pub fn first_invalid_coord(values: &[Float32], dim: usize) -> (result: Option<
    (usize, usize, Float32),
>)
    ensures
        result == first_invalid(values@, dim),
{
    let mut i: usize = 0;
    while i < values.len()
        invariant
            i <= values@.len(),
            forall|k: int| 0 <= k < i ==> !bad_coordinate()(#[trigger] values@[k]),
        decreases values@.len() - i,
    {
        let x: Float32 = values[i];
        if !x.is_valid_coordinate() {
            proof {
                lemma_first_bad_skip(values@, bad_coordinate(), 0, i as nat);
            }
            let vector_index: usize = if dim == 0 {
                0
            } else {
                i / dim
            };
            let coord_index: usize = if dim == 0 {
                i
            } else {
                i % dim
            };
            return Some((vector_index, coord_index, x));
        }
        i = i + 1;
    }
    proof {
        lemma_first_bad_skip(values@, bad_coordinate(), 0, i as nat);
    }
    None
}

/// Finds the first scale that is not finite, or negative.
pub fn first_invalid_scale(values: &[Float32]) -> (result: Option<usize>)
    ensures
        match first_bad(values@, bad_scale()) {
            Some(i) => result is Some && result->0 == i,
            None => result is None,
        },
{
    let mut i: usize = 0;
    while i < values.len()
        invariant
            i <= values@.len(),
            forall|k: int| 0 <= k < i ==> !bad_scale()(#[trigger] values@[k]),
        decreases values@.len() - i,
    {
        if !values[i].is_valid_scale() {
            proof {
                lemma_first_bad_skip(values@, bad_scale(), 0, i as nat);
            }
            return Some(i);
        }
        i = i + 1;
    }
    proof {
        lemma_first_bad_skip(values@, bad_scale(), 0, i as nat);
    }
    None
}

/// Finds the first calibration shift that is not finite.
pub fn first_invalid_tqplus_shift(values: &[Float32]) -> (result: Option<usize>)
    ensures
        match first_bad(values@, bad_tqplus_shift()) {
            Some(i) => result is Some && result->0 == i,
            None => result is None,
        },
{
    let mut i: usize = 0;
    while i < values.len()
        invariant
            i <= values@.len(),
            forall|k: int| 0 <= k < i ==> !bad_tqplus_shift()(#[trigger] values@[k]),
        decreases values@.len() - i,
    {
        if !values[i].is_finite() {
            proof {
                lemma_first_bad_skip(values@, bad_tqplus_shift(), 0, i as nat);
            }
            return Some(i);
        }
        i = i + 1;
    }
    proof {
        lemma_first_bad_skip(values@, bad_tqplus_shift(), 0, i as nat);
    }
    None
}

/// Finds the first calibration scale that is not finite, or not positive.
pub fn first_invalid_tqplus_scale(values: &[Float32]) -> (result: Option<usize>)
    ensures
        match first_bad(values@, bad_tqplus_scale()) {
            Some(i) => result is Some && result->0 == i,
            None => result is None,
        },
{
    let mut i: usize = 0;
    while i < values.len()
        invariant
            i <= values@.len(),
            forall|k: int| 0 <= k < i ==> !bad_tqplus_scale()(#[trigger] values@[k]),
        decreases values@.len() - i,
    {
        if !values[i].is_valid_tqplus_scale() {
            proof {
                lemma_first_bad_skip(values@, bad_tqplus_scale(), 0, i as nat);
            }
            return Some(i);
        }
        i = i + 1;
    }
    proof {
        lemma_first_bad_skip(values@, bad_tqplus_scale(), 0, i as nat);
    }
    None
}

/// The first value that is no coordinate, spelled out: its place in the batch
/// is that of the vector and the coordinate named, it is no coordinate, and
/// every value before it is one. Where none is named, every value is one.
pub proof fn lemma_first_invalid_is_first(values: Seq<Float32>, dim: usize)
    requires
        values.len() <= usize::MAX,
    ensures
        match first_invalid(values, dim) {
            Some((vector, coord, value)) => exists|i: int|
                {
                    &&& 0 <= i < values.len()
                    &&& #[trigger] values[i] == value
                    &&& value.bits % 0x8000_0000 >= 0x5A0E_1BCA
                    &&& forall|k: int|
                        0 <= k < i ==> (#[trigger] values[k]).bits % 0x8000_0000 < 0x5A0E_1BCA
                    &&& dim > 0 ==> coord < dim && vector * dim + coord == i
                    &&& dim == 0 ==> vector == 0 && coord == i
                },
            None => forall|k: int|
                0 <= k < values.len() ==> (#[trigger] values[k]).bits % 0x8000_0000 < 0x5A0E_1BCA,
        },
{
    lemma_first_bad(values, bad_coordinate(), 0);
    assert forall|k: int| 0 <= k < values.len() implies (bad_coordinate()(#[trigger] values[k])
        <==> values[k].bits % 0x8000_0000 >= 0x5A0E_1BCA) by {
        crate::float32::lemma_classes_by_bits(values[k]);
    }
    if first_bad(values, bad_coordinate()) is Some {
        let i = first_bad(values, bad_coordinate())->0;
        assert(0 <= i < values.len() && bad_coordinate()(values[i]));
        if dim > 0 {
            vstd::arithmetic::div_mod::lemma_fundamental_div_mod(i, dim as int);
            vstd::arithmetic::div_mod::lemma_mod_bound(i, dim as int);
            vstd::arithmetic::div_mod::lemma_div_pos_is_pos(i, dim as int);
            vstd::arithmetic::div_mod::lemma_div_is_ordered_by_denominator(i, 1, dim as int);
            vstd::arithmetic::mul::lemma_mul_is_commutative(dim as int, i / dim as int);
        }
    }
}

/// The first bad scale, shift and calibration scale, by bit patterns: bad
/// itself, with none before it; and where there is none, every one is good.
pub proof fn lemma_first_bad_parts(values: Seq<Float32>)
    ensures
        match first_bad(values, bad_scale()) {
            Some(i) => 0 <= i < values.len() && values[i].bits >= 0x7F80_0000 && values[i].bits
                != 0x8000_0000 && forall|k: int|
                0 <= k < i ==> (#[trigger] values[k]).bits < 0x7F80_0000 || values[k].bits
                    == 0x8000_0000,
            None => forall|k: int|
                0 <= k < values.len() ==> (#[trigger] values[k]).bits < 0x7F80_0000
                    || values[k].bits == 0x8000_0000,
        },
        match first_bad(values, bad_tqplus_shift()) {
            Some(i) => 0 <= i < values.len() && values[i].bits % 0x8000_0000 >= 0x7F80_0000
                && forall|k: int|
                0 <= k < i ==> (#[trigger] values[k]).bits % 0x8000_0000 < 0x7F80_0000,
            None => forall|k: int|
                0 <= k < values.len() ==> (#[trigger] values[k]).bits % 0x8000_0000 < 0x7F80_0000,
        },
        match first_bad(values, bad_tqplus_scale()) {
            Some(i) => 0 <= i < values.len() && !(0 < values[i].bits < 0x7F80_0000) && forall|
                k: int,
            |
                0 <= k < i ==> 0 < (#[trigger] values[k]).bits < 0x7F80_0000,
            None => forall|k: int|
                0 <= k < values.len() ==> 0 < (#[trigger] values[k]).bits < 0x7F80_0000,
        },
{
    lemma_first_bad(values, bad_scale(), 0);
    lemma_first_bad(values, bad_tqplus_shift(), 0);
    lemma_first_bad(values, bad_tqplus_scale(), 0);
    assert forall|k: int| 0 <= k < values.len() implies {
        &&& bad_scale()(#[trigger] values[k]) <==> values[k].bits >= 0x7F80_0000 && values[k].bits
            != 0x8000_0000
        &&& bad_tqplus_shift()(values[k]) <==> values[k].bits % 0x8000_0000 >= 0x7F80_0000
        &&& bad_tqplus_scale()(values[k]) <==> !(0 < values[k].bits < 0x7F80_0000)
    } by {
        crate::float32::lemma_classes_by_bits(values[k]);
    }
}

} // verus!
