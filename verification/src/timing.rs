//! How long notes, rests and sound effects last, in whole milliseconds.
//!
//! A whole note lasts four quarter notes, so at `tempo` quarter notes per
//! minute a note of denominator `length` lasts `240000 / (tempo * length)`
//! milliseconds. The lengths here are rounded from such quotients. They are
//! defined by divisions in steps, which a machine can follow; the laws at the
//! end of the file say that the steps come to the quotients rounded once.

use vstd::arithmetic::div_mod::{
    lemma_div_denominator, lemma_div_pos_is_pos, lemma_fundamental_div_mod,
    lemma_fundamental_div_mod_converse,
};
use vstd::prelude::*;

use crate::music::Articulation;

verus! {

/// The eighths of a note's time that are sounded.
pub open spec fn sounding_eighths(articulation: Articulation) -> int {
    match articulation {
        Articulation::Legato => 7,
        Articulation::Normal => 6,
        Articulation::Staccato => 8,
    }
}

/// `numerator / denominator`, rounded up.
pub open spec fn ceil_div(numerator: int, denominator: int) -> int
    recommends
        0 <= numerator,
        0 < denominator,
{
    (numerator + denominator - 1) / denominator
}

/// The length that a note has: its own where it names one, else the
/// player's.
pub open spec fn length_or(length: Option<usize>, fallback: usize) -> usize {
    match length {
        Some(own) => own,
        None => fallback,
    }
}

/// `amount / (tempo * length)`, rounded up: `amount` is divided by the tempo
/// and then by the length, and rounded up each time. At a tempo or a length
/// of zero there is nothing to share out.
pub open spec fn share(amount: nat, tempo: nat, length: nat) -> nat {
    if tempo == 0 || length == 0 {
        0
    } else {
        ceil_div(ceil_div(amount as int, tempo as int), length as int) as nat
    }
}

/// The milliseconds for which a note sounds.
///
/// Of the note's `240000 / (tempo * length)` ms the articulation sounds `e`
/// eighths, which is `30000 * e / (tempo * length)`. The first dot adds half
/// of that, each further dot half a millisecond, and the sum is rounded up.
/// With `d >= 1` dots the sum is half of
/// `90000 * e / (tempo * length) + d - 1`.
/// At a tempo or a length of zero a note has no time of its own, and only
/// the dots after the first count.
pub open spec fn sounding_ms(
    tempo: nat,
    length: nat,
    articulation: Articulation,
    dots: nat,
) -> nat {
    let eighths = sounding_eighths(articulation) as nat;
    if dots == 0 {
        share(30000 * eighths, tempo, length)
    } else {
        ceil_div(share(90000 * eighths, tempo, length) + dots - 1, 2) as nat
    }
}

/// The milliseconds of silence that end a note: the eighths of its time that
/// the articulation does not sound, rounded up. Dots do not count.
pub open spec fn silent_ms(tempo: nat, length: nat, articulation: Articulation) -> nat {
    share((30000 * (8 - sounding_eighths(articulation))) as nat, tempo, length)
}

/// The milliseconds of a rest of denominator `denominator`:
/// `240000 / (tempo * denominator)`, rounded down. There is none at a tempo
/// or a denominator of zero.
pub open spec fn rest_ms(tempo: nat, denominator: nat) -> nat {
    if tempo == 0 || denominator == 0 {
        0
    } else {
        240000nat / tempo / denominator
    }
}

/// The milliseconds of one cycle of a sound effect that lasts `duration`
/// thousandths of a tick, at 18.2 ticks per second: `duration * 5 / 91`,
/// rounded up, and held to what a `usize` can count.
pub open spec fn effect_ms(duration: nat) -> nat {
    let ms = ceil_div(5 * duration as int, 91);
    if ms <= usize::MAX {
        ms as nat
    } else {
        usize::MAX as nat
    }
}

/// Shares `amount` out by `tempo` and `length`.
pub fn share_out(amount: u32, tempo: usize, length: usize) -> (part: u32)
    ensures
        part == share(amount as nat, tempo as nat, length as nat),
        part <= amount,
{
    if tempo == 0 || length == 0 {
        0
    } else {
        proof {
            lemma_ceil_bounds(amount as int, tempo as int);
            lemma_ceil_bounds(ceil_div(amount as int, tempo as int), length as int);
        }
        let first: u128 = (amount as u128 + tempo as u128 - 1) / (tempo as u128);
        let second: u128 = (first + length as u128 - 1) / (length as u128);
        second as u32
    }
}

/// The milliseconds of a rest.
pub fn rest_length(tempo: usize, denominator: usize) -> (ms: usize)
    ensures
        ms == rest_ms(tempo as nat, denominator as nat),
        ms <= 240000,
{
    if tempo == 0 || denominator == 0 {
        0
    } else {
        proof {
            lemma_quotient_below(240000, 240001, tempo as int);
            lemma_div_pos_is_pos(240000, tempo as int);
            lemma_quotient_below(240000int / (tempo as int), 240001, denominator as int);
        }
        let first: u64 = 240_000 / (tempo as u64);
        (first / (denominator as u64)) as usize
    }
}

/// The milliseconds of one cycle of a sound effect.
pub fn effect_length(duration: u64) -> (ms: usize)
    ensures
        ms == effect_ms(duration as nat),
{
    let ms: u128 = (5 * (duration as u128) + 90) / 91;
    if ms > usize::MAX as u128 {
        usize::MAX
    } else {
        ms as usize
    }
}

/// A number below `limit * divisor` has a quotient below `limit`.
pub proof fn lemma_quotient_below(number: int, limit: int, divisor: int)
    requires
        0 < divisor,
        number < limit * divisor,
    ensures
        number / divisor < limit,
{
    lemma_fundamental_div_mod(number, divisor);
    let quotient = number / divisor;
    if quotient >= limit {
        assert(divisor * quotient >= limit * divisor) by (nonlinear_arith)
            requires
                quotient >= limit,
                0 < divisor,
        ;
    }
}

/// A quotient rounded up is the least whole number that, times the
/// denominator, reaches the numerator; and it is no more than a numerator
/// that is not negative.
pub proof fn lemma_ceil_bounds(numerator: int, denominator: int)
    requires
        0 < denominator,
    ensures
        (ceil_div(numerator, denominator) - 1) * denominator < numerator,
        numerator <= ceil_div(numerator, denominator) * denominator,
        0 <= numerator ==> 0 <= ceil_div(numerator, denominator) <= numerator,
{
    let raised = numerator + denominator - 1;
    let quotient = raised / denominator;
    lemma_fundamental_div_mod(raised, denominator);
    assert((quotient - 1) * denominator == denominator * quotient - denominator
        && quotient * denominator == denominator * quotient) by (nonlinear_arith);
    if 0 <= numerator {
        lemma_div_pos_is_pos(raised, denominator);
        assert(numerator + denominator - 1 < (numerator + 1) * denominator) by (nonlinear_arith)
            requires
                0 <= numerator,
                0 < denominator,
        ;
        lemma_quotient_below(raised, numerator + 1, denominator);
    }
}

/// A numerator above `quotient` times the denominator and no more than the
/// next multiple has the rounded-up quotient `quotient + 1`.
pub proof fn lemma_ceil_between(numerator: int, denominator: int, quotient: int)
    requires
        0 < denominator,
        quotient * denominator < numerator <= (quotient + 1) * denominator,
    ensures
        ceil_div(numerator, denominator) == quotient + 1,
{
    assert(numerator + denominator - 1 == (quotient + 1) * denominator + (numerator - quotient
        * denominator - 1)) by (nonlinear_arith);
    lemma_fundamental_div_mod_converse(
        numerator + denominator - 1,
        denominator,
        quotient + 1,
        numerator - quotient * denominator - 1,
    );
}

/// To divide by one number and then by another, rounding up each time, is
/// to divide by their product and round up once.
pub proof fn lemma_ceil_in_steps(amount: int, first: int, second: int)
    requires
        0 < first,
        0 < second,
    ensures
        ceil_div(ceil_div(amount, first), second) == ceil_div(amount, first * second),
{
    let part = ceil_div(amount, first);
    let whole = ceil_div(part, second);
    lemma_ceil_bounds(amount, first);
    lemma_ceil_bounds(part, second);
    assert(0 < first * second) by (nonlinear_arith)
        requires
            0 < first,
            0 < second,
    ;
    assert((whole - 1) * (first * second) < amount) by (nonlinear_arith)
        requires
            (whole - 1) * second <= part - 1,
            (part - 1) * first < amount,
            0 < first,
    ;
    assert(amount <= whole * (first * second)) by (nonlinear_arith)
        requires
            amount <= part * first,
            part <= whole * second,
            0 < first,
    ;
    lemma_ceil_between(amount, first * second, whole - 1);
}

/// Whole multiples of the denominator pass through a rounded-up quotient.
pub proof fn lemma_ceil_of_sum(numerator: int, times: int, denominator: int)
    requires
        0 < denominator,
    ensures
        ceil_div(numerator + times * denominator, denominator) == ceil_div(numerator, denominator)
            + times,
{
    let quotient = ceil_div(numerator, denominator);
    lemma_ceil_bounds(numerator, denominator);
    assert((quotient + times - 1) * denominator == (quotient - 1) * denominator + times
        * denominator && (quotient + times) * denominator == quotient * denominator + times
        * denominator) by (nonlinear_arith);
    lemma_ceil_between(numerator + times * denominator, denominator, quotient + times - 1);
}

/// What is shared out in two steps is the quotient by `tempo * length`,
/// rounded up once.
pub proof fn lemma_share_is_rounded_quotient(amount: nat, tempo: nat, length: nat)
    requires
        tempo * length > 0,
    ensures
        share(amount, tempo, length) == ceil_div(amount as int, (tempo * length) as int),
{
    assert(tempo > 0 && length > 0) by (nonlinear_arith)
        requires
            tempo * length > 0,
    ;
    lemma_ceil_in_steps(amount as int, tempo as int, length as int);
    lemma_ceil_bounds(amount as int, tempo as int);
    lemma_ceil_bounds(ceil_div(amount as int, tempo as int), length as int);
}

/// The lengths of a note are its exact lengths, rounded up once. With `e`
/// the eighths that sound and `b = tempo * length` above zero:
/// a note without dots sounds for `30000 * e / b` ms;
/// one of `d >= 1` dots for `(90000 * e + (d - 1) * b) / (2 * b)` ms, which
/// is three halves of that and half a millisecond for each dot but the first;
/// the silence that ends either lasts `30000 * (8 - e) / b` ms.
pub proof fn lemma_note_lengths_are_rounded_once(
    tempo: nat,
    length: nat,
    articulation: Articulation,
    dots: nat,
)
    requires
        tempo * length > 0,
    ensures
        dots == 0 ==> sounding_ms(tempo, length, articulation, dots) == ceil_div(
            30000 * sounding_eighths(articulation),
            (tempo * length) as int,
        ),
        dots >= 1 ==> sounding_ms(tempo, length, articulation, dots) == ceil_div(
            90000 * sounding_eighths(articulation) + (dots - 1) * (tempo * length),
            2 * (tempo * length) as int,
        ),
        silent_ms(tempo, length, articulation) == ceil_div(
            30000 * (8 - sounding_eighths(articulation)),
            (tempo * length) as int,
        ),
{
    let eighths = sounding_eighths(articulation);
    let beats = (tempo * length) as int;
    lemma_share_is_rounded_quotient((30000 * eighths) as nat, tempo, length);
    lemma_share_is_rounded_quotient((90000 * eighths) as nat, tempo, length);
    lemma_share_is_rounded_quotient((30000 * (8 - eighths)) as nat, tempo, length);
    if dots >= 1 {
        let doubled = 90000 * eighths;
        lemma_ceil_of_sum(doubled, dots - 1, beats);
        lemma_ceil_in_steps(doubled + (dots - 1) * beats, beats, 2);
        assert(beats * 2 == 2 * beats);
        lemma_ceil_bounds(doubled, beats);
    }
}

/// A rest is its exact length, rounded down once.
pub proof fn lemma_rest_is_rounded_once(tempo: nat, denominator: nat)
    requires
        tempo * denominator > 0,
    ensures
        rest_ms(tempo, denominator) == 240000int / (tempo * denominator) as int,
{
    assert(tempo > 0 && denominator > 0) by (nonlinear_arith)
        requires
            tempo * denominator > 0,
    ;
    lemma_div_denominator(240000, tempo as int, denominator as int);
}

} // verus!
