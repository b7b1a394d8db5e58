//! Single-precision sample arithmetic, supplied by the caller.
//!
//! A sample, a gain or a duration in milliseconds is carried as the raw 32-bit word of an
//! IEEE-754 single-precision number. The library moves such words around and decides *which*
//! operation is applied to *which* words in *which* order; the operations themselves belong to
//! the machine and come in through [`SampleMath`]. Nothing is assumed of them beyond
//! [`is_pure`]: the same words always give the same word.

use vstd::prelude::*;

verus! {

/// The word of `0.0`.
pub const SILENCE: u32 = 0x0000_0000;

/// The word of `1.0`.
pub const UNITY: u32 = 0x3F80_0000;

/// The word of `1000.0`, the number of milliseconds in a second.
pub const MS_PER_SECOND: u32 = 0x447A_0000;

/// The word of `32768.0`, the full scale of 16-bit PCM.
pub const PCM16_FULL_SCALE: u32 = 0x4700_0000;

/// The word of `1/sqrt(2)`: the gain with which a mono signal is spread over two channels so
/// that its power stays the same.
pub const EQUAL_POWER_GAIN: u32 = 0x3F35_04F3;

/// Single-precision arithmetic on raw words.
pub trait SampleMath {
    /// `a + b`.
    fn plus(&self, a: u32, b: u32) -> u32;

    /// `a - b`.
    fn minus(&self, a: u32, b: u32) -> u32;

    /// `a * b`.
    fn times(&self, a: u32, b: u32) -> u32;

    /// `a / b`.
    fn over(&self, a: u32, b: u32) -> u32;

    /// The absolute value of `a`.
    fn magnitude(&self, a: u32) -> u32;

    /// `1.0` or `-1.0`, with the sign of `a`.
    fn sign(&self, a: u32) -> u32;

    /// `a <= b`.
    fn at_most(&self, a: u32, b: u32) -> bool;

    /// The number nearest to `n`.
    fn of_count(&self, n: u32) -> u32;

    /// The number equal to the PCM value `n`.
    fn of_pcm16(&self, n: i16) -> u32;

    /// `a` rounded to the nearest integer, halves away from zero, and brought into the range of
    /// `u32`.
    fn to_count(&self, a: u32) -> u32;
}

/// What `m` gives for `a + b`.
pub closed spec fn sum_of<M: SampleMath>(m: &M, a: u32, b: u32) -> u32 {
    choose|r: u32| call_ensures(M::plus, (m, a, b), r)
}

/// What `m` gives for `a - b`.
pub closed spec fn difference_of<M: SampleMath>(m: &M, a: u32, b: u32) -> u32 {
    choose|r: u32| call_ensures(M::minus, (m, a, b), r)
}

/// What `m` gives for `a * b`.
pub closed spec fn product_of<M: SampleMath>(m: &M, a: u32, b: u32) -> u32 {
    choose|r: u32| call_ensures(M::times, (m, a, b), r)
}

/// What `m` gives for `a / b`.
pub closed spec fn quotient_of<M: SampleMath>(m: &M, a: u32, b: u32) -> u32 {
    choose|r: u32| call_ensures(M::over, (m, a, b), r)
}

/// What `m` gives for the absolute value of `a`.
pub closed spec fn magnitude_of<M: SampleMath>(m: &M, a: u32) -> u32 {
    choose|r: u32| call_ensures(M::magnitude, (m, a), r)
}

/// What `m` gives for the sign of `a`.
pub closed spec fn sign_of<M: SampleMath>(m: &M, a: u32) -> u32 {
    choose|r: u32| call_ensures(M::sign, (m, a), r)
}

/// What `m` answers to `a <= b`.
pub closed spec fn is_at_most<M: SampleMath>(m: &M, a: u32, b: u32) -> bool {
    choose|r: bool| call_ensures(M::at_most, (m, a, b), r)
}

/// What `m` gives for the count `n`.
pub closed spec fn word_of_count<M: SampleMath>(m: &M, n: u32) -> u32 {
    choose|r: u32| call_ensures(M::of_count, (m, n), r)
}

/// What `m` gives for the PCM value `n`.
pub closed spec fn word_of_pcm16<M: SampleMath>(m: &M, n: i16) -> u32 {
    choose|r: u32| call_ensures(M::of_pcm16, (m, n), r)
}

/// What `m` gives for `a` rounded to a count.
pub closed spec fn count_of<M: SampleMath>(m: &M, a: u32) -> u32 {
    choose|r: u32| call_ensures(M::to_count, (m, a), r)
}

/// Every operation of `m` is a function: equal words give equal results.
pub open spec fn is_pure<M: SampleMath>(m: &M) -> bool {
    &&& forall|a: u32, b: u32, r: u32| #[trigger]
        call_ensures(M::plus, (m, a, b), r) ==> r == sum_of(m, a, b)
    &&& forall|a: u32, b: u32, r: u32| #[trigger]
        call_ensures(M::minus, (m, a, b), r) ==> r == difference_of(m, a, b)
    &&& forall|a: u32, b: u32, r: u32| #[trigger]
        call_ensures(M::times, (m, a, b), r) ==> r == product_of(m, a, b)
    &&& forall|a: u32, b: u32, r: u32| #[trigger]
        call_ensures(M::over, (m, a, b), r) ==> r == quotient_of(m, a, b)
    &&& forall|a: u32, r: u32| #[trigger]
        call_ensures(M::magnitude, (m, a), r) ==> r == magnitude_of(m, a)
    &&& forall|a: u32, r: u32| #[trigger] call_ensures(M::sign, (m, a), r) ==> r == sign_of(m, a)
    &&& forall|a: u32, b: u32, r: bool| #[trigger]
        call_ensures(M::at_most, (m, a, b), r) ==> r == is_at_most(m, a, b)
    &&& forall|n: u32, r: u32| #[trigger]
        call_ensures(M::of_count, (m, n), r) ==> r == word_of_count(m, n)
    &&& forall|n: i16, r: u32| #[trigger]
        call_ensures(M::of_pcm16, (m, n), r) ==> r == word_of_pcm16(m, n)
    &&& forall|a: u32, r: u32| #[trigger]
        call_ensures(M::to_count, (m, a), r) ==> r == count_of(m, a)
}

/// No operation of `m` can give two results for the same words.
pub open spec fn is_single_valued<M: SampleMath>(m: &M) -> bool {
    &&& forall|a: u32, b: u32, r: u32, s: u32| #[trigger]
        call_ensures(M::plus, (m, a, b), r) && #[trigger] call_ensures(M::plus, (m, a, b), s)
            ==> r == s
    &&& forall|a: u32, b: u32, r: u32, s: u32| #[trigger]
        call_ensures(M::minus, (m, a, b), r) && #[trigger] call_ensures(M::minus, (m, a, b), s)
            ==> r == s
    &&& forall|a: u32, b: u32, r: u32, s: u32| #[trigger]
        call_ensures(M::times, (m, a, b), r) && #[trigger] call_ensures(M::times, (m, a, b), s)
            ==> r == s
    &&& forall|a: u32, b: u32, r: u32, s: u32| #[trigger]
        call_ensures(M::over, (m, a, b), r) && #[trigger] call_ensures(M::over, (m, a, b), s)
            ==> r == s
    &&& forall|a: u32, b: u32, r: bool, s: bool| #[trigger]
        call_ensures(M::at_most, (m, a, b), r) && #[trigger] call_ensures(M::at_most, (m, a, b), s)
            ==> r == s
    &&& forall|a: u32, r: u32, s: u32| #[trigger]
        call_ensures(M::magnitude, (m, a), r) && #[trigger] call_ensures(M::magnitude, (m, a), s)
            ==> r == s
    &&& forall|a: u32, r: u32, s: u32| #[trigger]
        call_ensures(M::sign, (m, a), r) && #[trigger] call_ensures(M::sign, (m, a), s)
            ==> r == s
    &&& forall|n: u32, r: u32, s: u32| #[trigger]
        call_ensures(M::of_count, (m, n), r) && #[trigger] call_ensures(M::of_count, (m, n), s)
            ==> r == s
    &&& forall|n: i16, r: u32, s: u32| #[trigger]
        call_ensures(M::of_pcm16, (m, n), r) && #[trigger] call_ensures(M::of_pcm16, (m, n), s)
            ==> r == s
    &&& forall|a: u32, r: u32, s: u32| #[trigger]
        call_ensures(M::to_count, (m, a), r) && #[trigger] call_ensures(M::to_count, (m, a), s)
            ==> r == s
}

/// Operations that cannot give two results for the same words are functions. This is how a caller
/// whose operations say what they give comes to know [`is_pure`].
pub proof fn law_single_valued_operations_are_pure<M: SampleMath>(m: &M)
    requires
        is_single_valued(m),
    ensures
        is_pure(m),
{
}

} // verus!
