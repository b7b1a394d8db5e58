//! The codebooks in the setup packet of an Ogg Vorbis stream.
//!
//! `symphonia` skips the codebooks of a setup packet as it reads a file, and reads them when it
//! makes a decoder. It reports most of what can be wrong with them as an error, but stops the
//! program where a codebook has a table of values and no dimensions, where the size of that table
//! does not come out right in single precision or in 32 bits, where a codeword is longer than 32
//! bits, and where one of 32 bits has no place left. [`packet_is_sound`] says of a packet that
//! nothing of this happens, and that its codebooks do not run on into what follows the packet.

use vstd::prelude::*;

#[allow(unused_imports)]
use crate::wav;

verus! {

/// The bit number `pos` of `bytes`, the low bit of each byte first.
pub open spec fn bit_at(bytes: Seq<u8>, pos: int) -> u8 {
    (bytes[pos / 8] >> ((pos % 8) as u8)) & 1u8
}

/// The number in the `n` bits from `pos` on, the low bit first.
pub open spec fn bits_at(bytes: Seq<u8>, pos: int, n: nat) -> nat
    decreases n,
{
    if n == 0 {
        0
    } else {
        bit_at(bytes, pos) as nat + 2 * bits_at(bytes, pos + 1, (n - 1) as nat)
    }
}

/// Whether `bytes` have `n` bits from `pos` on.
pub open spec fn has_bits(bytes: Seq<u8>, pos: int, n: int) -> bool {
    pos + n <= 8 * bytes.len()
}

/// How many bits the number `x` takes.
pub open spec fn width_of(x: nat) -> nat
    decreases x,
{
    if x == 0 {
        0
    } else {
        1 + width_of(x / 2)
    }
}

/// `base` to the power `exponent`, but no more than `2^32`.
pub open spec fn capped_power(base: nat, exponent: nat) -> nat
    decreases exponent,
{
    if exponent == 0 {
        1
    } else {
        let p = capped_power(base, (exponent - 1) as nat) * base;
        if p < 0x1_0000_0000 {
            p
        } else {
            0x1_0000_0000
        }
    }
}

/// The largest number whose power `dimensions` is no more than `entries`, looked for from `v` on.
pub open spec fn root_from(entries: nat, dimensions: nat, v: nat) -> nat
    decreases entries - v,
{
    if v >= entries || capped_power(v + 1, dimensions) > entries {
        v
    } else {
        root_from(entries, dimensions, v + 1)
    }
}

/// The root of `entries`, rounded down: how many values a codebook of the first kind has.
pub open spec fn root_of(entries: nat, dimensions: nat) -> nat {
    if dimensions <= 1 {
        entries
    } else {
        root_from(entries, dimensions, 0)
    }
}

/// Whether a root in single precision comes out as [`root_of`]: there is a root, what is one above
/// it has a power that fits 32 bits, and `entries` are not so close below that power that rounding
/// reaches it.
pub open spec fn root_is_sure(entries: nat, dimensions: nat) -> bool {
    let above = capped_power(root_of(entries, dimensions) + 1, dimensions);
    &&& dimensions >= 1
    &&& entries == 0 || dimensions == 1 || above < 0x1_0000_0000 && (above - entries) * 0x4_0000
        > above
}

/// What follows a part of a codebook.
#[derive(Debug, Clone, Copy, PartialEq, Eq, Structural)]
pub enum BookStep {
    /// Nothing: the codebook is rejected with an error.
    Stop,
    /// Nothing, since the codebook is not sound.
    Blocked,
    /// More, from that bit on.
    At(u64),
}

/// How much of the room for codewords one of `len` bits takes up, of `2^32` in all.
pub open spec fn share_of(len: nat) -> nat {
    two_to((32 - len) as nat)
}

/// What follows a list of the lengths of `left` codewords, of which some may be left out if it is
/// `sparse`; `used` is the room that is taken up before.
pub open spec fn listed_step(
    bytes: Seq<u8>,
    pos: int,
    sparse: bool,
    left: nat,
    used: nat,
) -> BookStep
    decreases left,
{
    let flag: int = if sparse {
        1
    } else {
        0
    };
    if left == 0 {
        BookStep::At(pos as u64)
    } else if !has_bits(bytes, pos, flag) {
        BookStep::Blocked
    } else if sparse && bit_at(bytes, pos) == 0 {
        listed_step(bytes, pos + 1, sparse, (left - 1) as nat, used)
    } else if !has_bits(bytes, pos + flag, 5) {
        BookStep::Blocked
    } else {
        let len = bits_at(bytes, pos + flag, 5) + 1;
        if len == 32 && used >= 0x1_0000_0000 {
            BookStep::Blocked
        } else {
            listed_step(bytes, pos + flag + 5, sparse, (left - 1) as nat, used + share_of(len))
        }
    }
}

/// What follows a list of how many of `left` codewords have each length from `len` on; `used` is
/// the room that is taken up before.
pub open spec fn counted_step(bytes: Seq<u8>, pos: int, left: nat, len: nat, used: nat) -> BookStep
    decreases 8 * bytes.len() - pos,
{
    let width = width_of(left);
    if left == 0 {
        BookStep::At(pos as u64)
    } else if !has_bits(bytes, pos, width as int) {
        BookStep::Blocked
    } else {
        let count = bits_at(bytes, pos, width);
        if count > left {
            BookStep::Stop
        } else if count > 0 && (len > 32 || len == 32 && used + count > 0x1_0000_0000) {
            BookStep::Blocked
        } else {
            counted_step(
                bytes,
                pos + width,
                (left - count) as nat,
                len + 1,
                if count > 0 {
                    used + count * share_of(len)
                } else {
                    used
                },
            )
        }
    }
}

/// What follows the lengths of the codewords of a codebook, which begin at `pos`.
pub open spec fn lengths_step(bytes: Seq<u8>, pos: int, entries: nat) -> BookStep {
    if bit_at(bytes, pos) == 1 {
        if has_bits(bytes, pos + 1, 5) {
            counted_step(bytes, pos + 6, entries, bits_at(bytes, pos + 1, 5) + 1, 0)
        } else {
            BookStep::Blocked
        }
    } else if has_bits(bytes, pos + 1, 1) {
        listed_step(bytes, pos + 2, bit_at(bytes, pos + 1) == 1, entries, 0)
    } else {
        BookStep::Blocked
    }
}

/// What follows the values of a codebook, which are described from `pos` on.
pub open spec fn values_step(bytes: Seq<u8>, pos: int, entries: nat, dimensions: nat) -> BookStep {
    let kind = bits_at(bytes, pos, 4);
    if !has_bits(bytes, pos, 4) {
        BookStep::Blocked
    } else if kind == 0 {
        BookStep::At((pos + 4) as u64)
    } else if kind > 2 {
        BookStep::Stop
    } else if dimensions == 0 || !has_bits(bytes, pos + 4, 69) || kind == 1 && !root_is_sure(
        entries,
        dimensions,
    ) || kind == 2 && entries * dimensions >= 0x1_0000_0000 {
        BookStep::Blocked
    } else {
        let width = bits_at(bytes, pos + 68, 4) + 1;
        let values = if kind == 1 {
            root_of(entries, dimensions)
        } else {
            entries * dimensions
        };
        if has_bits(bytes, pos + 73, (values * width) as int) {
            BookStep::At((pos + 73 + values * width) as u64)
        } else {
            BookStep::Blocked
        }
    }
}

/// What follows the codebook at the bit `pos`.
pub open spec fn book_step(bytes: Seq<u8>, pos: int) -> BookStep {
    if !has_bits(bytes, pos, 65) {
        BookStep::Blocked
    } else if bits_at(bytes, pos, 24) != 0x564342 {
        BookStep::Stop
    } else {
        let dimensions = bits_at(bytes, pos + 24, 16);
        let entries = bits_at(bytes, pos + 40, 24);
        match lengths_step(bytes, pos + 64, entries) {
            BookStep::At(end) => values_step(bytes, end as int, entries, dimensions),
            other => other,
        }
    }
}

/// Whether the `count` codebooks from the bit `pos` on are sound, up to one that is rejected.
pub open spec fn books_are_sound(bytes: Seq<u8>, pos: int, count: nat) -> bool
    decreases count,
{
    if count == 0 {
        true
    } else {
        match book_step(bytes, pos) {
            BookStep::Stop => true,
            BookStep::Blocked => false,
            BookStep::At(next) => books_are_sound(bytes, next as int, (count - 1) as nat),
        }
    }
}

/// Whether the bytes from `at` on begin a Vorbis setup packet.
pub open spec fn begins_setup(bytes: Seq<u8>, at: int) -> bool {
    &&& at + 7 <= bytes.len()
    &&& bytes[at] == 5
    &&& wav::tag_at(bytes, at + 1, 0x76, 0x6f, 0x72, 0x62)
    &&& bytes[at + 5] == 0x69
    &&& bytes[at + 6] == 0x73
}

/// Whether a packet is no setup packet, or its codebooks are sound.
pub open spec fn packet_is_sound(packet: Seq<u8>) -> bool {
    begins_setup(packet, 0) ==> has_bits(packet, 56, 8) && books_are_sound(
        packet,
        64,
        bits_at(packet, 56, 8) + 1,
    )
}

/// The largest packet that is looked into, in bytes.
pub const MAX_PACKET_BYTES: usize = 0x200_0000;

/// Two to the power `n`.
pub open spec fn two_to(n: nat) -> nat
    decreases n,
{
    if n == 0 {
        1
    } else {
        2 * two_to((n - 1) as nat)
    }
}

proof fn lemma_two_to_32(n: nat)
    requires
        n <= 32,
    ensures
        two_to(n) <= 0x1_0000_0000,
    decreases 32 - n,
{
    if n == 32 {
        reveal_with_fuel(two_to, 33);
    } else {
        lemma_two_to_32(n + 1);
    }
}

/// Whether `bytes` have `n` bits from `pos` on.
fn fits(bytes: &[u8], pos: u64, n: u64) -> (yes: bool)
    requires
        bytes@.len() <= MAX_PACKET_BYTES,
        pos <= 0x4000_0000,
        n <= 0x10_0000_0000,
    ensures
        yes == has_bits(bytes@, pos as int, n as int),
{
    pos + n <= 8 * bytes.len() as u64
}

/// The bit number `pos`.
fn read_bit(bytes: &[u8], pos: u64) -> (bit: u8)
    requires
        bytes@.len() <= MAX_PACKET_BYTES,
        has_bits(bytes@, pos as int, 1),
    ensures
        bit == bit_at(bytes@, pos as int),
        bit <= 1,
{
    let byte: u8 = bytes[(pos / 8) as usize];
    let shift: u8 = (pos % 8) as u8;
    let bit: u8 = (byte >> shift) & 1u8;
    assert(bit <= 1) by (bit_vector)
        requires
            bit == (byte >> shift) & 1u8,
    ;
    bit
}

/// The number in the `n` bits from `pos` on.
fn read_bits(bytes: &[u8], pos: u64, n: u64) -> (value: u64)
    requires
        bytes@.len() <= MAX_PACKET_BYTES,
        pos <= 0x4000_0000,
        n <= 32,
        has_bits(bytes@, pos as int, n as int),
    ensures
        value == bits_at(bytes@, pos as int, n as nat),
        value < 0x1_0000_0000,
        n <= 24 ==> value < 0x100_0000,
        n <= 16 ==> value < 0x1_0000,
        n <= 8 ==> value < 0x100,
        n <= 5 ==> value < 0x20,
        n <= 4 ==> value < 0x10,
{
    let mut value: u64 = 0;
    let mut left: u64 = n;
    while left > 0
        invariant
            bytes@.len() <= MAX_PACKET_BYTES,
            pos <= 0x4000_0000,
            left <= n <= 32,
            has_bits(bytes@, pos as int, n as int),
            value == bits_at(bytes@, pos + left, (n - left) as nat),
            value < two_to((n - left) as nat),
        decreases left,
    {
        left = left - 1;
        proof {
            lemma_two_to_32((n - left - 1) as nat);
        }
        value = 2 * value + read_bit(bytes, pos + left) as u64;
    }
    proof {
        lemma_two_to_32(n as nat);
        lemma_two_to_small(n as nat);
    }
    value
}

proof fn lemma_two_to_small(n: nat)
    ensures
        n <= 24 ==> two_to(n) <= 0x100_0000,
        n <= 16 ==> two_to(n) <= 0x1_0000,
        n <= 8 ==> two_to(n) <= 0x100,
        n <= 5 ==> two_to(n) <= 0x20,
        n <= 4 ==> two_to(n) <= 0x10,
{
    reveal_with_fuel(two_to, 25);
    if n <= 24 {
        lemma_two_to_grows(n, 24);
    }
    if n <= 16 {
        lemma_two_to_grows(n, 16);
    }
    if n <= 8 {
        lemma_two_to_grows(n, 8);
    }
    if n <= 5 {
        lemma_two_to_grows(n, 5);
    }
    if n <= 4 {
        lemma_two_to_grows(n, 4);
    }
}

proof fn lemma_two_to_grows(a: nat, b: nat)
    requires
        a <= b,
    ensures
        two_to(a) <= two_to(b),
    decreases b - a,
{
    if a < b {
        lemma_two_to_grows(a, (b - 1) as nat);
    }
}

/// How many bits the number `x` takes.
fn width(x: u64) -> (n: u64)
    requires
        x < 0x100_0000,
    ensures
        n == width_of(x as nat),
        n <= 24,
{
    let mut rest: u64 = x;
    let mut n: u64 = 0;
    let ghost mut bound: nat = 24;
    proof {
        reveal_with_fuel(two_to, 25);
    }
    while rest > 0
        invariant
            n + width_of(rest as nat) == width_of(x as nat),
            n + bound == 24,
            rest < two_to(bound),
        decreases rest,
    {
        rest = rest / 2;
        n = n + 1;
        proof {
            bound = (bound - 1) as nat;
        }
    }
    n
}

/// `base` to the power `exponent`, but no more than `2^32`.
fn power(base: u64, exponent: u64) -> (p: u64)
    requires
        base <= 0x100_0000,
    ensures
        p == capped_power(base as nat, exponent as nat),
        p <= 0x1_0000_0000,
{
    let mut p: u64 = 1;
    let mut i: u64 = 0;
    while i < exponent
        invariant
            i <= exponent,
            base <= 0x100_0000,
            p <= 0x1_0000_0000,
            p == capped_power(base as nat, i as nat),
        decreases exponent - i,
    {
        assert(p * base <= 0x100_0000_0000_0000) by (nonlinear_arith)
            requires
                p <= 0x1_0000_0000,
                base <= 0x100_0000,
        ;
        let q: u64 = p * base;
        p =
        if q < 0x1_0000_0000 {
            q
        } else {
            0x1_0000_0000
        };
        i = i + 1;
    }
    p
}

/// The root of `entries`, rounded down.
fn root(entries: u64, dimensions: u64) -> (v: u64)
    requires
        entries < 0x100_0000,
    ensures
        v == root_of(entries as nat, dimensions as nat),
        v <= entries,
{
    if dimensions <= 1 {
        return entries;
    }
    let mut v: u64 = 0;
    while v < entries
        invariant_except_break
            root_from(entries as nat, dimensions as nat, 0) == root_from(
                entries as nat,
                dimensions as nat,
                v as nat,
            ),
        invariant
            v <= entries < 0x100_0000,
        ensures
            v == root_from(entries as nat, dimensions as nat, 0),
        decreases entries - v,
    {
        if power(v + 1, dimensions) > entries {
            break;
        }
        v = v + 1;
    }
    v
}

/// Whether a root in single precision comes out right.
fn is_sure(entries: u64, dimensions: u64) -> (yes: bool)
    requires
        entries < 0x100_0000,
    ensures
        yes == root_is_sure(entries as nat, dimensions as nat),
{
    if dimensions == 0 {
        return false;
    }
    if entries == 0 || dimensions == 1 {
        return true;
    }
    let v: u64 = root(entries, dimensions);
    let above: u64 = power(v + 1, dimensions);
    above < 0x1_0000_0000 && above > entries && (above - entries) * 0x4_0000 > above
}

/// How much of the room for codewords one of `len` bits takes up.
fn share(len: u64) -> (r: u64)
    requires
        1 <= len <= 32,
    ensures
        r == share_of(len as nat),
        r <= 0x8000_0000,
{
    let mut r: u64 = 1;
    let mut i: u64 = 0;
    while i < 32 - len
        invariant
            1 <= len <= 32,
            i <= 32 - len,
            r == two_to(i as nat),
        decreases 32 - len - i,
    {
        proof {
            lemma_two_to_32((i + 1) as nat);
        }
        r = 2 * r;
        i = i + 1;
    }
    proof {
        lemma_two_to_32((i + 1) as nat);
    }
    r
}

/// Reads a list of the lengths of `entries` codewords.
fn skip_listed(bytes: &[u8], start: u64, sparse: bool, entries: u64) -> (step: BookStep)
    requires
        bytes@.len() <= MAX_PACKET_BYTES,
        has_bits(bytes@, start as int, 0),
        entries < 0x100_0000,
    ensures
        step == listed_step(bytes@, start as int, sparse, entries as nat, 0),
        step matches BookStep::At(next) ==> has_bits(bytes@, next as int, 0),
{
    let mut pos: u64 = start;
    let mut left: u64 = entries;
    let mut used: u64 = 0;
    while left > 0
        invariant
            bytes@.len() <= MAX_PACKET_BYTES,
            has_bits(bytes@, pos as int, 0),
            left <= entries < 0x100_0000,
            used <= (entries - left) * 0x8000_0000,
            listed_step(bytes@, start as int, sparse, entries as nat, 0) == listed_step(
                bytes@,
                pos as int,
                sparse,
                left as nat,
                used as nat,
            ),
        decreases left,
    {
        left = left - 1;
        if sparse {
            if !fits(bytes, pos, 1) {
                return BookStep::Blocked;
            }
            let listed: u8 = read_bit(bytes, pos);
            pos = pos + 1;
            if listed == 0 {
                continue;
            }
        }
        if !fits(bytes, pos, 5) {
            return BookStep::Blocked;
        }
        let len: u64 = read_bits(bytes, pos, 5) + 1;
        if len == 32 && used >= 0x1_0000_0000 {
            return BookStep::Blocked;
        }
        used = used + share(len);
        pos = pos + 5;
    }
    BookStep::At(pos)
}

/// Reads a list of how many of `entries` codewords have each length from `shortest` on.
fn skip_counted(bytes: &[u8], start: u64, entries: u64, shortest: u64) -> (step: BookStep)
    requires
        bytes@.len() <= MAX_PACKET_BYTES,
        has_bits(bytes@, start as int, 0),
        entries < 0x100_0000,
        1 <= shortest <= 32,
    ensures
        step == counted_step(bytes@, start as int, entries as nat, shortest as nat, 0),
        step matches BookStep::At(next) ==> has_bits(bytes@, next as int, 0),
{
    let mut pos: u64 = start;
    let mut left: u64 = entries;
    let mut len: u64 = shortest;
    let mut used: u64 = 0;
    while left > 0
        invariant
            bytes@.len() <= MAX_PACKET_BYTES,
            start <= pos,
            has_bits(bytes@, pos as int, 0),
            left <= entries < 0x100_0000,
            used <= (entries - left) * 0x8000_0000,
            1 <= len <= 32 + (pos - start),
            counted_step(bytes@, start as int, entries as nat, shortest as nat, 0) == counted_step(
                bytes@,
                pos as int,
                left as nat,
                len as nat,
                used as nat,
            ),
        decreases 8 * bytes@.len() - pos,
    {
        let n: u64 = width(left);
        if !fits(bytes, pos, n) {
            return BookStep::Blocked;
        }
        let count: u64 = read_bits(bytes, pos, n);
        if count > left {
            return BookStep::Stop;
        }
        if count > 0 {
            if len > 32 || len == 32 && used + count > 0x1_0000_0000 {
                return BookStep::Blocked;
            }
            let each: u64 = share(len);
            assert(count * each <= count * 0x8000_0000) by (nonlinear_arith)
                requires
                    each <= 0x8000_0000,
            ;
            used = used + count * each;
        }
        pos = pos + n;
        left = left - count;
        len = len + 1;
    }
    BookStep::At(pos)
}

/// Reads the lengths of the codewords of a codebook.
fn skip_lengths(bytes: &[u8], pos: u64, entries: u64) -> (step: BookStep)
    requires
        bytes@.len() <= MAX_PACKET_BYTES,
        has_bits(bytes@, pos as int, 1),
        entries < 0x100_0000,
    ensures
        step == lengths_step(bytes@, pos as int, entries as nat),
        step matches BookStep::At(next) ==> has_bits(bytes@, next as int, 0),
{
    if read_bit(bytes, pos) == 1 {
        if !fits(bytes, pos + 1, 5) {
            return BookStep::Blocked;
        }
        let shortest: u64 = read_bits(bytes, pos + 1, 5) + 1;
        return skip_counted(bytes, pos + 6, entries, shortest);
    }
    if !fits(bytes, pos + 1, 1) {
        return BookStep::Blocked;
    }
    let sparse: bool = read_bit(bytes, pos + 1) == 1;
    skip_listed(bytes, pos + 2, sparse, entries)
}

/// Reads the values of a codebook.
fn skip_values(bytes: &[u8], pos: u64, entries: u64, dimensions: u64) -> (step: BookStep)
    requires
        bytes@.len() <= MAX_PACKET_BYTES,
        has_bits(bytes@, pos as int, 0),
        entries < 0x100_0000,
        dimensions < 0x1_0000,
    ensures
        step == values_step(bytes@, pos as int, entries as nat, dimensions as nat),
        step matches BookStep::At(next) ==> has_bits(bytes@, next as int, 0),
{
    if !fits(bytes, pos, 4) {
        return BookStep::Blocked;
    }
    let kind: u64 = read_bits(bytes, pos, 4);
    if kind == 0 {
        return BookStep::At(pos + 4);
    }
    if kind > 2 {
        return BookStep::Stop;
    }
    if dimensions == 0 || !fits(bytes, pos + 4, 69) {
        return BookStep::Blocked;
    }
    let values: u64 = if kind == 1 {
        if !is_sure(entries, dimensions) {
            return BookStep::Blocked;
        }
        root(entries, dimensions)
    } else {
        assert(entries * dimensions <= 0x100_0000_0000) by (nonlinear_arith)
            requires
                entries < 0x100_0000,
                dimensions < 0x1_0000,
        ;
        if entries * dimensions >= 0x1_0000_0000 {
            return BookStep::Blocked;
        }
        entries * dimensions
    };
    let n: u64 = read_bits(bytes, pos + 68, 4) + 1;
    assert(values * n <= 0x10_0000_0000) by (nonlinear_arith)
        requires
            values <= 0x1_0000_0000,
            n <= 0x10,
    ;
    if fits(bytes, pos + 73, values * n) {
        BookStep::At(pos + 73 + values * n)
    } else {
        BookStep::Blocked
    }
}

/// Reads the codebook at `pos`.
fn skip_book(bytes: &[u8], pos: u64) -> (step: BookStep)
    requires
        bytes@.len() <= MAX_PACKET_BYTES,
        has_bits(bytes@, pos as int, 0),
    ensures
        step == book_step(bytes@, pos as int),
        step matches BookStep::At(next) ==> has_bits(bytes@, next as int, 0),
{
    if !fits(bytes, pos, 65) {
        return BookStep::Blocked;
    }
    if read_bits(bytes, pos, 24) != 0x564342 {
        return BookStep::Stop;
    }
    let dimensions: u64 = read_bits(bytes, pos + 24, 16);
    let entries: u64 = read_bits(bytes, pos + 40, 24);
    match skip_lengths(bytes, pos + 64, entries) {
        BookStep::At(end) => skip_values(bytes, end, entries, dimensions),
        BookStep::Stop => BookStep::Stop,
        BookStep::Blocked => BookStep::Blocked,
    }
}

/// Whether the bytes from `at` on begin a Vorbis setup packet.
pub fn starts_setup(bytes: &[u8], at: usize) -> (yes: bool)
    requires
        at <= bytes@.len(),
    ensures
        yes == begins_setup(bytes@, at as int),
{
    bytes.len() - at >= 7 && bytes[at] == 5 && bytes[at + 1] == 0x76 && bytes[at + 2] == 0x6f
        && bytes[at + 3] == 0x72 && bytes[at + 4] == 0x62 && bytes[at + 5] == 0x69 && bytes[at + 6]
        == 0x73
}

/// Looks into a packet.
pub fn check_packet(packet: &[u8]) -> (sound: bool)
    requires
        packet@.len() <= MAX_PACKET_BYTES,
    ensures
        sound == packet_is_sound(packet@),
{
    if !starts_setup(packet, 0) {
        return true;
    }
    if !fits(packet, 56, 8) {
        return false;
    }
    let count: u64 = read_bits(packet, 56, 8) + 1;
    let mut pos: u64 = 64;
    let mut left: u64 = count;
    while left > 0
        invariant
            packet@.len() <= MAX_PACKET_BYTES,
            has_bits(packet@, pos as int, 0),
            books_are_sound(packet@, 64, count as nat) == books_are_sound(
                packet@,
                pos as int,
                left as nat,
            ),
            packet_is_sound(packet@) == books_are_sound(packet@, 64, count as nat),
        decreases left,
    {
        match skip_book(packet, pos) {
            BookStep::Stop => return true,
            BookStep::Blocked => return false,
            BookStep::At(next) => {
                pos = next;
            },
        }
        left = left - 1;
    }
    true
}

/// A number takes as many bits as it takes to hold it and no fewer: it lies below two to the power
/// of its width, and one that is not zero does not lie below half of that.
pub proof fn law_widths_are_tight(x: nat)
    ensures
        x < two_to(width_of(x)),
        x > 0 ==> width_of(x) > 0 && two_to((width_of(x) - 1) as nat) <= x,
    decreases x,
{
    if x > 0 {
        law_widths_are_tight(x / 2);
        if x / 2 == 0 {
            reveal_with_fuel(width_of, 2);
            reveal_with_fuel(two_to, 2);
        }
    }
}

/// Bits are read in one order, the low ones first: the number in some bits fits them, and the
/// number in the bits of two stretches is that of the first and, behind it, that of the second.
pub proof fn law_bits_are_read_low_first(bytes: Seq<u8>, pos: int, n: nat, more: nat)
    requires
        0 <= pos,
        pos + n + more <= 8 * bytes.len(),
    ensures
        bits_at(bytes, pos, n) < two_to(n),
        bits_at(bytes, pos, n + more) == bits_at(bytes, pos, n) + two_to(n) * bits_at(
            bytes,
            pos + n,
            more,
        ),
    decreases n,
{
    if n == 0 {
        assert(two_to(0) * bits_at(bytes, pos, more) == bits_at(bytes, pos, more))
            by (nonlinear_arith)
            requires
                two_to(0) == 1,
        ;
    } else {
        law_bits_are_read_low_first(bytes, pos + 1, (n - 1) as nat, more);
        let b = bytes[pos / 8];
        let s = (pos % 8) as u8;
        assert((b >> s) & 1u8 <= 1u8) by (bit_vector);
        let rest = bits_at(bytes, pos + n, more);
        let t = two_to((n - 1) as nat);
        assert(2 * (t * rest) == (2 * t) * rest) by (nonlinear_arith);
    }
}

/// Only a setup packet can be unsound, and one can only be unsound by its codebooks.
pub proof fn law_only_setup_packets_are_looked_into(packet: Seq<u8>)
    ensures
        packet.len() < 7 ==> packet_is_sound(packet),
        packet.len() > 0 && packet[0] != 5 ==> packet_is_sound(packet),
        begins_setup(packet, 0) && packet.len() >= 8 && packet_is_sound(packet) ==> books_are_sound(
            packet,
            64,
            bits_at(packet, 56, 8) + 1,
        ),
        begins_setup(packet, 0) && packet.len() == 7 ==> !packet_is_sound(packet),
{
}

} // verus!
