//! Small helpers: little-endian byte encoding, random bytes and the pacing
//! of a periodic loop.

use vstd::prelude::*;

verus! {

/// The number whose little-endian encoding starts `bytes`.
pub open spec fn le_value(bytes: Seq<u8>) -> int
    recommends
        bytes.len() >= 4,
{
    bytes[0] as int + 256 * (bytes[1] as int) + 65536 * (bytes[2] as int) + 16777216 * (
    bytes[3] as int)
}

/// The four bytes of `x`, least significant first.
pub open spec fn le_bytes(x: u32) -> Seq<u8> {
    seq![
        (x % 256) as u8,
        ((x / 256) % 256) as u8,
        ((x / 65536) % 256) as u8,
        (x / 16777216) as u8,
    ]
}

/// Reading back the bytes of a number gives the number.
pub proof fn lemma_le_value_of_bytes(x: u32)
    ensures
        le_bytes(x).len() == 4,
        le_value(le_bytes(x)) == x,
{
}

/// Writing out the number read from four bytes gives the four bytes.
pub proof fn lemma_le_bytes_of_value(bytes: Seq<u8>)
    requires
        bytes.len() == 4,
    ensures
        0 <= le_value(bytes) <= u32::MAX,
        le_bytes(le_value(bytes) as u32) == bytes,
{
    lemma_le_digits(bytes[0] as int, bytes[1] as int, bytes[2] as int, bytes[3] as int);
    assert(le_bytes(le_value(bytes) as u32) =~= bytes);
}

/// The digits of a number written to the base 256 are found again by
/// division and remainder.
proof fn lemma_le_digits(b0: int, b1: int, b2: int, b3: int)
    requires
        0 <= b0 < 256,
        0 <= b1 < 256,
        0 <= b2 < 256,
        0 <= b3 < 256,
    ensures
        0 <= b0 + 256 * b1 + 65536 * b2 + 16777216 * b3 <= u32::MAX,
        (b0 + 256 * b1 + 65536 * b2 + 16777216 * b3) % 256 == b0,
        ((b0 + 256 * b1 + 65536 * b2 + 16777216 * b3) / 256) % 256 == b1,
        ((b0 + 256 * b1 + 65536 * b2 + 16777216 * b3) / 65536) % 256 == b2,
        (b0 + 256 * b1 + 65536 * b2 + 16777216 * b3) / 16777216 == b3,
{
    let x = b0 + 256 * b1 + 65536 * b2 + 16777216 * b3;
    assert(x / 256 == b1 + 256 * b2 + 65536 * b3);
    assert(x / 65536 == b2 + 256 * b3);
    assert(x / 16777216 == b3);
}

/// Reads the first four bytes of `slice` as a little-endian `u32`.
pub fn conv_slice_to_u32(slice: &[u8]) -> (r: u32)
    requires
        slice@.len() >= 4,
    ensures
        r == le_value(slice@),
{
    let b0: u32 = slice[0] as u32;
    let b1: u32 = slice[1] as u32;
    let b2: u32 = slice[2] as u32;
    let b3: u32 = slice[3] as u32;
    b0 + 256 * b1 + 65536 * b2 + 16777216 * b3
}

/// Splits `input` into its four bytes, least significant first.
pub fn conv_u32_to_bytes(input: &u32) -> (r: [u8; 4])
    ensures
        r@ == le_bytes(*input),
{
    let x: u32 = *input;
    let r = [
        (x % 256) as u8,
        ((x / 256) % 256) as u8,
        ((x / 65536) % 256) as u8,
        (x / 16777216) as u8,
    ];
    assert(r@ =~= le_bytes(x));
    r
}

/// Whether two byte strings are the same.
pub fn same_bytes(a: &[u8], b: &[u8]) -> (r: bool)
    ensures
        r == (a@ == b@),
{
    if a.len() != b.len() {
        return false;
    }
    let mut i: usize = 0;
    while i < a.len()
        invariant
            i <= a@.len(),
            a@.len() == b@.len(),
            forall|j: int| 0 <= j < i ==> a@[j] == b@[j],
        decreases a@.len() - i,
    {
        if a[i] != b[i] {
            return false;
        }
        i = i + 1;
    }
    assert(a@ =~= b@);
    true
}

/// A random byte from `rand::Rng::gen_range` on the thread-local generator:
/// at least `low` and below `high`. Which byte comes is left open.
#[verifier::external_body]
fn random_byte(low: u8, high: u8) -> (r: u8)
    requires
        low < high,
    ensures
        low <= r < high,
{
    rand::Rng::gen_range(&mut rand::thread_rng(), low, high)
}

/// A random number from `rand::RngCore::next_u32` on the thread-local
/// generator. Nothing is promised of its value.
#[verifier::external_body]
pub(crate) fn random_u32() -> u32 {
    rand::RngCore::next_u32(&mut rand::thread_rng())
}

/// The largest value, exclusive, of a byte of `generate_random_bytes`.
pub const RANDOM_BYTE_LIMIT: u8 = 255;

/// `n` random bytes, each below `RANDOM_BYTE_LIMIT`.
pub fn generate_random_bytes(n: usize) -> (r: Vec<u8>)
    ensures
        r@.len() == n,
        forall|i: int| 0 <= i < n ==> r@[i] < RANDOM_BYTE_LIMIT,
{
    let mut bytes: Vec<u8> = Vec::with_capacity(n);
    let mut i: usize = 0;
    while i < n
        invariant
            i <= n,
            bytes@.len() == i,
            forall|j: int| 0 <= j < i ==> bytes@[j] < RANDOM_BYTE_LIMIT,
        decreases n - i,
    {
        bytes.push(random_byte(0, RANDOM_BYTE_LIMIT));
        i = i + 1;
    }
    bytes
}

/// How long a loop with a period of `period_ms` sleeps after a round that
/// took `elapsed_ms`: what is left of the period, and nothing after a round
/// that overran it.
pub open spec fn period_sleep_ms(period_ms: u64, elapsed_ms: u64) -> u64 {
    if elapsed_ms <= period_ms {
        (period_ms - elapsed_ms) as u64
    } else {
        0
    }
}

/// The time in milliseconds to sleep after a round of `elapsed_ms` in a loop
/// with a period of `period_ms`. A slow round is not made up for: the next
/// one starts at once.
pub fn period_sleep(period_ms: u64, elapsed_ms: u64) -> (r: u64)
    ensures
        r == period_sleep_ms(period_ms, elapsed_ms),
{
    if elapsed_ms <= period_ms {
        period_ms - elapsed_ms
    } else {
        0
    }
}

/// The length in milliseconds of one round of a loop that runs `frequency`
/// times a second.
pub open spec fn loop_period_ms(frequency: u64) -> u64
    recommends
        frequency > 0,
{
    (1000int / (frequency as int)) as u64
}

/// How long a loop that runs `frequency` times a second sleeps after a round
/// that took `elapsed_ms`.
pub open spec fn loop_sleep_ms(frequency: u64, elapsed_ms: u64) -> u64
    recommends
        frequency > 0,
{
    period_sleep_ms(loop_period_ms(frequency), elapsed_ms)
}

/// The time in milliseconds to sleep after a round of `elapsed_ms` in a loop
/// that runs `frequency` times a second.
pub fn loop_at_sleep(frequency: u64, elapsed_ms: u64) -> (r: u64)
    requires
        frequency > 0,
    ensures
        r == loop_sleep_ms(frequency, elapsed_ms),
        r <= 1000,
{
    period_sleep(1000 / frequency, elapsed_ms)
}

} // verus!
