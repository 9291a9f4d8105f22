use vstd::prelude::*;

verus! {

/// The high 32 bits of a 64-bit word.
pub open spec fn hi_word(x: u64) -> u32 {
    (x as int / 0x1_0000_0000) as u32
}

/// The low 32 bits of a 64-bit word.
pub open spec fn lo_word(x: u64) -> u32 {
    (x as int % 0x1_0000_0000) as u32
}

/// The 64-bit word whose high half is `hi` and low half is `lo`.
pub open spec fn join_words(hi: u32, lo: u32) -> u64 {
    (hi as int * 0x1_0000_0000 + lo as int) as u64
}

/// Cuts a 64-bit word into its (high, low) halves.
pub fn split(x: u64) -> (r: (u32, u32))
    ensures
        r.0 == hi_word(x),
        r.1 == lo_word(x),
{
    let lo = (x & (u32::MAX as u64)) as u32;
    let hi = (x >> 32u64) as u32;
    assert(x & 0xffff_ffffu64 == x % 0x1_0000_0000u64) by (bit_vector);
    assert(x >> 32u64 == x / 0x1_0000_0000u64) by (bit_vector);
    (hi, lo)
}

/// Joins a (high, low) pair of halves into one 64-bit word.
pub fn merge(hi: u32, lo: u32) -> (r: u64)
    ensures
        r == join_words(hi, lo),
{
    let mut x = hi as u64;
    x = x << 32u64;
    x = x | (lo as u64);
    let h = hi as u64;
    let l = lo as u64;
    assert(h <= 0xffff_ffffu64 && l <= 0xffff_ffffu64 ==> (h << 32u64) | l == h * 0x1_0000_0000u64 + l)
        by (bit_vector);
    x
}

/// Halving a word and joining the halves gives the word back.
pub proof fn lemma_join_split(x: u64)
    ensures
        join_words(hi_word(x), lo_word(x)) == x,
{
}

/// Joining two halves and cutting the result gives the halves back.
pub proof fn lemma_split_join(hi: u32, lo: u32)
    ensures
        hi_word(join_words(hi, lo)) == hi,
        lo_word(join_words(hi, lo)) == lo,
{
}

/// Relies on rand::random (thread-local generator of rand): any `u32` may come out.
#[verifier::external_body]
pub fn random() -> (r: u32) {
    rand::random::<u32>()
}

/// Relies on std's SystemTime: whole seconds since the Unix epoch, 0 for a
/// clock set before it.
#[verifier::external_body]
fn unix_seconds() -> (r: u64) {
    std::time::SystemTime::now().duration_since(std::time::UNIX_EPOCH).unwrap_or_default().as_secs()
}

/// A 32-bit time stamp: the seconds since the Unix epoch, cut to 32 bits.
pub fn time() -> (r: u32) {
    let secs = unix_seconds();
    stamp_of(secs)
}

/// The low 32 bits of a count of seconds.
pub fn stamp_of(secs: u64) -> (r: u32)
    ensures
        r == secs % 0x1_0000_0000,
{
    (secs % 0x1_0000_0000u64) as u32
}

} // verus!
