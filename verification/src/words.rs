//! Plain-byte models of the VM's scalar values: a 256-bit word is 32
//! big-endian bytes, an account address is 20 big-endian bytes.

use vstd::prelude::*;

verus! {

/// A 256-bit value, held as 32 big-endian bytes.
pub type Word = Vec<u8>;

/// A 160-bit account identifier, held as 20 big-endian bytes.
pub type Address = Vec<u8>;

/// A byte sequence is a well-formed 256-bit word.
pub open spec fn is_word(s: Seq<u8>) -> bool {
    s.len() == 32
}

/// A byte sequence is a well-formed account address.
pub open spec fn is_address(s: Seq<u8>) -> bool {
    s.len() == 20
}

/// `n` zero bytes.
pub open spec fn zero_bytes(n: nat) -> Seq<u8> {
    Seq::new(n, |i: int| 0u8)
}

/// Builds a vector of `n` zero bytes.
pub fn zero_vec(n: usize) -> (r: Vec<u8>)
    ensures
        r@ == zero_bytes(n as nat),
{
    let mut r: Vec<u8> = Vec::new();
    let mut i: usize = 0;
    while i < n
        invariant
            i <= n,
            r@ =~= zero_bytes(i as nat),
        decreases n - i,
    {
        r.push(0u8);
        assert(r@ =~= zero_bytes((i + 1) as nat));
        i = i + 1;
    }
    assert(r@ =~= zero_bytes(n as nat));
    r
}

/// The all-zero 256-bit word.
pub fn word_zero() -> (r: Word)
    ensures
        r@ == zero_bytes(32),
        is_word(r@),
{
    let r = zero_vec(32);
    r
}

/// The views of a sequence of byte vectors.
pub open spec fn views_of(s: Seq<Vec<u8>>) -> Seq<Seq<u8>> {
    s.map_values(|v: Vec<u8>| v@)
}

/// Byte-for-byte copy of a vector.
pub fn copy_bytes(src: &Vec<u8>) -> (r: Vec<u8>)
    ensures
        r@ == src@,
{
    let mut r: Vec<u8> = Vec::new();
    let mut i: usize = 0;
    while i < src.len()
        invariant
            i <= src.len(),
            r@ =~= src@.take(i as int),
        decreases src.len() - i,
    {
        r.push(src[i]);
        assert(r@ =~= src@.take(i as int + 1));
        i = i + 1;
    }
    assert(r@ =~= src@);
    r
}

/// Byte-for-byte equality of two vectors.
pub fn bytes_eq(a: &Vec<u8>, b: &Vec<u8>) -> (r: bool)
    ensures
        r == (a@ == b@),
{
    if a.len() != b.len() {
        assert(a@ != b@);
        return false;
    }
    let mut i: usize = 0;
    while i < a.len()
        invariant
            i <= a.len(),
            a.len() == b.len(),
            forall|j: int| 0 <= j < i ==> a@[j] == b@[j],
        decreases a.len() - i,
    {
        if a[i] != b[i] {
            return false;
        }
        i = i + 1;
    }
    assert(a@ =~= b@);
    true
}

/// An address extended to a 256-bit word by left-padding with zero bytes.
pub open spec fn address_to_word(a: Seq<u8>) -> Seq<u8> {
    zero_bytes(12) + a
}

/// Extends an address to a 256-bit numeric operand by left-padding with
/// twelve zero bytes.
pub fn address_into_u256(address: &Address) -> (r: Word)
    requires
        is_address(address@),
    ensures
        is_word(r@),
        r@ == address_to_word(address@),
{
    let mut r = zero_vec(12);
    let mut i: usize = 0;
    while i < address.len()
        invariant
            i <= address.len(),
            address@.len() == 20,
            r@ =~= zero_bytes(12) + address@.take(i as int),
        decreases address.len() - i,
    {
        r.push(address[i]);
        assert(r@ =~= zero_bytes(12) + address@.take(i as int + 1));
        i = i + 1;
    }
    assert(r@ =~= address_to_word(address@));
    r
}

/// The low 20 bytes of a word, read as an address.
pub open spec fn word_low_address(w: Seq<u8>) -> Seq<u8> {
    w.subrange(12, 32)
}

/// Reads the low 20 bytes of a 256-bit word as an address.
pub fn word_into_address(w: &Word) -> (r: Address)
    requires
        is_word(w@),
    ensures
        is_address(r@),
        r@ == word_low_address(w@),
{
    let mut r: Vec<u8> = Vec::new();
    let mut i: usize = 12;
    while i < 32
        invariant
            12 <= i <= 32,
            w@.len() == 32,
            r@ =~= w@.subrange(12, i as int),
        decreases 32 - i,
    {
        r.push(w[i]);
        assert(r@ =~= w@.subrange(12, i as int + 1));
        i = i + 1;
    }
    r
}

/// The big-endian 32-bit integer held in bytes `i .. i + 4`.
pub open spec fn be_u32_at(s: Seq<u8>, i: int) -> nat {
    (s[i] as nat) * 0x1000000 + (s[i + 1] as nat) * 0x10000 + (s[i + 2] as nat) * 0x100 + (s[i
        + 3] as nat)
}

/// The number of additional topics a first log record declares: the low
/// 32 bits of its key.
pub fn key_topic_count(key: &Word) -> (r: u32)
    requires
        is_word(key@),
    ensures
        r as nat == be_u32_at(key@, 28),
{
    (key[28] as u32) * 0x1000000 + (key[29] as u32) * 0x10000 + (key[30] as u32) * 0x100 + (
    key[31] as u32)
}

/// The total payload byte length a first log record declares: bits
/// 32 .. 64 of its key.
pub fn key_data_length(key: &Word) -> (r: u32)
    requires
        is_word(key@),
    ensures
        r as nat == be_u32_at(key@, 24),
{
    (key[24] as u32) * 0x1000000 + (key[25] as u32) * 0x10000 + (key[26] as u32) * 0x100 + (
    key[27] as u32)
}

/// The word with the given bits OR'ed into its lowest byte.
pub open spec fn or_low_bits(w: Seq<u8>, bits: u8) -> Seq<u8> {
    w.update(31, w[31] | bits)
}

/// OR's flag bits into the lowest byte of a word.
pub fn word_or_low_bits(w: &Word, bits: u8) -> (r: Word)
    requires
        is_word(w@),
    ensures
        is_word(r@),
        r@ == or_low_bits(w@, bits),
{
    let mut r = copy_bytes(w);
    let merged: u8 = r[31] | bits;
    r.set(31, merged);
    assert(r@ =~= or_low_bits(w@, bits));
    r
}

/// An address all of whose bytes but the lowest two are zero: such
/// addresses are reserved for protocol-defined system contracts.
pub open spec fn is_reserved_system_address(a: Seq<u8>) -> bool {
    forall|i: int| 0 <= i < 18 ==> a[i] == 0u8
}

/// Tests whether an address lies in the reserved system-contract range.
pub fn address_is_reserved(a: &Address) -> (r: bool)
    requires
        is_address(a@),
    ensures
        r == is_reserved_system_address(a@),
{
    let mut i: usize = 0;
    while i < 18
        invariant
            i <= 18,
            a@.len() == 20,
            forall|j: int| 0 <= j < i ==> a@[j] == 0u8,
        decreases 18 - i,
    {
        if a[i] != 0 {
            return false;
        }
        i = i + 1;
    }
    true
}

/// The reserved system deployer address: the account whose storage holds
/// the code hash deployed at each address.
pub open spec fn deployer_address_bytes() -> Seq<u8> {
    zero_bytes(18).push(0x80u8).push(0x02u8)
}

/// Builds the reserved system deployer address.
pub fn deployer_address() -> (r: Address)
    ensures
        is_address(r@),
        r@ == deployer_address_bytes(),
{
    let mut r = zero_vec(18);
    r.push(0x80u8);
    r.push(0x02u8);
    assert(r@ =~= deployer_address_bytes());
    r
}

/// The 256-bit word whose low 64 bits hold `v` big-endian and whose upper
/// bytes are zero.
pub open spec fn word_of_low_u64(v: u64) -> Seq<u8> {
    zero_bytes(24).push((v >> 56) as u8).push((v >> 48) as u8).push((v >> 40) as u8).push(
        (v >> 32) as u8,
    ).push((v >> 24) as u8).push((v >> 16) as u8).push((v >> 8) as u8).push(v as u8)
}

/// Builds the word holding `v` in its low 64 bits.
pub fn word_from_low_u64(v: u64) -> (r: Word)
    ensures
        is_word(r@),
        r@ == word_of_low_u64(v),
{
    let mut r = zero_vec(24);
    r.push((v >> 56) as u8);
    r.push((v >> 48) as u8);
    r.push((v >> 40) as u8);
    r.push((v >> 32) as u8);
    r.push((v >> 24) as u8);
    r.push((v >> 16) as u8);
    r.push((v >> 8) as u8);
    r.push(v as u8);
    assert(r@ =~= word_of_low_u64(v));
    r
}

} // verus!
