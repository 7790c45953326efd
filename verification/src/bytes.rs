use vstd::prelude::*;
use vstd::slice::slice_subrange;

verus! {

/// The unsigned number that `width` bytes at the front of `s` spell, most
/// significant byte first.
pub open spec fn be_uint(s: Seq<u8>, width: nat) -> nat
    decreases width,
{
    if width == 0 {
        0
    } else {
        be_uint(s, (width - 1) as nat) * 256 + s[width - 1] as nat
    }
}

/// The two's-complement reading of an unsigned number whose sign bit weighs `half`.
pub open spec fn as_signed(v: nat, half: nat) -> int {
    if v >= half {
        v - 2 * half
    } else {
        v as int
    }
}

/// The big-endian `u16` at the front of `s`.
pub open spec fn be_u16_at(s: Seq<u8>) -> u16 {
    be_uint(s, 2) as u16
}

/// The big-endian `u32` at the front of `s`.
pub open spec fn be_u32_at(s: Seq<u8>) -> u32 {
    be_uint(s, 4) as u32
}

/// The big-endian `u64` at the front of `s`.
pub open spec fn be_u64_at(s: Seq<u8>) -> u64 {
    be_uint(s, 8) as u64
}

/// The big-endian two's-complement `i32` at the front of `s`.
pub open spec fn be_i32_at(s: Seq<u8>) -> i32 {
    as_signed(be_uint(s, 4), 0x8000_0000) as i32
}

/// The big-endian two's-complement `i64` at the front of `s`.
pub open spec fn be_i64_at(s: Seq<u8>) -> i64 {
    as_signed(be_uint(s, 8), 0x8000_0000_0000_0000) as i64
}

/// A big-endian number of `width` bytes is below `256^width`; the bounds for
/// the widths in use are spelled out.
pub proof fn lemma_be_uint_bounds(s: Seq<u8>)
    ensures
        be_uint(s, 2) < 0x1_0000,
        be_uint(s, 4) < 0x1_0000_0000,
        be_uint(s, 8) < 0x1_0000_0000_0000_0000,
{
    reveal_with_fuel(be_uint, 9);
}

/// Reads a big-endian `u16` from the two bytes starting at `at`.
pub(crate) fn read_be_u16(input: &[u8], at: usize) -> (v: u16)
    requires
        at + 2 <= input@.len(),
    ensures
        v == be_u16_at(input@.skip(at as int)),
{
    proof {
        reveal_with_fuel(be_uint, 3);
    }
    let hi: u16 = input[at] as u16;
    let lo: u16 = input[at + 1] as u16;
    hi * 256 + lo
}

/// Reads a big-endian `u32` from the four bytes starting at `at`.
pub(crate) fn read_be_u32(input: &[u8], at: usize) -> (v: u32)
    requires
        at + 4 <= input@.len(),
    ensures
        v == be_u32_at(input@.skip(at as int)),
{
    proof {
        reveal_with_fuel(be_uint, 5);
    }
    let b0: u32 = input[at] as u32;
    let b1: u32 = input[at + 1] as u32;
    let b2: u32 = input[at + 2] as u32;
    let b3: u32 = input[at + 3] as u32;
    ((b0 * 256 + b1) * 256 + b2) * 256 + b3
}

/// Reads a big-endian `u64` from the eight bytes starting at `at`.
pub(crate) fn read_be_u64(input: &[u8], at: usize) -> (v: u64)
    requires
        at + 8 <= input@.len(),
    ensures
        v == be_u64_at(input@.skip(at as int)),
{
    proof {
        reveal_with_fuel(be_uint, 9);
        assert(input.len() == input@.len());
    }
    let hi: u64 = read_be_u32(input, at) as u64;
    let lo: u64 = read_be_u32(input, at + 4) as u64;
    proof {
        let s = input@.skip(at as int);
        let t = input@.skip(at as int + 4);
        assert(forall|i: int| 0 <= i < 4 ==> t[i] == s[i + 4]);
        lemma_be_uint_bounds(s);
        lemma_be_uint_bounds(t);
    }
    hi * 0x1_0000_0000 + lo
}

/// Reads a big-endian two's-complement `i32` from the four bytes starting at `at`.
pub(crate) fn read_be_i32(input: &[u8], at: usize) -> (v: i32)
    requires
        at + 4 <= input@.len(),
    ensures
        v == be_i32_at(input@.skip(at as int)),
{
    proof {
        lemma_be_uint_bounds(input@.skip(at as int));
    }
    let u: u32 = read_be_u32(input, at);
    if u >= 0x8000_0000 {
        let low: i32 = (u - 0x8000_0000) as i32;
        low + i32::MIN
    } else {
        u as i32
    }
}

/// Reads a big-endian two's-complement `i64` from the eight bytes starting at `at`.
pub(crate) fn read_be_i64(input: &[u8], at: usize) -> (v: i64)
    requires
        at + 8 <= input@.len(),
    ensures
        v == be_i64_at(input@.skip(at as int)),
{
    proof {
        lemma_be_uint_bounds(input@.skip(at as int));
    }
    let u: u64 = read_be_u64(input, at);
    if u >= 0x8000_0000_0000_0000 {
        let low: i64 = (u - 0x8000_0000_0000_0000) as i64;
        low + i64::MIN
    } else {
        u as i64
    }
}

/// Whether `b` is an ASCII letter, upper or lower case.
pub open spec fn is_ascii_letter(b: u8) -> bool {
    (0x41 <= b && b <= 0x5a) || (0x61 <= b && b <= 0x7a)
}

/// The index at which the run of ASCII letters that starts at `from` ends:
/// the first position at or after `from` that holds no letter, or the length
/// of `s` when letters run to the end.
pub open spec fn letters_end(s: Seq<u8>, from: int) -> int
    decreases s.len() - from,
{
    if 0 <= from < s.len() && is_ascii_letter(s[from]) {
        letters_end(s, from + 1)
    } else {
        from
    }
}

/// The index of the first NUL byte at or after `from`, or the length of `s`
/// when there is none.
pub open spec fn nul_index(s: Seq<u8>, from: int) -> int
    decreases s.len() - from,
{
    if 0 <= from < s.len() && s[from] != 0 {
        nul_index(s, from + 1)
    } else {
        from
    }
}

/// `letters_end` marks a run: only letters before it, no letter at it.
pub proof fn lemma_letters_end(s: Seq<u8>, from: int)
    requires
        0 <= from <= s.len(),
    ensures
        from <= letters_end(s, from) <= s.len(),
        forall|i: int| from <= i < letters_end(s, from) ==> is_ascii_letter(#[trigger] s[i]),
        letters_end(s, from) < s.len() ==> !is_ascii_letter(s[letters_end(s, from)]),
    decreases s.len() - from,
{
    if from < s.len() && is_ascii_letter(s[from]) {
        lemma_letters_end(s, from + 1);
    }
}

/// A run of letters ends where the first byte that is no letter stands.
pub proof fn lemma_letters_end_is(s: Seq<u8>, from: int, end: int)
    requires
        0 <= from <= end <= s.len(),
        forall|i: int| from <= i < end ==> is_ascii_letter(#[trigger] s[i]),
        end < s.len() ==> !is_ascii_letter(s[end]),
    ensures
        letters_end(s, from) == end,
    decreases end - from,
{
    if from < end {
        lemma_letters_end_is(s, from + 1, end);
    }
}

/// `nul_index` marks the first NUL: none before it, one at it unless it is the end.
pub proof fn lemma_nul_index(s: Seq<u8>, from: int)
    requires
        0 <= from <= s.len(),
    ensures
        from <= nul_index(s, from) <= s.len(),
        forall|i: int| from <= i < nul_index(s, from) ==> #[trigger] s[i] != 0,
        nul_index(s, from) < s.len() ==> s[nul_index(s, from)] == 0,
    decreases s.len() - from,
{
    if from < s.len() && s[from] != 0 {
        lemma_nul_index(s, from + 1);
    }
}

/// Walks over the ASCII letters that start at `from` and returns where they end.
pub(crate) fn scan_letters(input: &[u8], from: usize) -> (end: usize)
    requires
        from <= input@.len(),
    ensures
        end == letters_end(input@, from as int),
        from <= end <= input@.len(),
{
    let mut i: usize = from;
    while i < input.len() && ((0x41 <= input[i] && input[i] <= 0x5a) || (0x61 <= input[i]
        && input[i] <= 0x7a))
        invariant
            from <= i <= input@.len(),
            letters_end(input@, from as int) == letters_end(input@, i as int),
        decreases input@.len() - i,
    {
        i = i + 1;
    }
    i
}

/// Walks to the first NUL byte at or after `from`; the length of `input`
/// comes back when there is none.
pub(crate) fn find_nul(input: &[u8], from: usize) -> (at: usize)
    requires
        from <= input@.len(),
    ensures
        at == nul_index(input@, from as int),
        from <= at <= input@.len(),
{
    let mut i: usize = from;
    while i < input.len() && input[i] != 0
        invariant
            from <= i <= input@.len(),
            nul_index(input@, from as int) == nul_index(input@, i as int),
        decreases input@.len() - i,
    {
        i = i + 1;
    }
    i
}

/// The part of `input` from `from` on.
pub(crate) fn tail_from<'a>(input: &'a [u8], from: usize) -> (rest: &'a [u8])
    requires
        from <= input@.len(),
    ensures
        rest@ == input@.skip(from as int),
{
    slice_subrange(input, from, input.len())
}

} // verus!
