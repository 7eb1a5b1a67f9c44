//! The Fletcher-32 variant that directory headers carry.

use vstd::prelude::*;

use crate::wire::{le16, read_le16};

verus! {

/// The two halves of a sum added up.
pub open spec fn folded(sum: u32) -> u32 {
    (sum % 0x1_0000 + sum / 0x1_0000) as u32
}

/// Both sums after the word `w`; `fold` tells whether they are folded then.
pub open spec fn after_word(sums: (u32, u32), w: u32, fold: bool) -> (u32, u32) {
    let c0 = sums.0.wrapping_add(w);
    let c1 = sums.1.wrapping_add(c0);
    if fold {
        (folded(c0), folded(c1))
    } else {
        (c0, c1)
    }
}

/// Both sums after the first `words` 16-bit words of `data`. The sums start
/// at `0xFFFF` and are folded after word 0 and every 360 words from there.
pub open spec fn sums_after(data: Seq<u8>, words: nat) -> (u32, u32)
    decreases words,
{
    if words == 0 {
        (0xFFFF, 0xFFFF)
    } else {
        let i = (words - 1) as nat;
        after_word(sums_after(data, i), le16(data, 2 * i as int) as u32, i % 360 == 0)
    }
}

/// Both sums after all of `data`, where an odd last byte is a word of its own.
pub open spec fn total_sums(data: Seq<u8>) -> (u32, u32) {
    let sums = sums_after(data, data.len() / 2);
    if data.len() % 2 == 1 {
        after_word(sums, data.last() as u32, false)
    } else {
        sums
    }
}

/// The checksum of `data`: the second sum in the high half, the first in the
/// low half, each folded twice.
pub open spec fn checksum(data: Seq<u8>) -> u32 {
    let sums = total_sums(data);
    (folded(folded(sums.1)) * 0x1_0000 + folded(folded(sums.0))) as u32
}

fn fold(sum: u32) -> (r: u32)
    ensures
        r == folded(sum),
{
    sum % 0x1_0000 + sum / 0x1_0000
}

/// The checksum of a directory body, which starts at the `count` field.
pub fn fletcher32(data: &[u8]) -> (r: u32)
    ensures
        r == checksum(data@),
{
    let mut c0: u32 = 0xFFFF;
    let mut c1: u32 = 0xFFFF;
    let words: usize = data.len() / 2;
    let mut i: usize = 0;
    while i < words
        invariant
            i <= words,
            words == data@.len() / 2,
            data@.len() <= usize::MAX,
            (c0, c1) == sums_after(data@, i as nat),
        decreases words - i,
    {
        let w: u32 = read_le16(data, 2 * i) as u32;
        c0 = c0.wrapping_add(w);
        c1 = c1.wrapping_add(c0);
        if i % 360 == 0 {
            c0 = fold(c0);
            c1 = fold(c1);
        }
        i += 1;
    }
    if data.len() % 2 == 1 {
        let w: u32 = data[data.len() - 1] as u32;
        c0 = c0.wrapping_add(w);
        c1 = c1.wrapping_add(c0);
    }
    proof {
        lemma_folded_twice_fits(c0);
        lemma_folded_twice_fits(c1);
    }
    fold(fold(c1)) * 0x1_0000 + fold(fold(c0))
}

/// A sum that was folded twice fits in 16 bits.
pub proof fn lemma_folded_twice_fits(sum: u32)
    ensures
        folded(folded(sum)) <= 0xFFFF,
{
}

/// The checksum of nothing is the start value of both sums.
pub proof fn lemma_checksum_of_nothing()
    ensures
        checksum(Seq::empty()) == 0xFFFF_FFFF,
{
}

/// The two halves of the checksum are the two sums, each folded twice.
pub proof fn lemma_checksum_halves(data: Seq<u8>)
    ensures
        checksum(data) / 0x1_0000 == folded(folded(total_sums(data).1)),
        checksum(data) % 0x1_0000 == folded(folded(total_sums(data).0)),
{
    lemma_folded_twice_fits(total_sums(data).0);
    lemma_folded_twice_fits(total_sums(data).1);
}

/// The number of 16-bit words in `data`; an odd last byte is one of its own.
pub open spec fn word_count(data: Seq<u8>) -> nat {
    (data.len() + 1) / 2
}

/// Word `i` of `data`.
pub open spec fn word_at(data: Seq<u8>, i: int) -> int {
    if 2 * i + 1 < data.len() {
        le16(data, 2 * i) as int
    } else {
        data.last() as int
    }
}

/// The sum of the first `n` words.
pub open spec fn word_sum(data: Seq<u8>, n: nat) -> int
    decreases n,
{
    if n == 0 {
        0
    } else {
        word_sum(data, (n - 1) as nat) + word_at(data, n - 1)
    }
}

/// The sum of the sums of the first word, of the first two, and so on up to
/// the first `n`.
pub open spec fn sum_of_sums(data: Seq<u8>, n: nat) -> int
    decreases n,
{
    if n == 0 {
        0
    } else {
        sum_of_sums(data, (n - 1) as nat) + word_sum(data, n)
    }
}

/// The remainder by 65535, where 65535 stands for zero.
pub open spec fn residue(n: int) -> int {
    if n % 0xFFFF == 0 {
        0xFFFF
    } else {
        n % 0xFFFF
    }
}

/// Whether a sum stands for `n`: it is not zero, and both leave the same
/// remainder by 65535.
spec fn stands_for(sum: int, n: int) -> bool {
    sum > 0 && sum % 0xFFFF == n % 0xFFFF
}

/// Whether both sums stand for those of the first `n` words and are as small
/// as they are `j` words after they were folded.
#[verifier::opaque]
spec fn in_step(sums: (u32, u32), data: Seq<u8>, n: nat, j: int) -> bool {
    &&& stands_for(sums.0 as int, word_sum(data, n))
    &&& stands_for(sums.1 as int, sum_of_sums(data, n))
    &&& sums.0 <= 65896 + 0xFFFF * j
    &&& 2 * sums.1 <= 262140 + 131792 * j + 0xFFFF * (j * (j + 1))
}

proof fn lemma_folded_stands_for(sum: u32, n: int)
    requires
        stands_for(sum as int, n),
    ensures
        stands_for(folded(sum) as int, n),
{
    let low = sum as int % 0x1_0000;
    let high = sum as int / 0x1_0000;
    assert(sum == low + high + 0xFFFF * high);
    vstd::arithmetic::div_mod::lemma_mod_multiples_vanish(high, low + high, 0xFFFF);
}

proof fn lemma_stands_for_sum(a: int, n: int, b: int, m: int)
    requires
        stands_for(a, n),
        b >= 0,
        b % 0xFFFF == m % 0xFFFF,
    ensures
        stands_for(a + b, n + m),
{
    vstd::arithmetic::div_mod::lemma_add_mod_noop(a, b, 0xFFFF);
    vstd::arithmetic::div_mod::lemma_add_mod_noop(n, m, 0xFFFF);
}

proof fn lemma_plain_word(sums: (u32, u32), data: Seq<u8>, n: nat, j: int, w: u32)
    requires
        in_step(sums, data, n, j),
        0 <= j < 360,
        w <= 0xFFFF,
        w == word_at(data, n as int),
    ensures
        in_step(after_word(sums, w, false), data, n + 1, j + 1),
{
    reveal(in_step);
    assert(j * (j + 1) <= 359 * 360) by (nonlinear_arith)
        requires
            0 <= j < 360,
    ;
    let c0 = sums.0 + w;
    let c1 = sums.1 + c0;
    assert((j + 1) * (j + 2) == j * (j + 1) + 2 * (j + 1)) by (nonlinear_arith);
    assert(sums.0.wrapping_add(w) == c0);
    assert(sums.1.wrapping_add(c0 as u32) == c1);
    lemma_stands_for_sum(sums.0 as int, word_sum(data, n), w as int, w as int);
    assert(word_sum(data, n + 1) == word_sum(data, n) + w);
    lemma_stands_for_sum(sums.1 as int, sum_of_sums(data, n), c0, word_sum(data, n + 1));
    assert(sum_of_sums(data, n + 1) == sum_of_sums(data, n) + word_sum(data, n + 1));
}

proof fn lemma_fold_in_step(sums: (u32, u32), data: Seq<u8>, n: nat)
    requires
        in_step(sums, data, n, 360),
    ensures
        in_step((folded(sums.0), folded(sums.1)), data, n, 0),
{
    reveal(in_step);
    lemma_folded_stands_for(sums.0, word_sum(data, n));
    lemma_folded_stands_for(sums.1, sum_of_sums(data, n));
}

/// How many words after the last fold the sums of the first `n` words are. At
/// the start they are as far as they get.
spec fn since_fold(n: nat) -> int {
    (n + 359) as int % 360
}

proof fn lemma_since_fold(i: nat)
    ensures
        0 <= since_fold(i) < 360,
        i % 360 == 0 ==> since_fold(i) == 359 && since_fold(i + 1) == 0,
        i % 360 != 0 ==> since_fold(i + 1) == since_fold(i) + 1,
{
}

proof fn lemma_sums(data: Seq<u8>, n: nat)
    requires
        n <= data.len() / 2,
    ensures
        in_step(sums_after(data, n), data, n, since_fold(n)),
    decreases n,
{
    if n == 0 {
        reveal(in_step);
        assert(since_fold(0) == 359);
        assert(0xFFFFint % 0xFFFF == 0);
    } else {
        let i = (n - 1) as nat;
        let sums = sums_after(data, i);
        let w = le16(data, 2 * i as int) as u32;
        lemma_sums(data, i);
        lemma_since_fold(i);
        assert(w == word_at(data, i as int));
        lemma_plain_word(sums, data, i, since_fold(i), w);
        if i % 360 == 0 {
            lemma_fold_in_step(after_word(sums, w, false), data, n);
        }
        assert(sums_after(data, n) == after_word(sums, w, i % 360 == 0));
    }
}

proof fn lemma_total_sums(data: Seq<u8>)
    ensures
        stands_for(total_sums(data).0 as int, word_sum(data, word_count(data))),
        stands_for(total_sums(data).1 as int, sum_of_sums(data, word_count(data))),
{
    reveal(in_step);
    let words = data.len() / 2;
    lemma_sums(data, words);
    if data.len() % 2 == 1 {
        lemma_since_fold(words);
        assert(word_at(data, words as int) == data.last());
        lemma_plain_word(
            sums_after(data, words),
            data,
            words,
            since_fold(words),
            data.last() as u32,
        );
        assert(word_count(data) == words + 1);
    } else {
        assert(word_count(data) == words);
    }
}

proof fn lemma_folded_to_residue(sum: u32, n: int)
    requires
        stands_for(sum as int, n),
    ensures
        folded(folded(sum)) == residue(n),
{
    lemma_folded_twice_fits(sum);
    lemma_folded_stands_for(sum, n);
    lemma_folded_stands_for(folded(sum), n);
}

/// The checksum for data of any length: the low half is the sum of the words
/// modulo 65535, the high half is the sum of their running sums modulo 65535,
/// and 65535 stands for zero in both.
pub proof fn lemma_checksum_is_residues(data: Seq<u8>)
    ensures
        checksum(data) % 0x1_0000 == residue(word_sum(data, word_count(data))),
        checksum(data) / 0x1_0000 == residue(sum_of_sums(data, word_count(data))),
{
    lemma_checksum_halves(data);
    lemma_total_sums(data);
    let n = word_count(data);
    lemma_folded_to_residue(total_sums(data).0, word_sum(data, n));
    lemma_folded_to_residue(total_sums(data).1, sum_of_sums(data, n));
}

} // verus!
