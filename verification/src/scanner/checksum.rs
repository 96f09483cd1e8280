//! The Internet checksum (RFC 1071): the ones' complement of the ones'
//! complement sum of big-endian 16-bit words.

use vstd::prelude::*;
use vstd::arithmetic::div_mod::{lemma_fundamental_div_mod, lemma_mod_multiples_vanish};

verus! {

/// The big-endian 16-bit word number `i` of `s` (bytes `2i` and `2i + 1`).
pub open spec fn be_word(s: Seq<u8>, i: int) -> nat {
    (s[2 * i] * 0x100 + s[2 * i + 1]) as nat
}

/// The sum of the first `n` big-endian words of `s`, leaving word `skip` out
/// (a `skip` outside `0 .. n` leaves none out).
pub open spec fn word_sum(s: Seq<u8>, n: nat, skip: int) -> nat
    decreases n,
{
    if n == 0 {
        0
    } else {
        word_sum(s, (n - 1) as nat, skip) + if n - 1 == skip {
            0nat
        } else {
            be_word(s, n - 1)
        }
    }
}

/// Adding the carries out of the low 16 bits back in makes the sum smaller.
pub proof fn lemma_fold_step(x: nat)
    requires
        x >= 0x1_0000,
    ensures
        x / 0x1_0000 + x % 0x1_0000 < x,
        x == (x / 0x1_0000 + x % 0x1_0000) + 0xffff * (x / 0x1_0000),
{
    lemma_fundamental_div_mod(x as int, 0x1_0000);
    let q = x / 0x1_0000;
    let r = x % 0x1_0000;
    assert(q >= 1) by (nonlinear_arith)
        requires
            x == 0x1_0000 * q + r,
            r < 0x1_0000,
            x >= 0x1_0000,
    {
    }
}

/// The sum folded into 16 bits: while it has carries out of the low 16
/// bits, they are added back in.
pub open spec fn fold_carries(x: nat) -> nat
    decreases x,
{
    if x < 0x1_0000 {
        x
    } else {
        proof {
            lemma_fold_step(x);
        }
        fold_carries((x / 0x1_0000 + x % 0x1_0000) as nat)
    }
}

/// The checksum of a word sum: the complement of the folded sum.
pub open spec fn checksum_of_sum(sum: nat) -> u16 {
    (0xffff - fold_carries(sum)) as u16
}

/// Folding keeps the sum's value modulo `0xffff`, fits in 16 bits, and
/// keeps a nonzero sum nonzero.
pub proof fn lemma_fold(x: nat)
    ensures
        fold_carries(x) < 0x1_0000,
        fold_carries(x) % 0xffff == x % 0xffff,
        x > 0 ==> fold_carries(x) > 0,
    decreases x,
{
    if x >= 0x1_0000 {
        lemma_fold_step(x);
        let y = (x / 0x1_0000 + x % 0x1_0000) as nat;
        lemma_fold(y);
        lemma_mod_multiples_vanish((x / 0x1_0000) as int, y as int, 0xffff);
    }
}

/// Adding its own checksum to a sum gives all ones once folded: the check a
/// receiver makes on the finished header.
pub proof fn lemma_sum_with_checksum(s: nat)
    ensures
        fold_carries((s + checksum_of_sum(s)) as nat) == 0xffff,
{
    lemma_fold(s);
    let f = fold_carries(s);
    let y = (s + (0xffff - f)) as nat;
    assert(checksum_of_sum(s) == 0xffff - f);
    lemma_fundamental_div_mod(s as int, 0xffff);
    lemma_fundamental_div_mod(f as int, 0xffff);
    let k = s / 0xffff - f / 0xffff + 1;
    assert(y == 0xffff * k) by (nonlinear_arith)
        requires
            s == 0xffff * (s / 0xffff) + s % 0xffff,
            f == 0xffff * (f / 0xffff) + f % 0xffff,
            s % 0xffff == f % 0xffff,
            y == s + 0xffff - f,
            k == s / 0xffff - f / 0xffff + 1,
    {
    }
    lemma_mod_multiples_vanish(k, 0, 0xffff);
    assert(y > 0);
    lemma_fold(y);
    let g = fold_carries(y);
    lemma_fundamental_div_mod(g as int, 0xffff);
    assert(g == 0xffff) by (nonlinear_arith)
        requires
            g == 0xffff * (g / 0xffff) + g % 0xffff,
            g % 0xffff == 0,
            0 < g < 0x1_0000,
    {
    }
}

/// Word sums skipping `skip` do not depend on that word.
pub proof fn lemma_word_sum_frame(s: Seq<u8>, t: Seq<u8>, n: nat, skip: int)
    requires
        forall|w: int| 0 <= w < n && w != skip ==> be_word(s, w) == be_word(t, w),
    ensures
        word_sum(s, n, skip) == word_sum(t, n, skip),
    decreases n,
{
    if n > 0 {
        lemma_word_sum_frame(s, t, (n - 1) as nat, skip);
    }
}

/// The full word sum is the sum skipping one word, plus that word.
pub proof fn lemma_word_sum_split(s: Seq<u8>, n: nat, skip: int)
    requires
        0 <= skip < n,
    ensures
        word_sum(s, n, -1) == word_sum(s, n, skip) + be_word(s, skip),
    decreases n,
{
    if n - 1 > skip {
        lemma_word_sum_split(s, (n - 1) as nat, skip);
    } else {
        lemma_word_sum_frame(s, s, (n - 1) as nat, -1);
        lemma_word_sum_same(s, (n - 1) as nat, skip);
    }
}

/// Skipping a word past the end is skipping none.
proof fn lemma_word_sum_same(s: Seq<u8>, n: nat, skip: int)
    requires
        skip >= n,
    ensures
        word_sum(s, n, skip) == word_sum(s, n, -1),
    decreases n,
{
    if n > 0 {
        lemma_word_sum_same(s, (n - 1) as nat, skip);
    }
}

} // verus!
