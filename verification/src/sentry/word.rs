//! Machine words of the tracee (x86-64: 64 bits, little-endian) and their
//! bytes.
use vstd::prelude::*;
use vstd::arithmetic::div_mod::{lemma_fundamental_div_mod, lemma_fundamental_div_mod_converse};

verus! {

/// A machine word of the tracee.
pub type Word = u64;

/// `256^n`.
pub open spec fn pow256(n: nat) -> nat
    decreases n,
{
    if n == 0 {
        1
    } else {
        256 * pow256((n - 1) as nat)
    }
}

/// The number that the bytes `b` encode in little-endian order.
pub open spec fn le_value(b: Seq<u8>) -> int
    decreases b.len(),
{
    if b.len() == 0 {
        0
    } else {
        b[0] + 256 * le_value(b.drop_first())
    }
}

/// The `n` low bytes of `w`, least significant first.
pub open spec fn le_bytes(w: nat, n: nat) -> Seq<u8>
    decreases n,
{
    if n == 0 {
        Seq::<u8>::empty()
    } else {
        seq![(w % 256) as u8] + le_bytes(w / 256, (n - 1) as nat)
    }
}

/// The eight bytes of a word, as they lie in the tracee's memory.
pub open spec fn word_bytes(w: Word) -> Seq<u8> {
    le_bytes(w as nat, 8)
}

/// `256^8` is `2^64`.
pub proof fn lemma_pow256_8()
    ensures
        pow256(8) == 0x1_0000_0000_0000_0000nat,
{
    reveal_with_fuel(pow256, 9);
}

/// `le_bytes(w, n)` has `n` bytes.
pub proof fn lemma_le_bytes_len(w: nat, n: nat)
    ensures
        le_bytes(w, n).len() == n,
    decreases n,
{
    if n > 0 {
        lemma_le_bytes_len(w / 256, (n - 1) as nat);
    }
}

/// Little-endian bytes encode a number below `256^len`.
pub proof fn lemma_le_value_bound(b: Seq<u8>)
    ensures
        0 <= le_value(b) < pow256(b.len()),
    decreases b.len(),
{
    if b.len() > 0 {
        lemma_le_value_bound(b.drop_first());
    }
}

/// Encoding a number below `256^n` in `n` bytes and decoding gives it back.
pub proof fn lemma_le_bytes_value(w: nat, n: nat)
    requires
        w < pow256(n),
    ensures
        le_bytes(w, n).len() == n,
        le_value(le_bytes(w, n)) == w,
    decreases n,
{
    if n > 0 {
        let p = pow256((n - 1) as nat);
        assert(w / 256 < p) by (nonlinear_arith)
            requires
                w < 256 * p,
        ;
        lemma_le_bytes_value(w / 256, (n - 1) as nat);
        lemma_fundamental_div_mod(w as int, 256);
        let s = le_bytes(w, n);
        assert(s.drop_first() =~= le_bytes(w / 256, (n - 1) as nat));
        assert(s[0] == (w % 256) as u8);
    }
}

/// Decoding `n` bytes and encoding the number again gives the bytes back.
pub proof fn lemma_value_le_bytes(b: Seq<u8>)
    ensures
        le_bytes(le_value(b) as nat, b.len()) == b,
    decreases b.len(),
{
    if b.len() > 0 {
        let rest = b.drop_first();
        lemma_value_le_bytes(rest);
        lemma_le_value_bound(rest);
        let x = le_value(b);
        lemma_fundamental_div_mod_converse(x, 256, le_value(rest), b[0] as int);
        assert(le_bytes(x as nat, b.len()) =~= b);
    }
}

/// Eight little-endian bytes, spelled out.
pub proof fn lemma_le_value_8(b: Seq<u8>)
    requires
        b.len() == 8,
    ensures
        le_value(b) == b[0] + 256 * b[1] + 0x1_0000 * b[2] + 0x100_0000 * b[3] + 0x1_0000_0000 * b[4]
            + 0x100_0000_0000 * b[5] + 0x1_0000_0000_0000 * b[6] + 0x100_0000_0000_0000 * b[7],
{
    let b1 = b.drop_first();
    let b2 = b1.drop_first();
    let b3 = b2.drop_first();
    let b4 = b3.drop_first();
    let b5 = b4.drop_first();
    let b6 = b5.drop_first();
    let b7 = b6.drop_first();
    let b8 = b7.drop_first();
    assert(b8.len() == 0);
    assert(le_value(b8) == 0);
    assert(le_value(b7) == b[7] + 256 * le_value(b8));
    assert(le_value(b6) == b[6] + 256 * le_value(b7));
    assert(le_value(b5) == b[5] + 256 * le_value(b6));
    assert(le_value(b4) == b[4] + 256 * le_value(b5));
    assert(le_value(b3) == b[3] + 256 * le_value(b4));
    assert(le_value(b2) == b[2] + 256 * le_value(b3));
    assert(le_value(b1) == b[1] + 256 * le_value(b2));
    assert(le_value(b) == b[0] + 256 * le_value(b1));
}

/// The bytes of a word, least significant first (the word as it lies in
/// the tracee's memory).
pub fn convert_word_to_bytes(value_to_convert: Word) -> (b: [u8; 8])
    ensures
        b@ == word_bytes(value_to_convert),
        le_value(b@) == value_to_convert,
{
    let mut x = value_to_convert;
    let b0 = (x % 256) as u8;
    x = x / 256;
    let b1 = (x % 256) as u8;
    x = x / 256;
    let b2 = (x % 256) as u8;
    x = x / 256;
    let b3 = (x % 256) as u8;
    x = x / 256;
    let b4 = (x % 256) as u8;
    x = x / 256;
    let b5 = (x % 256) as u8;
    x = x / 256;
    let b6 = (x % 256) as u8;
    x = x / 256;
    let b7 = (x % 256) as u8;
    let b = [b0, b1, b2, b3, b4, b5, b6, b7];
    proof {
        let w = value_to_convert as nat;
        reveal_with_fuel(le_bytes, 9);
        assert(b@ =~= word_bytes(value_to_convert));
        lemma_pow256_8();
        lemma_le_bytes_value(w, 8);
    }
    b
}

/// The word whose bytes, least significant first, are `value_to_convert`.
pub fn convert_bytes_to_word(value_to_convert: [u8; 8]) -> (w: Word)
    ensures
        w == le_value(value_to_convert@),
        word_bytes(w) == value_to_convert@,
{
    let b = value_to_convert;
    let mut w: u64 = b[7] as u64;
    w = w * 256 + b[6] as u64;
    w = w * 256 + b[5] as u64;
    w = w * 256 + b[4] as u64;
    w = w * 256 + b[3] as u64;
    w = w * 256 + b[2] as u64;
    w = w * 256 + b[1] as u64;
    w = w * 256 + b[0] as u64;
    proof {
        lemma_le_value_8(b@);
        lemma_value_le_bytes(b@);
    }
    w
}

} // verus!
