//! Strings in the tracee's memory, which ptrace reads and writes one word
//! at a time: what a word read contributes to a string, and the words that
//! write a string.
use vstd::prelude::*;
use crate::path::{copy_bytes, copy_range};
use crate::sentry::error::{Error, IoErrorKind, Result};
use vstd::arithmetic::div_mod::lemma_fundamental_div_mod;
use crate::sentry::word::{
    Word, le_value, word_bytes, convert_word_to_bytes, convert_bytes_to_word,
    lemma_le_value_bound, lemma_value_le_bytes, lemma_pow256_8, lemma_le_bytes_len,
};

verus! {

/// The longest path (in bytes, with its terminating zero) that a tracee
/// may name (Linux's `PATH_MAX`).
pub const PATH_MAX: usize = 4096usize;

/// The bytes of a word.
pub const WORD_SIZE: usize = 8usize;

/// The index of the first zero byte of `s`, if any.
pub open spec fn first_zero(s: Seq<u8>) -> Option<int>
    decreases s.len(),
{
    if s.len() == 0 {
        None
    } else if s[0] == 0 {
        Some(0)
    } else {
        match first_zero(s.drop_first()) {
            None => None,
            Some(k) => Some(k + 1),
        }
    }
}

/// Reading a string word by word: the bytes so far and whether its
/// terminating zero was met; a word read adds its bytes up to the first
/// zero, and nothing once the zero was met.
pub open spec fn read_step(st: (Seq<u8>, bool), w: Word) -> (Seq<u8>, bool) {
    if st.1 {
        st
    } else {
        let l = word_bytes(w);
        match first_zero(l) {
            Some(k) => (st.0 + l.take(k), true),
            None => (st.0 + l, false),
        }
    }
}

/// Reading a string from the words `ws`, in order.
pub open spec fn read_words(ws: Seq<Word>) -> (Seq<u8>, bool)
    decreases ws.len(),
{
    if ws.len() == 0 {
        (Seq::<u8>::empty(), false)
    } else {
        read_step(read_words(ws.drop_last()), ws.last())
    }
}

/// The bytes of the words `ws`, in order, as they lie in the tracee's
/// memory.
pub open spec fn words_bytes(ws: Seq<Word>) -> Seq<u8>
    decreases ws.len(),
{
    if ws.len() == 0 {
        Seq::<u8>::empty()
    } else {
        words_bytes(ws.drop_last()) + word_bytes(ws.last())
    }
}

/// The string that memory holding the bytes `m` holds: the bytes before its
/// first zero, complete; or, without a zero, all of `m`, not yet complete.
pub open spec fn string_in(m: Seq<u8>) -> (Seq<u8>, bool) {
    match first_zero(m) {
        Some(k) => (m.take(k), true),
        None => (m, false),
    }
}

/// Adds to `bytes` what the word `word`, read from the tracee, contributes
/// to a string (see `read_step`); says whether the string ended in it.
pub fn read_string_step(bytes: &mut Vec<u8>, word: Word) -> (done: bool)
    ensures
        (final(bytes)@, done) == read_step((old(bytes)@, false), word),
{
    let letters = convert_word_to_bytes(word);
    let ghost l = word_bytes(word);
    let ghost start = bytes@;
    let mut j: usize = 0;
    while j < WORD_SIZE
        invariant
            j <= 8,
            letters@ == l,
            l == word_bytes(word),
            start == old(bytes)@,
            l.len() == 8,
            bytes@ == start + l.take(j as int),
            forall|t: int| 0 <= t < j ==> l[t] != 0,
        decreases WORD_SIZE - j,
    {
        let letter = letters[j];
        if letter == 0 {
            proof {
                lemma_first_zero_at(l, j as int);
            }
            return true;
        }
        bytes.push(letter);
        j = j + 1;
        assert(bytes@ =~= start + l.take(j as int));
    }
    proof {
        lemma_no_zero(l);
        assert(l.take(8) =~= l);
    }
    false
}

/// The number of whole words that a string of at most `max_size` bytes
/// spans.
pub fn read_string_words(max_size: usize) -> (n: usize)
    ensures
        n == max_size / 8,
{
    let nb_trailing_bytes = max_size % WORD_SIZE;
    (max_size - nb_trailing_bytes) / WORD_SIZE
}

/// The path made of the bytes read from the tracee; refused as invalid data
/// when it reaches `PATH_MAX` bytes.
pub fn path_from_bytes(bytes: Vec<u8>) -> (r: Result<Vec<u8>>)
    ensures
        bytes@.len() >= PATH_MAX ==> r == Err::<Vec<u8>, Error>(Error::IoError(IoErrorKind::InvalidData)),
        bytes@.len() < PATH_MAX ==> (r matches Ok(p) && p@ == bytes@),
{
    if bytes.len() >= PATH_MAX {
        return Err(Error::IoError(IoErrorKind::InvalidData));
    }
    Ok(bytes)
}

/// `data` followed by the terminating zero.
pub open spec fn padded(data: Seq<u8>) -> Seq<u8> {
    data.push(0u8)
}

/// The number of whole words that `data` and its terminating zero fill.
pub open spec fn full_word_count(len: nat) -> nat {
    (len + 1) / 8
}

/// The `i`-th whole word of `data` and its terminating zero.
pub open spec fn data_word(data: Seq<u8>, i: int) -> Word {
    le_value(padded(data).subrange(8 * i, 8 * i + 8)) as Word
}

/// The word after the whole ones: the remaining bytes of `data` and its
/// terminating zero, then the bytes of `existing` (the word that was there)
/// after them.
pub open spec fn last_word(data: Seq<u8>, existing: Word) -> Word {
    let n = full_word_count(data.len());
    let t = ((data.len() + 1) % 8) as int;
    le_value(padded(data).skip(8 * n as int) + word_bytes(existing).skip(t)) as Word
}

/// The words that write `data`, with its terminating zero, at the start of
/// a block whose word after the whole ones holds `existing`.
pub open spec fn write_words(data: Seq<u8>, existing: Word) -> Seq<Word> {
    Seq::new(full_word_count(data.len()), |i: int| data_word(data, i)).push(last_word(data, existing))
}

/// byteorder's `LittleEndian::read_uint(buf, nbytes)`, which reads the
/// first `nbytes` bytes of `buf` as a little-endian number. The contract
/// claims what its source shows: the value is the little-endian number of
/// those bytes; it panics unless `1 <= nbytes <= 8` and `nbytes <= buf.len()`.
#[verifier::external_body]
fn le_read_uint(buf: &[u8], nbytes: usize) -> (r: u64)
    requires
        1 <= nbytes <= 8,
        nbytes <= buf@.len(),
    ensures
        r == le_value(buf@.subrange(0, nbytes as int)),
{
    <byteorder::LittleEndian as byteorder::ByteOrder>::read_uint(buf, nbytes)
}

/// The whole words of `data` and its terminating zero, least significant
/// byte first (see `data_word`).
pub fn data_words(data: &[u8]) -> (r: Vec<Word>)
    requires
        data@.len() < usize::MAX,
    ensures
        r@.len() == full_word_count(data@.len()),
        forall|i: int| 0 <= i < r@.len() ==> #[trigger] r@[i] == data_word(data@, i),
{
    let mut buf = copy_bytes(data);
    buf.push(0u8);
    let size = buf.len();
    let nb_full_words = size / WORD_SIZE;
    let mut words: Vec<Word> = Vec::new();
    let mut i: usize = 0;
    while i < nb_full_words
        invariant
            buf@ == padded(data@),
            size == buf@.len(),
            nb_full_words == size / 8,
            i <= nb_full_words,
            words@.len() == i,
            forall|k: int| 0 <= k < i ==> #[trigger] words@[k] == data_word(data@, k),
        decreases nb_full_words - i,
    {
        let chunk = copy_range(buf.as_slice(), WORD_SIZE * i, WORD_SIZE * i + WORD_SIZE);
        let w = le_read_uint(chunk.as_slice(), WORD_SIZE);
        proof {
            assert(chunk@.subrange(0, 8) =~= chunk@);
            lemma_le_value_bound(chunk@);
            lemma_pow256_8();
        }
        words.push(w);
        i = i + 1;
    }
    words
}

/// The word after the whole ones (see `last_word`): the remaining bytes of
/// `data` and its terminating zero over the first bytes of `existing`.
pub fn last_data_word(data: &[u8], existing: Word) -> (w: Word)
    requires
        data@.len() < usize::MAX,
    ensures
        w == last_word(data@, existing),
{
    let mut buf = copy_bytes(data);
    buf.push(0u8);
    let size = buf.len();
    let nb_trailing_bytes = size % WORD_SIZE;
    let base = size - nb_trailing_bytes;
    let mut bytes = convert_word_to_bytes(existing);
    let ghost e = word_bytes(existing);
    let mut j: usize = 0;
    while j < nb_trailing_bytes
        invariant
            buf@ == padded(data@),
            size == buf@.len(),
            base + nb_trailing_bytes == size,
            nb_trailing_bytes < 8,
            j <= nb_trailing_bytes,
            e.len() == 8,
            bytes@ == buf@.subrange(base as int, base + j) + e.skip(j as int),
        decreases nb_trailing_bytes - j,
    {
        bytes[j] = buf[base + j];
        j = j + 1;
        assert(bytes@ =~= buf@.subrange(base as int, base + j) + e.skip(j as int));
    }
    proof {
        assert(base == 8 * full_word_count(data@.len()));
        assert(buf@.subrange(base as int, size as int) =~= padded(data@).skip(base as int));
    }
    convert_bytes_to_word(bytes)
}

proof fn lemma_first_zero_at(l: Seq<u8>, j: int)
    requires
        0 <= j < l.len(),
        l[j] == 0,
        forall|t: int| 0 <= t < j ==> l[t] != 0,
    ensures
        first_zero(l) == Some(j),
    decreases j,
{
    if j > 0 {
        assert forall|t: int| 0 <= t < j - 1 implies l.drop_first()[t] != 0 by {
            assert(l.drop_first()[t] == l[t + 1]);
        }
        lemma_first_zero_at(l.drop_first(), j - 1);
    }
}

proof fn lemma_no_zero(l: Seq<u8>)
    requires
        forall|t: int| 0 <= t < l.len() ==> l[t] != 0,
    ensures
        first_zero(l) is None,
    decreases l.len(),
{
    if l.len() > 0 {
        assert forall|t: int| 0 <= t < l.drop_first().len() implies l.drop_first()[t] != 0 by {
            assert(l.drop_first()[t] == l[t + 1]);
        }
        lemma_no_zero(l.drop_first());
    }
}

/// A first zero lies within the string.
proof fn lemma_first_zero_bound(s: Seq<u8>)
    ensures
        first_zero(s) matches Some(k) ==> 0 <= k < s.len(),
    decreases s.len(),
{
    if s.len() > 0 && s[0] != 0 {
        lemma_first_zero_bound(s.drop_first());
    }
}

/// The first zero of `a + b` is that of `a`, or, if `a` has none, that of
/// `b` shifted by the length of `a`.
proof fn lemma_first_zero_concat(a: Seq<u8>, b: Seq<u8>)
    ensures
        first_zero(a + b) == match first_zero(a) {
            Some(k) => Some(k),
            None => match first_zero(b) {
                Some(j) => Some(a.len() + j),
                None => None,
            },
        },
    decreases a.len(),
{
    if a.len() == 0 {
        assert(a + b =~= b);
    } else {
        assert((a + b)[0] == a[0]);
        if a[0] != 0 {
            assert((a + b).drop_first() =~= a.drop_first() + b);
            lemma_first_zero_concat(a.drop_first(), b);
        }
    }
}

/// Reading any words from the tracee gives the string that their bytes
/// hold: the bytes before the first zero, complete, or, when there is no
/// zero among them, all of the bytes, not yet complete.
pub proof fn law_read_words_string(ws: Seq<Word>)
    ensures
        read_words(ws) == string_in(words_bytes(ws)),
    decreases ws.len(),
{
    if ws.len() > 0 {
        law_read_words_string(ws.drop_last());
        let m = words_bytes(ws.drop_last());
        let l = word_bytes(ws.last());
        lemma_first_zero_concat(m, l);
        lemma_first_zero_bound(m);
        lemma_first_zero_bound(l);
        match first_zero(m) {
            Some(k) => {
                assert((m + l).take(k) =~= m.take(k));
            },
            None => match first_zero(l) {
                Some(j) => {
                    assert((m + l).take(m.len() + j) =~= m + l.take(j));
                },
                None => {},
            },
        }
    }
}

/// The bytes of a whole word of `data` are those of `data` and its
/// terminating zero that it covers.
proof fn lemma_data_word_bytes(data: Seq<u8>, i: int)
    requires
        0 <= i,
        8 * i + 8 <= data.len() + 1,
    ensures
        word_bytes(data_word(data, i)) == padded(data).subrange(8 * i, 8 * i + 8),
{
    let chunk = padded(data).subrange(8 * i, 8 * i + 8);
    lemma_le_value_bound(chunk);
    lemma_pow256_8();
    lemma_value_le_bytes(chunk);
}

/// A string with no zero byte, followed by a zero: its first zero is at its
/// end.
proof fn lemma_first_zero_after(a: Seq<u8>, b: Seq<u8>)
    requires
        forall|t: int| 0 <= t < a.len() ==> a[t] != 0,
    ensures
        first_zero(a.push(0u8) + b) == Some(a.len() as int),
{
    let s = a.push(0u8) + b;
    assert forall|t: int| 0 <= t < a.len() implies s[t] != 0 by {
        assert(s[t] == a[t]);
    }
    assert(s[a.len() as int] == 0);
    lemma_first_zero_at(s, a.len() as int);
}

/// Reading the whole words that lie within `data` gives its first bytes,
/// without meeting the end of the string.
proof fn lemma_read_full_words(data: Seq<u8>, existing: Word, k: int)
    requires
        forall|t: int| 0 <= t < data.len() ==> data[t] != 0,
        0 <= k <= full_word_count(data.len()),
        8 * k <= data.len(),
    ensures
        read_words(write_words(data, existing).take(k)) == (data.take(8 * k), false),
    decreases k,
{
    let ws = write_words(data, existing);
    if k == 0 {
        assert(ws.take(0) =~= Seq::<Word>::empty());
        assert(data.take(0) =~= Seq::<u8>::empty());
    } else {
        lemma_read_full_words(data, existing, k - 1);
        assert(ws.take(k).drop_last() =~= ws.take(k - 1));
        assert(ws.take(k).last() == data_word(data, k - 1));
        lemma_data_word_bytes(data, k - 1);
        let chunk = padded(data).subrange(8 * (k - 1), 8 * k);
        assert forall|t: int| 0 <= t < chunk.len() implies chunk[t] != 0 by {
            assert(chunk[t] == data[8 * (k - 1) + t]);
        }
        lemma_no_zero(chunk);
        assert(data.take(8 * (k - 1)) + chunk =~= data.take(8 * k));
    }
}

/// A string written to the tracee's memory reads back as it was written:
/// the words that write `data` (with no zero byte in it) and its
/// terminating zero, whatever the word after the whole ones held before,
/// read back as `data`, ending at its terminating zero.
pub proof fn law_read_after_write(data: Seq<u8>, existing: Word)
    requires
        forall|t: int| 0 <= t < data.len() ==> data[t] != 0,
    ensures
        read_words(write_words(data, existing)) == (data, true),
{
    let ws = write_words(data, existing);
    let len = data.len();
    let n = full_word_count(len) as int;
    let t = ((len + 1) % 8) as int;
    lemma_fundamental_div_mod((len + 1) as int, 8);
    assert(len + 1 == 8 * n + t);
    assert(ws.drop_last() =~= ws.take(n));
    if t == 0 {
        assert(n >= 1);
        lemma_read_full_words(data, existing, n - 1);
        assert(ws.take(n).drop_last() =~= ws.take(n - 1));
        assert(ws.take(n).last() == data_word(data, n - 1));
        lemma_data_word_bytes(data, n - 1);
        let chunk = padded(data).subrange(8 * (n - 1), 8 * n);
        let rest = data.subrange(8 * (n - 1), len as int);
        assert(chunk =~= rest.push(0u8) + Seq::<u8>::empty());
        assert forall|u: int| 0 <= u < rest.len() implies rest[u] != 0 by {
            assert(rest[u] == data[8 * (n - 1) + u]);
        }
        lemma_first_zero_after(rest, Seq::<u8>::empty());
        assert(chunk.take(7) =~= rest);
        assert(data.take(8 * (n - 1)) + rest =~= data);
        let before = read_words(ws.take(n - 1));
        assert(read_words(ws.take(n)) == read_step(before, ws.take(n).last()));
        assert(read_words(ws.take(n)) == (data, true));
        assert(read_words(ws) == read_step(read_words(ws.drop_last()), ws.last()));
    } else {
        lemma_read_full_words(data, existing, n);
        let e = word_bytes(existing);
        lemma_le_bytes_len(existing as nat, 8);
        let rest = data.skip(8 * n);
        assert(padded(data).skip(8 * n) =~= rest.push(0u8));
        let l = rest.push(0u8) + e.skip(t);
        assert(l.len() == 8);
        lemma_le_value_bound(l);
        lemma_pow256_8();
        lemma_value_le_bytes(l);
        assert(word_bytes(ws.last()) == l);
        assert forall|u: int| 0 <= u < rest.len() implies rest[u] != 0 by {
            assert(rest[u] == data[8 * n + u]);
        }
        lemma_first_zero_after(rest, e.skip(t));
        assert(l.take(rest.len() as int) =~= rest);
        assert(data.take(8 * n) + rest =~= data);
        assert(read_words(ws) == read_step(read_words(ws.drop_last()), ws.last()));
    }
}

} // verus!
