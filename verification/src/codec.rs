//! The vector codec: a vector of 32-bit patterns to and from one byte blob.
//!
//! A blob is a run of 32-bit words, each written as four bytes, least
//! significant byte first. The first two words hold the number of elements
//! (low half, then high half); the elements follow in order. The count makes
//! the blob self-describing: a blob that was cut short, or that never held a
//! vector, does not decode.
use vstd::prelude::*;

verus! {

/// The four bytes of a word, least significant first.
pub open spec fn word_bytes(w: u32) -> Seq<u8> {
    seq![
        (w & 0xff) as u8,
        ((w >> 8) & 0xff) as u8,
        ((w >> 16) & 0xff) as u8,
        ((w >> 24) & 0xff) as u8,
    ]
}

/// The word whose bytes, least significant first, are `b0`, `b1`, `b2`, `b3`.
pub open spec fn word_of(b0: u8, b1: u8, b2: u8, b3: u8) -> u32 {
    (b0 as u32) | ((b1 as u32) << 8) | ((b2 as u32) << 16) | ((b3 as u32) << 24)
}

/// The word that starts at byte `at` of `bytes`.
pub open spec fn word_at(bytes: Seq<u8>, at: int) -> u32 {
    word_of(bytes[at], bytes[at + 1], bytes[at + 2], bytes[at + 3])
}

/// The bytes of a run of words: word `i` fills bytes `4 * i` to `4 * i + 3`.
pub open spec fn words_bytes(words: Seq<u32>) -> Seq<u8> {
    Seq::new(4 * words.len(), |i: int| word_bytes(words[i / 4])[i % 4])
}

/// Low half of an element count.
pub open spec fn count_low(n: nat) -> u32 {
    (n % 0x1_0000_0000) as u32
}

/// High half of an element count.
pub open spec fn count_high(n: nat) -> u32 {
    ((n / 0x1_0000_0000) % 0x1_0000_0000) as u32
}

/// The count that the two header words stand for.
pub open spec fn count_of(low: u32, high: u32) -> nat {
    (low + high * 0x1_0000_0000) as nat
}

/// The blob that holds `vector`.
pub open spec fn blob_of(vector: Seq<u32>) -> Seq<u8> {
    words_bytes(seq![count_low(vector.len()), count_high(vector.len())] + vector)
}

/// Whether `bytes` is a blob: whole words, a header, and a count that agrees
/// with the number of element words that follow it.
pub open spec fn well_formed(bytes: Seq<u8>) -> bool {
    &&& bytes.len() >= 8
    &&& bytes.len() % 4 == 0
    &&& count_of(word_at(bytes, 0), word_at(bytes, 4)) == (bytes.len() - 8) / 4
}

/// The element words of a blob, in order.
pub open spec fn payload(bytes: Seq<u8>) -> Seq<u32> {
    Seq::new(((bytes.len() - 8) / 4) as nat, |i: int| word_at(bytes, 8 + 4 * i))
}

/// A word is rebuilt from its four bytes.
pub proof fn lemma_word_round_trip(w: u32)
    ensures
        word_bytes(w).len() == 4,
        word_of(word_bytes(w)[0], word_bytes(w)[1], word_bytes(w)[2], word_bytes(w)[3]) == w,
{
    let b0 = (w & 0xff) as u8;
    let b1 = ((w >> 8) & 0xff) as u8;
    let b2 = ((w >> 16) & 0xff) as u8;
    let b3 = ((w >> 24) & 0xff) as u8;
    assert(word_of(b0, b1, b2, b3) == w) by (bit_vector)
        requires
            b0 == (w & 0xff) as u8,
            b1 == ((w >> 8) & 0xff) as u8,
            b2 == ((w >> 16) & 0xff) as u8,
            b3 == ((w >> 24) & 0xff) as u8,
    ;
}

/// Four bytes are the bytes of the word they build.
pub proof fn lemma_bytes_round_trip(b0: u8, b1: u8, b2: u8, b3: u8)
    ensures
        word_bytes(word_of(b0, b1, b2, b3)) == seq![b0, b1, b2, b3],
{
    let w = word_of(b0, b1, b2, b3);
    assert((w & 0xff) as u8 == b0 && ((w >> 8) & 0xff) as u8 == b1 && ((w >> 16) & 0xff) as u8
        == b2 && ((w >> 24) & 0xff) as u8 == b3) by (bit_vector)
        requires
            w == (b0 as u32) | ((b1 as u32) << 8) | ((b2 as u32) << 16) | ((b3 as u32) << 24),
    ;
    assert(word_bytes(w) =~= seq![b0, b1, b2, b3]);
}

/// Appending a word to a run appends its four bytes.
proof fn lemma_words_bytes_push(words: Seq<u32>, w: u32)
    ensures
        words_bytes(words.push(w)) == words_bytes(words) + word_bytes(w),
{
    let left = words_bytes(words.push(w));
    let right = words_bytes(words) + word_bytes(w);
    assert(left.len() == right.len());
    assert forall|i: int| 0 <= i < left.len() implies left[i] == right[i] by {
        if i < 4 * words.len() {
            assert(words.push(w)[i / 4] == words[i / 4]);
        } else {
            assert(i / 4 == words.len());
            assert(i % 4 == i - 4 * words.len());
        }
    }
    assert(left =~= right);
}

/// The word that starts at byte `4 * k` of a run's bytes is word `k`.
proof fn lemma_word_at_words_bytes(words: Seq<u32>, k: int)
    requires
        0 <= k < words.len(),
    ensures
        word_at(words_bytes(words), 4 * k) == words[k],
{
    let bytes = words_bytes(words);
    lemma_word_round_trip(words[k]);
    assert((4 * k) / 4 == k && (4 * k) % 4 == 0);
    assert((4 * k + 1) / 4 == k && (4 * k + 1) % 4 == 1);
    assert((4 * k + 2) / 4 == k && (4 * k + 2) % 4 == 2);
    assert((4 * k + 3) / 4 == k && (4 * k + 3) % 4 == 3);
    assert(bytes[4 * k] == word_bytes(words[k])[0]);
    assert(bytes[4 * k + 1] == word_bytes(words[k])[1]);
    assert(bytes[4 * k + 2] == word_bytes(words[k])[2]);
    assert(bytes[4 * k + 3] == word_bytes(words[k])[3]);
}

/// Decoding undoes encoding: the blob of a vector is well formed, and its
/// payload is that vector, element for element.
pub proof fn lemma_round_trip(vector: Seq<u32>)
    requires
        vector.len() <= u64::MAX,
    ensures
        well_formed(blob_of(vector)),
        payload(blob_of(vector)) == vector,
        blob_of(vector).len() == 8 + 4 * vector.len(),
{
    let n = vector.len();
    let words = seq![count_low(n), count_high(n)] + vector;
    let bytes = blob_of(vector);
    assert(bytes.len() == 8 + 4 * n);
    lemma_word_at_words_bytes(words, 0);
    lemma_word_at_words_bytes(words, 1);
    assert(words[0] == count_low(n) && words[1] == count_high(n));
    assert(count_of(count_low(n), count_high(n)) == n);
    assert((bytes.len() - 8) / 4 == n);
    assert forall|i: int| 0 <= i < n implies payload(bytes)[i] == vector[i] by {
        lemma_word_at_words_bytes(words, 2 + i);
        assert(4 * (2 + i) == 8 + 4 * i);
        assert(words[2 + i] == vector[i]);
    }
    assert(payload(bytes) =~= vector);
}

/// Encoding undoes decoding: a well-formed blob is the blob of its payload,
/// byte for byte, so no two blobs hold the same vector.
pub proof fn lemma_blob_canonical(bytes: Seq<u8>)
    requires
        well_formed(bytes),
    ensures
        blob_of(payload(bytes)) == bytes,
{
    let vector = payload(bytes);
    let n = vector.len();
    let low = word_at(bytes, 0);
    let high = word_at(bytes, 4);
    assert(count_of(low, high) == n);
    assert(count_low(n) == low && count_high(n) == high);
    let words = seq![low, high] + vector;
    let blob = words_bytes(words);
    assert(blob.len() == bytes.len());
    assert forall|i: int| 0 <= i < bytes.len() implies blob[i] == bytes[i] by {
        let k = i / 4;
        let base = 4 * k;
        assert(0 <= k < words.len());
        assert(words[k] == word_at(bytes, base)) by {
            if k >= 2 {
                assert(words[k] == vector[k - 2]);
                assert(8 + 4 * (k - 2) == base);
            }
        }
        lemma_bytes_round_trip(bytes[base], bytes[base + 1], bytes[base + 2], bytes[base + 3]);
        assert(i % 4 == i - base);
    }
    assert(blob =~= bytes);
}

/// Why a blob was refused.
#[derive(Clone, Copy, Debug, PartialEq, Eq, Structural)]
pub enum CorruptVector {
    /// The bytes are not a blob: too short, not whole words, or the count in
    /// the header disagrees with the number of words that follow it.
    Malformed,
    /// The blob holds a vector of another length than the store's dimension.
    WrongDimension,
}

/// What `decode` returns for `bytes` in a store of the given dimension.
pub open spec fn decoded(bytes: Seq<u8>, dimension: nat) -> Result<Seq<u32>, CorruptVector> {
    if !well_formed(bytes) {
        Err(CorruptVector::Malformed)
    } else if payload(bytes).len() != dimension {
        Err(CorruptVector::WrongDimension)
    } else {
        Ok(payload(bytes))
    }
}

fn push_word(out: &mut Vec<u8>, w: u32)
    ensures
        final(out)@ == old(out)@ + word_bytes(w),
{
    out.push((w & 0xff) as u8);
    out.push(((w >> 8) & 0xff) as u8);
    out.push(((w >> 16) & 0xff) as u8);
    out.push(((w >> 24) & 0xff) as u8);
    assert(out@ =~= old(out)@ + word_bytes(w));
}

fn read_word(bytes: &[u8], at: usize) -> (w: u32)
    requires
        at + 4 <= bytes.len(),
    ensures
        w == word_at(bytes@, at as int),
{
    (bytes[at] as u32) | ((bytes[at + 1] as u32) << 8) | ((bytes[at + 2] as u32) << 16) | ((
    bytes[at + 3] as u32) << 24)
}

/// Encodes a vector as one blob.
pub fn encode(vector: &Vec<u32>) -> (blob: Vec<u8>)
    ensures
        blob@ == blob_of(vector@),
        decoded(blob@, vector@.len()) == Ok::<Seq<u32>, CorruptVector>(vector@),
{
    let n: u64 = vector.len() as u64;
    let low: u32 = (n % 0x1_0000_0000) as u32;
    let high: u32 = (n / 0x1_0000_0000) as u32;
    let mut out: Vec<u8> = Vec::new();
    let ghost mut words: Seq<u32> = Seq::empty();
    assert(out@ =~= words_bytes(words));
    push_word(&mut out, low);
    proof {
        lemma_words_bytes_push(words, low);
        words = words.push(low);
    }
    push_word(&mut out, high);
    proof {
        lemma_words_bytes_push(words, high);
        words = words.push(high);
    }
    let mut i: usize = 0;
    while i < vector.len()
        invariant
            i <= vector.len(),
            out@ == words_bytes(words),
            words =~= seq![count_low(vector@.len()), count_high(vector@.len())] + vector@.take(
                i as int,
            ),
        decreases vector.len() - i,
    {
        push_word(&mut out, vector[i]);
        proof {
            lemma_words_bytes_push(words, vector[i as int]);
            words = words.push(vector[i as int]);
        }
        i = i + 1;
    }
    proof {
        assert(vector@.take(i as int) =~= vector@);
        lemma_round_trip(vector@);
    }
    out
}

/// Decodes a blob in a store of the given dimension.
///
/// Fails with `Malformed` when the bytes are not a blob, and with
/// `WrongDimension` when they are one of another length; otherwise returns the
/// vector that the blob holds.
pub fn decode(bytes: &[u8], dimension: usize) -> (r: Result<Vec<u32>, CorruptVector>)
    ensures
        match r {
            Ok(vector) => decoded(bytes@, dimension as nat) == Ok::<Seq<u32>, CorruptVector>(
                vector@,
            ),
            Err(fault) => decoded(bytes@, dimension as nat) == Err::<Seq<u32>, CorruptVector>(
                fault,
            ),
        },
{
    let len = bytes.len();
    if len < 8 || len % 4 != 0 {
        return Err(CorruptVector::Malformed);
    }
    let low = read_word(bytes, 0);
    let high = read_word(bytes, 4);
    let count: u64 = (low as u64) + (high as u64) * 0x1_0000_0000;
    let held: usize = (len - 8) / 4;
    if count != held as u64 {
        return Err(CorruptVector::Malformed);
    }
    if held != dimension {
        return Err(CorruptVector::WrongDimension);
    }
    let mut vector: Vec<u32> = Vec::new();
    let mut i: usize = 0;
    while i < held
        invariant
            i <= held,
            held == (bytes.len() - 8) / 4,
            bytes.len() >= 8,
            bytes.len() % 4 == 0,
            vector@ == payload(bytes@).take(i as int),
        decreases held - i,
    {
        let w = read_word(bytes, 8 + 4 * i);
        vector.push(w);
        assert(vector@ =~= payload(bytes@).take(i + 1));
        i = i + 1;
    }
    assert(vector@ =~= payload(bytes@));
    Ok(vector)
}

} // verus!
