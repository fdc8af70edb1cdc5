//! The binary codec of the two sequence-valued fields. Token ids go
//! through `bincode` as a vector; of a score sequence `bincode` writes and
//! reads the length, and the scores follow as four bytes each.

use crate::score::{all_finite, bits_of, scores_of, Score};
use crate::wire::{
    le_bytes, le_value, lemma_quads_push, lemma_quads_round_trip, lemma_radix_values,
    lemma_varint_len, lemma_varint_round_trip, lemma_varints_round_trip, quads, quads_value,
    scores_wire, token_ids_wire, varint, varint_head, varints, varints_head,
};
use vstd::prelude::*;

verus! {

/// Why bytes could not be read as a field value, or a value not be written.
#[derive(Clone, Copy, Debug, PartialEq, Eq, Structural)]
pub enum CodecError {
    /// The bytes do not start with a length.
    LengthPrefix,
    /// The length announces more elements than the bytes can hold.
    Length,
    /// An element is cut short or starts with a marker that is not accepted.
    Element,
    /// A score is not a finite number.
    NonFinite,
}

impl CodecError {
    /// What `message` says of this error.
    pub open spec fn text(self) -> Seq<char> {
        match self {
            CodecError::LengthPrefix => "the bytes do not start with a length"@,
            CodecError::Length => "the length announces more elements than the bytes hold"@,
            CodecError::Element => "an element is cut short or malformed"@,
            CodecError::NonFinite => "a score is not a finite number"@,
        }
    }

    /// A sentence that describes the error.
    pub fn message(&self) -> (message: String)
        ensures
            message@ == self.text(),
    {
        match self {
            CodecError::LengthPrefix => String::from_str("the bytes do not start with a length"),
            CodecError::Length => String::from_str(
                "the length announces more elements than the bytes hold",
            ),
            CodecError::Element => String::from_str("an element is cut short or malformed"),
            CodecError::NonFinite => String::from_str("a score is not a finite number"),
        }
    }
}

/// `bincode::error::EncodeError`, of which nothing is read.
#[verifier::external_type_specification]
#[verifier::external_body]
pub struct ExEncodeError(bincode::error::EncodeError);

/// `bincode::error::DecodeError`, of which nothing is read.
#[verifier::external_type_specification]
#[verifier::external_body]
pub struct ExDecodeError(bincode::error::DecodeError);

/// Whether a vector of `count` 32-bit elements is within what one
/// allocation can hold.
pub open spec fn fits_memory(count: nat) -> bool {
    4 * count <= isize::MAX
}

/// The token ids that `data` holds as a vector, with the number of bytes
/// they take: a length, then that many variable-length integers.
pub open spec fn token_ids_parse(data: Seq<u8>) -> Option<(Seq<u32>, nat)> {
    match varint_head(data, 8) {
        None => None,
        Some((count, width)) => match varints_head(data.skip(width as int), count) {
            None => None,
            Some((ids, used)) => Some((ids, width + used)),
        },
    }
}

/// What reading `data` as token ids gives.
pub open spec fn token_ids_loaded(data: Seq<u8>) -> Result<Seq<u32>, CodecError> {
    match varint_head(data, 8) {
        None => Err(CodecError::LengthPrefix),
        Some((count, width)) => if count > data.len() - width || !fits_memory(count) {
            Err(CodecError::Length)
        } else {
            match varints_head(data.skip(width as int), count) {
                None => Err(CodecError::Element),
                Some((ids, used)) => Ok(ids),
            }
        },
    }
}

/// Under which bytes `scores` are stored.
pub open spec fn scores_stored(scores: Seq<Score>) -> Result<Seq<u8>, CodecError> {
    if all_finite(scores) {
        Ok(scores_wire(bits_of(scores)))
    } else {
        Err(CodecError::NonFinite)
    }
}

/// What reading `data` as scores gives.
pub open spec fn scores_loaded(data: Seq<u8>) -> Result<Seq<Score>, CodecError> {
    match varint_head(data, 8) {
        None => Err(CodecError::LengthPrefix),
        Some((count, width)) => if 4 * count > data.len() - width {
            Err(CodecError::Length)
        } else {
            let scores = scores_of(quads_value(data.skip(width as int), count));
            if all_finite(scores) {
                Ok(scores)
            } else {
                Err(CodecError::NonFinite)
            }
        },
    }
}

/// `bincode::encode_to_vec` on a vector of 32-bit integers, in the standard
/// configuration. Trusted: the call succeeds and gives the length of the
/// vector followed by its elements, each as a variable-length integer.
#[verifier::external_body]
fn bincode_encode_u32s(ids: &Vec<u32>) -> (r: Result<Vec<u8>, bincode::error::EncodeError>)
    ensures
        match r {
            Ok(bytes) => bytes@ == token_ids_wire(ids@),
            Err(_) => false,
        },
{
    bincode::encode_to_vec(ids, bincode::config::standard())
}

/// `bincode::encode_to_vec` on one 64-bit integer, in the standard
/// configuration. Trusted: the call succeeds and gives the integer in
/// variable-length form.
#[verifier::external_body]
fn bincode_encode_u64(value: u64) -> (r: Result<Vec<u8>, bincode::error::EncodeError>)
    ensures
        match r {
            Ok(bytes) => bytes@ == varint(value as nat),
            Err(_) => false,
        },
{
    bincode::encode_to_vec(value, bincode::config::standard())
}

/// `bincode::decode_from_slice` for one 64-bit integer, in the standard
/// configuration. Trusted: the call gives the variable-length integer at
/// the head of `data` and the number of bytes read, and fails where there
/// is none.
#[verifier::external_body]
fn bincode_decode_u64(data: &[u8]) -> (r: Result<(u64, usize), bincode::error::DecodeError>)
    ensures
        match varint_head(data@, 8) {
            Some((value, width)) => r matches Ok(pair) && pair.0 == value && pair.1 == width,
            None => r is Err,
        },
{
    bincode::decode_from_slice(data, bincode::config::standard())
}

/// `bincode::decode_from_slice` for a vector of 32-bit integers, in the
/// standard configuration. The decoder reserves room for as many elements
/// as the length at the head of `data` announces before it reads them, so
/// the caller has to know that this length is within what `data` can hold
/// and what one allocation can hold. Trusted: the call gives the vector
/// that `data` holds and the number of bytes read, and fails where `data`
/// holds none.
#[verifier::external_body]
fn bincode_decode_u32s(data: &[u8]) -> (r: Result<(Vec<u32>, usize), bincode::error::DecodeError>)
    requires
        varint_head(data@, 8) matches Some((count, width)) ==> count <= data.len() - width
            && fits_memory(count),
    ensures
        match token_ids_parse(data@) {
            Some((ids, used)) => r matches Ok(pair) && pair.0@ == ids && pair.1 == used,
            None => r is Err,
        },
{
    bincode::decode_from_slice(data, bincode::config::standard())
}

/// A value that is stored as bytes and read back from them.
pub trait Storable: Sized + View {
    /// Under which bytes a value with the view `value` is stored.
    spec fn stored(value: Self::V) -> Result<Seq<u8>, CodecError>;

    /// What reading `data` gives.
    spec fn loaded(data: Seq<u8>) -> Result<Self::V, CodecError>;

    /// Whether a value with the view `value` can be held in memory.
    spec fn holdable(value: Self::V) -> bool;

    /// The bytes under which the value is stored.
    fn to_bytes(&self) -> (r: Result<Vec<u8>, CodecError>)
        ensures
            match Self::stored(self@) {
                Ok(bytes) => r matches Ok(b) && b@ == bytes,
                Err(e) => r matches Err(f) && f == e,
            },
    ;

    /// The value that `data` holds. Bytes that follow it are not looked at.
    fn from_bytes(data: &[u8]) -> (r: Result<Self, CodecError>)
        ensures
            match Self::loaded(data@) {
                Ok(value) => r matches Ok(v) && v@ == value,
                Err(e) => r matches Err(f) && f == e,
            },
    ;

    /// Reading what was stored gives the value back, whatever bytes
    /// follow it.
    proof fn lemma_round_trip(value: Self::V, bytes: Seq<u8>, tail: Seq<u8>)
        requires
            Self::holdable(value),
            Self::stored(value) == Ok::<Seq<u8>, CodecError>(bytes),
        ensures
            Self::loaded(bytes + tail) == Ok::<Self::V, CodecError>(value),
    ;
}

impl Storable for Vec<u32> {
    open spec fn stored(value: Seq<u32>) -> Result<Seq<u8>, CodecError> {
        Ok(token_ids_wire(value))
    }

    open spec fn loaded(data: Seq<u8>) -> Result<Seq<u32>, CodecError> {
        token_ids_loaded(data)
    }

    open spec fn holdable(value: Seq<u32>) -> bool {
        fits_memory(value.len())
    }

    fn to_bytes(&self) -> (r: Result<Vec<u8>, CodecError>) {
        match bincode_encode_u32s(self) {
            Ok(bytes) => Ok(bytes),
            Err(_) => Err(CodecError::Element),
        }
    }

    fn from_bytes(data: &[u8]) -> (r: Result<Self, CodecError>) {
        match bincode_decode_u64(data) {
            Err(_) => Err(CodecError::LengthPrefix),
            Ok((count, width)) => {
                let rest: usize = data.len() - width;
                if count > rest as u64 || count > (isize::MAX as u64) / 4 {
                    Err(CodecError::Length)
                } else {
                    match bincode_decode_u32s(data) {
                        Err(_) => Err(CodecError::Element),
                        Ok((ids, _)) => Ok(ids),
                    }
                }
            },
        }
    }

    proof fn lemma_round_trip(value: Seq<u32>, bytes: Seq<u8>, tail: Seq<u8>) {
        let prefix = varint(value.len());
        let body = varints(value);
        lemma_radix_values();
        lemma_varint_len(value.len());
        lemma_varint_round_trip(value.len(), 8, body + tail);
        lemma_varints_round_trip(value, tail);
        assert(bytes + tail =~= prefix + (body + tail));
        assert((bytes + tail).skip(prefix.len() as int) =~= body + tail);
    }
}

/// The four little-endian bytes of `word`, appended to `out`.
fn push_word(out: &mut Vec<u8>, word: u32)
    ensures
        final(out)@ == old(out)@ + le_bytes(word as nat, 4),
{
    let b0: u8 = (word % 256) as u8;
    let b1: u8 = ((word / 0x100) % 256) as u8;
    let b2: u8 = ((word / 0x1_0000) % 256) as u8;
    let b3: u8 = ((word / 0x100_0000) % 256) as u8;
    out.push(b0);
    out.push(b1);
    out.push(b2);
    out.push(b3);
    proof {
        reveal_with_fuel(le_bytes, 5);
        assert(out@ =~= old(out)@ + le_bytes(word as nat, 4));
    }
}

/// The word that the four bytes of `data` from `at` on spell.
fn word_at(data: &[u8], at: usize) -> (word: u32)
    requires
        at + 4 <= data.len(),
    ensures
        word == le_value(data@.subrange(at as int, at + 4)),
{
    let b0: u32 = data[at] as u32;
    let b1: u32 = data[at + 1] as u32;
    let b2: u32 = data[at + 2] as u32;
    let b3: u32 = data[at + 3] as u32;
    proof {
        let four = data@.subrange(at as int, at + 4);
        reveal_with_fuel(le_value, 5);
        assert(four.drop_first().drop_first().drop_first().drop_first().len() == 0);
    }
    b0 + 0x100 * b1 + 0x1_0000 * b2 + 0x100_0000 * b3
}

impl Storable for Vec<Score> {
    open spec fn stored(value: Seq<Score>) -> Result<Seq<u8>, CodecError> {
        scores_stored(value)
    }

    open spec fn loaded(data: Seq<u8>) -> Result<Seq<Score>, CodecError> {
        scores_loaded(data)
    }

    open spec fn holdable(value: Seq<Score>) -> bool {
        value.len() <= usize::MAX
    }

    fn to_bytes(&self) -> (r: Result<Vec<u8>, CodecError>) {
        let count: usize = self.len();
        let mut checked: usize = 0;
        while checked < count
            invariant
                count == self.len(),
                checked <= count,
                forall|i: int| 0 <= i < checked ==> (#[trigger] self@[i]).is_finite(),
            decreases count - checked,
        {
            if !self[checked].finite() {
                return Err(CodecError::NonFinite);
            }
            checked += 1;
        }
        let mut out: Vec<u8> = match bincode_encode_u64(count as u64) {
            Ok(prefix) => prefix,
            Err(_) => {
                return Err(CodecError::LengthPrefix);
            },
        };
        let ghost prefix = out@;
        let ghost words = bits_of(self@);
        let mut done: usize = 0;
        while done < count
            invariant
                count == self.len(),
                done <= count,
                words == bits_of(self@),
                out@ == prefix + quads(words.take(done as int)),
            decreases count - done,
        {
            proof {
                lemma_quads_push(words.take(done as int), words[done as int]);
                assert(words.take(done as int).push(words[done as int]) =~= words.take(done + 1));
            }
            push_word(&mut out, self[done].to_bits());
            done += 1;
        }
        proof {
            assert(words.take(count as int) =~= words);
        }
        Ok(out)
    }

    fn from_bytes(data: &[u8]) -> (r: Result<Self, CodecError>) {
        match bincode_decode_u64(data) {
            Err(_) => Err(CodecError::LengthPrefix),
            Ok((count, width)) => {
                let rest: usize = data.len() - width;
                if count > (rest / 4) as u64 {
                    return Err(CodecError::Length);
                }
                let count: usize = count as usize;
                let ghost all = scores_of(quads_value(data@.skip(width as int), count as nat));
                let mut scores: Vec<Score> = Vec::new();
                let mut done: usize = 0;
                while done < count
                    invariant
                        width + 4 * count <= data.len(),
                        done <= count,
                        all == scores_of(quads_value(data@.skip(width as int), count as nat)),
                        scores_loaded(data@) == if all_finite(all) {
                            Ok::<Seq<Score>, CodecError>(all)
                        } else {
                            Err::<Seq<Score>, CodecError>(CodecError::NonFinite)
                        },
                        scores@ == all.take(done as int),
                        forall|i: int| 0 <= i < done ==> (#[trigger] all[i]).is_finite(),
                    decreases count - done,
                {
                    let at: usize = width + 4 * done;
                    let score = Score::from_bits(word_at(data, at));
                    proof {
                        assert(data@.subrange(at as int, at + 4) =~= data@.skip(width as int).subrange(
                            4 * done,
                            4 * done + 4,
                        ));
                        assert(score == all[done as int]);
                    }
                    if !score.finite() {
                        return Err(CodecError::NonFinite);
                    }
                    scores.push(score);
                    proof {
                        assert(scores@ =~= all.take(done + 1));
                    }
                    done += 1;
                }
                proof {
                    assert(all.take(count as int) =~= all);
                }
                Ok(scores)
            },
        }
    }

    proof fn lemma_round_trip(value: Seq<Score>, bytes: Seq<u8>, tail: Seq<u8>) {
        let words = bits_of(value);
        let prefix = varint(value.len());
        let body = quads(words);
        lemma_radix_values();
        lemma_varint_len(value.len());
        lemma_varint_round_trip(value.len(), 8, body + tail);
        lemma_quads_round_trip(words, tail);
        assert(bytes + tail =~= prefix + (body + tail));
        assert((bytes + tail).skip(prefix.len() as int) =~= body + tail);
        assert(scores_of(words) =~= value);
    }
}

} // verus!
