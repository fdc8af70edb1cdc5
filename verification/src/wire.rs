//! The byte layout of stored sequences, as mathematics.
//!
//! A sequence is written as its length followed by its elements. Lengths
//! and token ids are variable-length integers: a value below 251 is one
//! byte; a larger one is a marker byte (251, 252 or 253) followed by the
//! value in two, four or eight little-endian bytes. A score is the four
//! little-endian bytes of its bit pattern.

use vstd::prelude::*;

verus! {

/// The number of values that `width` bytes can tell apart.
pub open spec fn radix(width: nat) -> nat
    decreases width,
{
    if width == 0 {
        1
    } else {
        256 * radix((width - 1) as nat)
    }
}

/// The `width` little-endian bytes of `value`.
pub open spec fn le_bytes(value: nat, width: nat) -> Seq<u8>
    decreases width,
{
    if width == 0 {
        Seq::empty()
    } else {
        seq![(value % 256) as u8] + le_bytes(value / 256, (width - 1) as nat)
    }
}

/// The number that `bytes` spell in little-endian order.
pub open spec fn le_value(bytes: Seq<u8>) -> nat
    decreases bytes.len(),
{
    if bytes.len() == 0 {
        0
    } else {
        bytes[0] as nat + 256 * le_value(bytes.drop_first())
    }
}

/// The variable-length form of `value`, for a value below 2^64.
pub open spec fn varint(value: nat) -> Seq<u8> {
    if value < 251 {
        seq![value as u8]
    } else if value < 0x1_0000 {
        seq![251u8] + le_bytes(value, 2)
    } else if value < 0x1_0000_0000 {
        seq![252u8] + le_bytes(value, 4)
    } else {
        seq![253u8] + le_bytes(value, 8)
    }
}

/// The number of bytes that follow `marker`, where `marker` announces an
/// integer of at most `widest` bytes.
pub open spec fn marker_width(marker: u8, widest: nat) -> Option<nat> {
    if marker == 251 && widest >= 2 {
        Some(2)
    } else if marker == 252 && widest >= 4 {
        Some(4)
    } else if marker == 253 && widest >= 8 {
        Some(8)
    } else {
        None
    }
}

/// The variable-length integer of at most `widest` bytes at the head of
/// `data`, with the number of bytes it takes; `None` where `data` is
/// empty, starts with a marker that is not accepted, or ends too soon.
/// A value written wider than it needs is read all the same.
pub open spec fn varint_head(data: Seq<u8>, widest: nat) -> Option<(nat, nat)> {
    if data.len() == 0 {
        None
    } else if data[0] <= 250 {
        Some((data[0] as nat, 1))
    } else {
        match marker_width(data[0], widest) {
            Some(width) => if data.len() >= 1 + width {
                Some((le_value(data.subrange(1, 1 + width as int)), 1 + width))
            } else {
                None
            },
            None => None,
        }
    }
}

/// The elements of `ids` in variable-length form, one after the other.
pub open spec fn varints(ids: Seq<u32>) -> Seq<u8>
    decreases ids.len(),
{
    if ids.len() == 0 {
        Seq::empty()
    } else {
        varint(ids[0] as nat) + varints(ids.drop_first())
    }
}

/// The first `count` variable-length 32-bit integers of `data`, with the
/// number of bytes they take.
pub open spec fn varints_head(data: Seq<u8>, count: nat) -> Option<(Seq<u32>, nat)>
    decreases count,
{
    if count == 0 {
        Some((Seq::empty(), 0))
    } else {
        match varint_head(data, 4) {
            None => None,
            Some((value, width)) => match varints_head(data.skip(width as int), (count - 1) as nat) {
                None => None,
                Some((rest, used)) => Some((seq![value as u32] + rest, width + used)),
            },
        }
    }
}

/// The elements of `words` as four little-endian bytes each.
pub open spec fn quads(words: Seq<u32>) -> Seq<u8>
    decreases words.len(),
{
    if words.len() == 0 {
        Seq::empty()
    } else {
        le_bytes(words[0] as nat, 4) + quads(words.drop_first())
    }
}

/// The `count` 32-bit words that the first `4 * count` bytes of `data`
/// spell.
pub open spec fn quads_value(data: Seq<u8>, count: nat) -> Seq<u32> {
    Seq::new(count, |i: int| le_value(data.subrange(4 * i, 4 * i + 4)) as u32)
}

/// The stored form of a sequence of token ids.
pub open spec fn token_ids_wire(ids: Seq<u32>) -> Seq<u8> {
    varint(ids.len()) + varints(ids)
}

/// The stored form of a sequence of score bit patterns.
pub open spec fn scores_wire(words: Seq<u32>) -> Seq<u8> {
    varint(words.len()) + quads(words)
}

/// `le_bytes` gives exactly `width` bytes.
pub proof fn lemma_le_bytes_len(value: nat, width: nat)
    ensures
        le_bytes(value, width).len() == width,
    decreases width,
{
    if width > 0 {
        lemma_le_bytes_len(value / 256, (width - 1) as nat);
    }
}

/// Bytes written little-endian spell the value they were written from,
/// where the value fits the width.
pub proof fn lemma_le_round_trip(value: nat, width: nat)
    requires
        value < radix(width),
    ensures
        le_value(le_bytes(value, width)) == value,
    decreases width,
{
    if width > 0 {
        let rest = le_bytes(value / 256, (width - 1) as nat);
        lemma_le_round_trip(value / 256, (width - 1) as nat);
        assert(le_bytes(value, width).drop_first() =~= rest);
    }
}

/// The widths of the three markers, as numbers.
pub proof fn lemma_radix_values()
    ensures
        radix(2) == 0x1_0000,
        radix(4) == 0x1_0000_0000,
        radix(8) == 0x1_0000_0000_0000_0000,
{
    reveal_with_fuel(radix, 9);
}

/// The variable-length form of a value takes one to nine bytes.
pub proof fn lemma_varint_len(value: nat)
    ensures
        1 <= varint(value).len() <= 9,
{
    lemma_le_bytes_len(value, 2);
    lemma_le_bytes_len(value, 4);
    lemma_le_bytes_len(value, 8);
}

/// Reading a variable-length integer back gives the value written and the
/// bytes it took, whatever follows it.
pub proof fn lemma_varint_round_trip(value: nat, widest: nat, tail: Seq<u8>)
    requires
        widest == 4 || widest == 8,
        value < radix(widest),
    ensures
        varint_head(varint(value) + tail, widest) == Some((value, varint(value).len())),
{
    lemma_radix_values();
    let data = varint(value) + tail;
    if value >= 251 {
        let width: nat = if value < 0x1_0000 {
            2
        } else if value < 0x1_0000_0000 {
            4
        } else {
            8
        };
        lemma_le_bytes_len(value, width);
        lemma_le_round_trip(value, width);
        assert(data.subrange(1, 1 + width as int) =~= le_bytes(value, width));
    }
}

/// Reading a run of variable-length integers back gives the values
/// written, whatever follows them; each takes at least one byte.
pub proof fn lemma_varints_round_trip(ids: Seq<u32>, tail: Seq<u8>)
    ensures
        varints_head(varints(ids) + tail, ids.len()) == Some((ids, varints(ids).len())),
        varints(ids).len() >= ids.len(),
    decreases ids.len(),
{
    if ids.len() > 0 {
        let head = varint(ids[0] as nat);
        let rest = varints(ids.drop_first());
        lemma_radix_values();
        lemma_varint_len(ids[0] as nat);
        lemma_varint_round_trip(ids[0] as nat, 4, rest + tail);
        lemma_varints_round_trip(ids.drop_first(), tail);
        assert(varints(ids) + tail =~= head + (rest + tail));
        assert((varints(ids) + tail).skip(head.len() as int) =~= rest + tail);
        assert(seq![ids[0]] + ids.drop_first() =~= ids);
    }
}

/// Score words written as four bytes each are read back as they were,
/// whatever follows them.
pub proof fn lemma_quads_round_trip(words: Seq<u32>, tail: Seq<u8>)
    ensures
        quads(words).len() == 4 * words.len(),
        quads_value(quads(words) + tail, words.len()) == words,
    decreases words.len(),
{
    if words.len() > 0 {
        let head = le_bytes(words[0] as nat, 4);
        let rest = quads(words.drop_first());
        lemma_radix_values();
        lemma_le_bytes_len(words[0] as nat, 4);
        lemma_le_round_trip(words[0] as nat, 4);
        lemma_quads_round_trip(words.drop_first(), tail);
        let data = quads(words) + tail;
        let got = quads_value(data, words.len());
        assert forall|i: int| 0 <= i < words.len() implies got[i] == words[i] by {
            if i == 0 {
                assert(data.subrange(0, 4) =~= head);
            } else {
                assert(data.subrange(4 * i, 4 * i + 4) =~= (rest + tail).subrange(
                    4 * (i - 1),
                    4 * (i - 1) + 4,
                ));
                assert(quads_value(rest + tail, (words.len() - 1) as nat)[i - 1]
                    == words.drop_first()[i - 1]);
            }
        }
        assert(got =~= words);
    } else {
        assert(quads_value(quads(words) + tail, 0) =~= words);
    }
}

/// Appending a word to a run of score words appends its four bytes.
pub proof fn lemma_quads_push(words: Seq<u32>, word: u32)
    ensures
        quads(words.push(word)) == quads(words) + le_bytes(word as nat, 4),
    decreases words.len(),
{
    if words.len() == 0 {
        assert(words.push(word).drop_first() =~= Seq::<u32>::empty());
        assert(quads(words.push(word).drop_first()) =~= Seq::<u8>::empty());
        assert(quads(words.push(word)) =~= quads(words) + le_bytes(word as nat, 4));
    } else {
        lemma_quads_push(words.drop_first(), word);
        assert(words.push(word).drop_first() =~= words.drop_first().push(word));
        assert(quads(words.push(word)) =~= quads(words) + le_bytes(word as nat, 4));
    }
}

} // verus!
