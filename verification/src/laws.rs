//! The stated laws of the wire format, proved once and for all values.

use crate::containers::{
    encoding_of_entries, encoding_of_seq, CephMap,
};
use crate::primitives::{CephPair, Serialize};
use vstd::bytes::{
    lemma_auto_spec_u32_to_from_le_bytes, lemma_auto_spec_u64_to_from_le_bytes,
    spec_u32_from_le_bytes, spec_u32_to_le_bytes, spec_u64_from_le_bytes,
};
use vstd::prelude::*;
use vstd::utf8::encode_utf8;

verus! {

/// An 8-bit scalar encodes to exactly one byte, and that byte is the value:
/// reading it back reproduces the scalar.
pub proof fn lemma_u8_round_trip(v: u8)
    ensures
        v.encoding().len() == 1,
        v.encoding()[0] == v,
{
}

/// A 32-bit scalar encodes to exactly its 4-byte width, and reading the bytes
/// back with the little-endian rule reproduces the value.
pub proof fn lemma_u32_round_trip(v: u32)
    ensures
        v.encoding().len() == 4,
        spec_u32_from_le_bytes(v.encoding()) == v,
{
    lemma_auto_spec_u32_to_from_le_bytes();
    assert(spec_u32_to_le_bytes(v).len() == 4);
    assert(spec_u32_from_le_bytes(spec_u32_to_le_bytes(v)) == v);
}

/// A 64-bit scalar encodes to exactly its 8-byte width, and reading the bytes
/// back with the little-endian rule reproduces the value.
pub proof fn lemma_u64_round_trip(v: u64)
    ensures
        v.encoding().len() == 8,
        spec_u64_from_le_bytes(v.encoding()) == v,
{
    lemma_auto_spec_u64_to_from_le_bytes();
}

/// The sum of the encoded lengths of a sequence's elements.
pub open spec fn total_encoded_len<A: Serialize>(s: Seq<A>) -> nat
    decreases s.len(),
{
    if s.len() == 0 {
        0
    } else {
        total_encoded_len(s.drop_last()) + s.last().encoding().len()
    }
}

/// The concatenated element encodings are exactly as long as the sum of the
/// elements' encoded lengths.
pub proof fn lemma_encoding_of_seq_len<A: Serialize>(s: Seq<A>)
    ensures
        encoding_of_seq(s).len() == total_encoded_len(s),
    decreases s.len(),
{
    if s.len() != 0 {
        lemma_encoding_of_seq_len(s.drop_last());
    }
}

/// A sequence's encoding is 4 bytes of count plus the sum of its elements'
/// encoded lengths; the empty sequence encodes as the 4-byte zero count and
/// nothing else.
pub proof fn lemma_sequence_encoding_len<A: Serialize>(v: Vec<A>)
    ensures
        v.encoding().len() == 4 + total_encoded_len(v@),
        v@.len() == 0 ==> v.encoding() == spec_u32_to_le_bytes(0),
{
    lemma_auto_spec_u32_to_from_le_bytes();
    lemma_encoding_of_seq_len(v@);
    if v@.len() == 0 {
        assert(v.encoding() =~= spec_u32_to_le_bytes(0));
    }
}

/// The sum over a mapping's entries of (key encoded length + value encoded
/// length).
pub open spec fn total_entry_len<K: Serialize, V: Serialize>(s: Seq<(K, V)>) -> nat
    decreases s.len(),
{
    if s.len() == 0 {
        0
    } else {
        total_entry_len(s.drop_last()) + s.last().0.encoding().len()
            + s.last().1.encoding().len()
    }
}

/// The concatenated entry encodings are exactly as long as the sum over the
/// entries of key length plus value length.
pub proof fn lemma_encoding_of_entries_len<K: Serialize, V: Serialize>(s: Seq<(K, V)>)
    ensures
        encoding_of_entries(s).len() == total_entry_len(s),
    decreases s.len(),
{
    if s.len() != 0 {
        lemma_encoding_of_entries_len(s.drop_last());
    }
}

/// A mapping's encoding is 4 bytes of count plus, for each entry, the key's
/// encoded length plus the value's; the empty mapping encodes as the 4-byte
/// zero count and nothing else.
pub proof fn lemma_mapping_encoding_len<K: Serialize, V: Serialize>(m: CephMap<K, V>)
    ensures
        m.encoding().len() == 4 + total_entry_len(m.entries@),
        m.entries@.len() == 0 ==> m.encoding() == spec_u32_to_le_bytes(0),
{
    lemma_auto_spec_u32_to_from_le_bytes();
    lemma_encoding_of_entries_len(m.entries@);
    if m.entries@.len() == 0 {
        assert(m.encoding() =~= spec_u32_to_le_bytes(0));
    }
}

/// An absent optional encodes as the single byte 0; a present one encodes as
/// the byte 1 followed by the inner value's encoding, one byte longer than
/// the inner encoding alone.
pub proof fn lemma_optional_encoding<T: Serialize>(o: Option<T>)
    ensures
        o is None ==> o.encoding() == seq![0u8],
        o matches Some(v) ==> o.encoding().len() == 1 + v.encoding().len()
            && o.encoding()[0] == 1u8 && o.encoding() == seq![1u8] + v.encoding(),
{
}

/// A text value encodes as the 4-byte little-endian count of its UTF-8 bytes
/// followed by those bytes verbatim: byte count, not character count.
pub proof fn lemma_text_encoding(s: &str)
    ensures
        s.encoding() == spec_u32_to_le_bytes(encode_utf8(s@).len() as u32) + encode_utf8(s@),
        s.encoding().len() == 4 + encode_utf8(s@).len(),
{
    lemma_auto_spec_u32_to_from_le_bytes();
}

/// Nesting composites associates: a pair whose second element is itself a
/// pair encodes byte-identically to the three leaf encodings concatenated in
/// declared order.
pub proof fn lemma_pair_nesting<A: Serialize, B: Serialize, C: Serialize>(
    p: CephPair<A, CephPair<B, C>>,
)
    ensures
        p.encoding() == p.a.encoding() + p.b.a.encoding() + p.b.b.encoding(),
{
    assert(p.encoding() =~= p.a.encoding() + p.b.a.encoding() + p.b.b.encoding());
}

} // verus!
