//! Variable-length wire shapes: sequences, text, optionals and mappings.
//!
//! Text, sequences and mappings share one algorithm: a 4-byte little-endian
//! count prefix (byte count for text, element or entry count otherwise)
//! followed by the payload. A count that does not fit in four bytes is
//! rejected with [`EncodeError::Oversized`] rather than truncated. Optionals
//! are a one-byte presence flag followed by the value only when present.

use crate::le_bytes::{push_u8, push_u32_le};
use crate::primitives::{
    lemma_prefix_of_concat, lemma_prefix_transitive, EncodeError, Serialize,
};
use vstd::bytes::spec_u32_to_le_bytes;
use vstd::prelude::*;
use vstd::string::StrSliceExecFns;
use vstd::utf8::encode_utf8;

verus! {

/// The concatenation of the encodings of a sequence's elements, in order.
pub open spec fn encoding_of_seq<A: Serialize>(s: Seq<A>) -> Seq<u8>
    decreases s.len(),
{
    if s.len() == 0 {
        Seq::empty()
    } else {
        encoding_of_seq(s.drop_last()) + s.last().encoding()
    }
}

/// Every element of the sequence is itself encodable.
pub open spec fn seq_encodable<A: Serialize>(s: Seq<A>) -> bool {
    forall|i: int| 0 <= i < s.len() ==> s[i].encodable()
}

/// Extending the encoded prefix of a sequence by one element appends exactly
/// that element's encoding.
pub proof fn lemma_encoding_of_seq_step<A: Serialize>(s: Seq<A>, i: int)
    requires
        0 <= i < s.len(),
    ensures
        encoding_of_seq(s.take(i + 1)) == encoding_of_seq(s.take(i)) + s[i].encoding(),
{
    assert(s.take(i + 1).drop_last() =~= s.take(i));
    assert(s.take(i + 1).last() == s[i]);
}

impl<A> Serialize for Vec<A> where A: Serialize {
    open spec fn encodable(&self) -> bool {
        self@.len() <= 0xffff_ffff && seq_encodable(self@)
    }

    open spec fn encoding(&self) -> Seq<u8> {
        spec_u32_to_le_bytes(self@.len() as u32) + encoding_of_seq(self@)
    }

    fn serialize(&self, buff: &mut Vec<u8>) -> (r: Result<(), EncodeError>) {
        let ghost b0 = buff@;
        if self.len() > u32::MAX as usize {
            return Err(EncodeError::Oversized);
        }
        push_u32_le(buff, self.len() as u32);
        let ghost prefixed = b0 + spec_u32_to_le_bytes(self@.len() as u32);
        let mut i: usize = 0;
        while i < self.len()
            invariant
                i <= self@.len(),
                self@.len() <= 0xffff_ffff,
                seq_encodable(self@.take(i as int)),
                buff@ == prefixed + encoding_of_seq(self@.take(i as int)),
                prefixed == b0 + spec_u32_to_le_bytes(self@.len() as u32),
                b0 == old(buff)@,
            decreases self@.len() - i,
        {
            let ghost before = buff@;
            let element = &self[i];
            match element.serialize(buff) {
                Ok(()) => {},
                Err(e) => {
                    proof {
                        lemma_prefix_of_concat(
                            b0,
                            spec_u32_to_le_bytes(self@.len() as u32) + encoding_of_seq(
                                self@.take(i as int),
                            ),
                        );
                        assert(before =~= b0 + (spec_u32_to_le_bytes(self@.len() as u32)
                            + encoding_of_seq(self@.take(i as int))));
                        lemma_prefix_transitive(b0, before, buff@);
                    }
                    return Err(e);
                },
            }
            proof {
                lemma_encoding_of_seq_step(self@, i as int);
                assert(buff@ =~= prefixed + encoding_of_seq(self@.take(i + 1 as int)));
            }
            i = i + 1;
        }
        proof {
            assert(self@.take(i as int) =~= self@);
            assert(buff@ =~= b0 + self.encoding());
        }
        Ok(())
    }
}

impl Serialize for str {
    open spec fn encodable(&self) -> bool {
        encode_utf8(self@).len() <= 0xffff_ffff
    }

    open spec fn encoding(&self) -> Seq<u8> {
        spec_u32_to_le_bytes(encode_utf8(self@).len() as u32) + encode_utf8(self@)
    }

    fn serialize(&self, buff: &mut Vec<u8>) -> (r: Result<(), EncodeError>) {
        let ghost b0 = buff@;
        let mut bytes = self.as_bytes_vec();
        let n: usize = bytes.len();
        if n > u32::MAX as usize {
            return Err(EncodeError::Oversized);
        }
        push_u32_le(buff, n as u32);
        buff.append(&mut bytes);
        proof {
            assert(buff@ =~= b0 + self.encoding());
        }
        Ok(())
    }
}

impl Serialize for String {
    open spec fn encodable(&self) -> bool {
        encode_utf8(self@).len() <= 0xffff_ffff
    }

    open spec fn encoding(&self) -> Seq<u8> {
        spec_u32_to_le_bytes(encode_utf8(self@).len() as u32) + encode_utf8(self@)
    }

    fn serialize(&self, buff: &mut Vec<u8>) -> (r: Result<(), EncodeError>) {
        self.as_str().serialize(buff)
    }
}

impl<T> Serialize for Option<T> where T: Serialize {
    open spec fn encodable(&self) -> bool {
        match self {
            Some(t) => t.encodable(),
            None => true,
        }
    }

    open spec fn encoding(&self) -> Seq<u8> {
        match self {
            Some(t) => seq![1u8] + t.encoding(),
            None => seq![0u8],
        }
    }

    fn serialize(&self, buff: &mut Vec<u8>) -> (r: Result<(), EncodeError>) {
        let ghost b0 = buff@;
        match self {
            Some(t) => {
                push_u8(buff, 1);
                match t.serialize(buff) {
                    Ok(()) => {},
                    Err(e) => {
                        proof {
                            lemma_prefix_of_concat(b0, seq![1u8]);
                            lemma_prefix_transitive(b0, b0 + seq![1u8], buff@);
                        }
                        return Err(e);
                    },
                }
                proof {
                    assert(buff@ =~= b0 + self.encoding());
                }
            },
            None => {
                push_u8(buff, 0);
                proof {
                    assert(buff@ =~= b0 + self.encoding());
                }
            },
        }
        Ok(())
    }
}

/// The concatenation of the encodings of a mapping's entries, in order: each
/// entry is its key's encoding immediately followed by its value's.
pub open spec fn encoding_of_entries<K: Serialize, V: Serialize>(s: Seq<(K, V)>) -> Seq<u8>
    decreases s.len(),
{
    if s.len() == 0 {
        Seq::empty()
    } else {
        encoding_of_entries(s.drop_last()) + s.last().0.encoding() + s.last().1.encoding()
    }
}

/// Every key and every value of the entry sequence is itself encodable.
pub open spec fn entries_encodable<K: Serialize, V: Serialize>(s: Seq<(K, V)>) -> bool {
    forall|i: int| 0 <= i < s.len() ==> s[i].0.encodable() && s[i].1.encodable()
}

/// Extending the encoded prefix of an entry sequence by one entry appends
/// exactly that entry's key encoding followed by its value encoding.
pub proof fn lemma_encoding_of_entries_step<K: Serialize, V: Serialize>(s: Seq<(K, V)>, i: int)
    requires
        0 <= i < s.len(),
    ensures
        encoding_of_entries(s.take(i + 1)) == encoding_of_entries(s.take(i)) + s[i].0.encoding()
            + s[i].1.encoding(),
{
    assert(s.take(i + 1).drop_last() =~= s.take(i));
    assert(s.take(i + 1).last() == s[i]);
}

/// An associative key-to-value collection with its entries in a fixed,
/// caller-visible order; the wire shape is a 4-byte entry count followed by
/// each entry's key encoding immediately followed by its value encoding.
///
/// The caller keeps the keys pairwise distinct, as [`CephMap::keys_unique`]
/// states; the encoder does not depend on it.
pub struct CephMap<K, V> where K: Serialize, V: Serialize {
    pub entries: Vec<(K, V)>,
}

impl<K, V> CephMap<K, V> where K: Serialize, V: Serialize {
    /// No two entries share a key.
    pub open spec fn keys_unique(&self) -> bool {
        forall|i: int, j: int|
            0 <= i < j < self.entries@.len() ==> self.entries@[i].0 != self.entries@[j].0
    }
}

impl<K, V> Serialize for CephMap<K, V> where K: Serialize, V: Serialize {
    open spec fn encodable(&self) -> bool {
        self.entries@.len() <= 0xffff_ffff && entries_encodable(self.entries@)
    }

    open spec fn encoding(&self) -> Seq<u8> {
        spec_u32_to_le_bytes(self.entries@.len() as u32) + encoding_of_entries(self.entries@)
    }

    fn serialize(&self, buff: &mut Vec<u8>) -> (r: Result<(), EncodeError>) {
        let ghost b0 = buff@;
        if self.entries.len() > u32::MAX as usize {
            return Err(EncodeError::Oversized);
        }
        push_u32_le(buff, self.entries.len() as u32);
        let ghost prefixed = b0 + spec_u32_to_le_bytes(self.entries@.len() as u32);
        let mut i: usize = 0;
        while i < self.entries.len()
            invariant
                i <= self.entries@.len(),
                self.entries@.len() <= 0xffff_ffff,
                entries_encodable(self.entries@.take(i as int)),
                buff@ == prefixed + encoding_of_entries(self.entries@.take(i as int)),
                prefixed == b0 + spec_u32_to_le_bytes(self.entries@.len() as u32),
                b0 == old(buff)@,
            decreases self.entries@.len() - i,
        {
            let ghost before = buff@;
            let entry = &self.entries[i];
            match entry.0.serialize(buff) {
                Ok(()) => {},
                Err(e) => {
                    proof {
                        lemma_prefix_of_concat(
                            b0,
                            spec_u32_to_le_bytes(self.entries@.len() as u32)
                                + encoding_of_entries(self.entries@.take(i as int)),
                        );
                        assert(before =~= b0 + (spec_u32_to_le_bytes(self.entries@.len() as u32)
                            + encoding_of_entries(self.entries@.take(i as int))));
                        lemma_prefix_transitive(b0, before, buff@);
                    }
                    return Err(e);
                },
            }
            let ghost after_key = buff@;
            match entry.1.serialize(buff) {
                Ok(()) => {},
                Err(e) => {
                    proof {
                        lemma_prefix_of_concat(
                            b0,
                            spec_u32_to_le_bytes(self.entries@.len() as u32)
                                + encoding_of_entries(self.entries@.take(i as int))
                                + self.entries@[i as int].0.encoding(),
                        );
                        assert(after_key =~= b0 + (spec_u32_to_le_bytes(
                            self.entries@.len() as u32,
                        ) + encoding_of_entries(self.entries@.take(i as int))
                            + self.entries@[i as int].0.encoding()));
                        lemma_prefix_transitive(b0, after_key, buff@);
                    }
                    return Err(e);
                },
            }
            proof {
                lemma_encoding_of_entries_step(self.entries@, i as int);
                assert(buff@ =~= prefixed + encoding_of_entries(self.entries@.take(i + 1 as int)));
            }
            i = i + 1;
        }
        proof {
            assert(self.entries@.take(i as int) =~= self.entries@);
            assert(buff@ =~= b0 + self.encoding());
        }
        Ok(())
    }
}

} // verus!
