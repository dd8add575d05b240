//! The encodable-value capability, and the scalar and fixed-shape encoders.
//!
//! [`Serialize`] is the single capability of the wire format: append a
//! value's canonical byte representation to a growing output buffer. Its
//! contract pins the exact bytes appended, via the per-type spec functions
//! `encodable` and `encoding`.

use crate::le_bytes::{push_u8, push_u32_le, push_u64_le};
use vstd::bytes::{spec_u32_to_le_bytes, spec_u64_to_le_bytes};
use vstd::prelude::*;

verus! {

/// The one failure the encoder itself can produce: a collection or text whose
/// count does not fit in the wire format's 4-byte length prefix. The output
/// buffer is a plain in-memory `Vec<u8>`, so sink writes themselves never
/// fail.
#[derive(Clone, Copy, Debug, PartialEq, Eq, Structural)]
pub enum EncodeError {
    Oversized,
}

/// The capability every wire type implements: append this value's canonical
/// byte representation to `buff`.
///
/// On success the buffer grows by exactly `self.encoding()`; encoding fails
/// precisely when some length prefix inside the value would not fit in four
/// bytes, and then the buffer holds the old contents plus a prefix of the
/// attempted encoding (appends are never rolled back).
pub trait Serialize {
    /// Whether every length and count inside this value's encoding fits the
    /// wire format's 4-byte prefixes.
    spec fn encodable(&self) -> bool;

    /// The canonical wire bytes of this value.
    spec fn encoding(&self) -> Seq<u8>;

    /// Append this value's canonical wire bytes to `buff`.
    fn serialize(&self, buff: &mut Vec<u8>) -> (r: Result<(), EncodeError>)
        ensures
            r is Ok <==> self.encodable(),
            r is Ok ==> final(buff)@ == old(buff)@ + self.encoding(),
            r is Err ==> old(buff)@.is_prefix_of(final(buff)@),
    ;
}

/// Encode `v` into a fresh buffer and hand the buffer back: on success it
/// holds exactly the value's canonical wire bytes, and encoding fails
/// precisely when the value is not encodable.
pub fn encode_to_vec<T: Serialize + ?Sized>(v: &T) -> (r: Result<Vec<u8>, EncodeError>)
    ensures
        r matches Ok(bytes) ==> v.encodable() && bytes@ == v.encoding(),
        r is Err ==> !v.encodable(),
{
    let mut buff: Vec<u8> = Vec::new();
    match v.serialize(&mut buff) {
        Ok(()) => {
            proof {
                assert(buff@ =~= v.encoding());
            }
            Ok(buff)
        },
        Err(e) => Err(e),
    }
}

/// A sequence is a prefix of itself with anything appended.
pub proof fn lemma_prefix_of_concat(a: Seq<u8>, b: Seq<u8>)
    ensures
        a.is_prefix_of(a + b),
{
    assert(a =~= (a + b).subrange(0, a.len() as int));
}

/// Being a prefix is transitive.
pub proof fn lemma_prefix_transitive(a: Seq<u8>, b: Seq<u8>, c: Seq<u8>)
    requires
        a.is_prefix_of(b),
        b.is_prefix_of(c),
    ensures
        a.is_prefix_of(c),
{
    assert forall|i: int| 0 <= i < a.len() implies a[i] == c.subrange(
        0,
        a.len() as int,
    )[i] by {
        assert(a[i] == b.subrange(0, a.len() as int)[i]);
        assert(b[i] == c.subrange(0, b.len() as int)[i]);
    }
    assert(a =~= c.subrange(0, a.len() as int));
}

impl Serialize for u8 {
    open spec fn encodable(&self) -> bool {
        true
    }

    open spec fn encoding(&self) -> Seq<u8> {
        seq![*self]
    }

    fn serialize(&self, buff: &mut Vec<u8>) -> (r: Result<(), EncodeError>) {
        push_u8(buff, *self);
        Ok(())
    }
}

impl Serialize for u32 {
    open spec fn encodable(&self) -> bool {
        true
    }

    open spec fn encoding(&self) -> Seq<u8> {
        spec_u32_to_le_bytes(*self)
    }

    fn serialize(&self, buff: &mut Vec<u8>) -> (r: Result<(), EncodeError>) {
        push_u32_le(buff, *self);
        Ok(())
    }
}

impl Serialize for u64 {
    open spec fn encodable(&self) -> bool {
        true
    }

    open spec fn encoding(&self) -> Seq<u8> {
        spec_u64_to_le_bytes(*self)
    }

    fn serialize(&self, buff: &mut Vec<u8>) -> (r: Result<(), EncodeError>) {
        push_u64_le(buff, *self);
        Ok(())
    }
}

/// A point in time: seconds since the epoch plus nanoseconds since the last
/// second. Encodes as the two 4-byte fields in declaration order.
#[derive(Clone, Copy, Debug, PartialEq, Eq, Structural)]
pub struct Utime {
    pub tv_sec: u32,
    pub tv_nsec: u32,
}

impl Serialize for Utime {
    open spec fn encodable(&self) -> bool {
        true
    }

    open spec fn encoding(&self) -> Seq<u8> {
        spec_u32_to_le_bytes(self.tv_sec) + spec_u32_to_le_bytes(self.tv_nsec)
    }

    fn serialize(&self, buff: &mut Vec<u8>) -> (r: Result<(), EncodeError>) {
        let ghost b0 = buff@;
        push_u32_le(buff, self.tv_sec);
        push_u32_le(buff, self.tv_nsec);
        proof {
            assert(buff@ =~= b0 + self.encoding());
        }
        Ok(())
    }
}

/// An entity identifier: a one-byte type tag followed by an 8-byte numeric
/// id, both little-endian.
#[derive(Clone, Copy, Debug, PartialEq, Eq, Structural)]
pub struct EntityName {
    pub ceph_type: u8,
    pub num: u64,
}

impl Serialize for EntityName {
    open spec fn encodable(&self) -> bool {
        true
    }

    open spec fn encoding(&self) -> Seq<u8> {
        seq![self.ceph_type] + spec_u64_to_le_bytes(self.num)
    }

    fn serialize(&self, buff: &mut Vec<u8>) -> (r: Result<(), EncodeError>) {
        let ghost b0 = buff@;
        push_u8(buff, self.ceph_type);
        push_u64_le(buff, self.num);
        proof {
            assert(buff@ =~= b0 + self.encoding());
        }
        Ok(())
    }
}

/// An ordered pair of heterogeneous values. Encodes as the first field's
/// encoding immediately followed by the second's, with no prefix or padding.
pub struct CephPair<A, B> where A: Serialize, B: Serialize {
    pub a: A,
    pub b: B,
}

impl<A, B> Serialize for CephPair<A, B> where A: Serialize, B: Serialize {
    open spec fn encodable(&self) -> bool {
        self.a.encodable() && self.b.encodable()
    }

    open spec fn encoding(&self) -> Seq<u8> {
        self.a.encoding() + self.b.encoding()
    }

    fn serialize(&self, buff: &mut Vec<u8>) -> (r: Result<(), EncodeError>) {
        let ghost b0 = buff@;
        match self.a.serialize(buff) {
            Ok(()) => {},
            Err(e) => {
                return Err(e);
            },
        }
        match self.b.serialize(buff) {
            Ok(()) => {},
            Err(e) => {
                proof {
                    lemma_prefix_of_concat(b0, self.a.encoding());
                    lemma_prefix_transitive(b0, b0 + self.a.encoding(), buff@);
                }
                return Err(e);
            },
        }
        proof {
            assert(buff@ =~= b0 + self.encoding());
        }
        Ok(())
    }
}

/// An ordered triple of heterogeneous values. Encodes as the three fields'
/// encodings concatenated in declaration order.
pub struct CephTriple<A, B, C> where A: Serialize, B: Serialize, C: Serialize {
    pub a: A,
    pub b: B,
    pub c: C,
}

impl<A, B, C> Serialize for CephTriple<A, B, C> where
    A: Serialize,
    B: Serialize,
    C: Serialize,
 {
    open spec fn encodable(&self) -> bool {
        self.a.encodable() && self.b.encodable() && self.c.encodable()
    }

    open spec fn encoding(&self) -> Seq<u8> {
        self.a.encoding() + self.b.encoding() + self.c.encoding()
    }

    fn serialize(&self, buff: &mut Vec<u8>) -> (r: Result<(), EncodeError>) {
        let ghost b0 = buff@;
        match self.a.serialize(buff) {
            Ok(()) => {},
            Err(e) => {
                return Err(e);
            },
        }
        match self.b.serialize(buff) {
            Ok(()) => {},
            Err(e) => {
                proof {
                    lemma_prefix_of_concat(b0, self.a.encoding());
                    lemma_prefix_transitive(b0, b0 + self.a.encoding(), buff@);
                }
                return Err(e);
            },
        }
        match self.c.serialize(buff) {
            Ok(()) => {},
            Err(e) => {
                proof {
                    lemma_prefix_of_concat(b0, self.a.encoding() + self.b.encoding());
                    assert(b0 + (self.a.encoding() + self.b.encoding()) =~= b0 + self.a.encoding()
                        + self.b.encoding());
                    lemma_prefix_transitive(b0, b0 + self.a.encoding() + self.b.encoding(), buff@);
                }
                return Err(e);
            },
        }
        proof {
            assert(buff@ =~= b0 + self.encoding());
        }
        Ok(())
    }
}

} // verus!
