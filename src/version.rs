//! Version identifiers: a 31-bit ordinal with a snapshot flag in the high bit,
//! stored as four little-endian bytes.
use vstd::prelude::*;

verus! {

/// Mask selecting the snapshot flag bit.
pub const SNAPSHOT_BIT: u32 = 0x8000_0000;

/// Mask selecting the ordinal bits.
pub const ORDINAL_MASK: u32 = 0x7fff_ffff;

/// A release version: ordinal in the low 31 bits, snapshot flag in the high bit.
/// Every `u32` is a valid identifier.
#[derive(Copy, Clone, Debug, PartialEq, Eq, Structural)]
pub struct VersionId(pub u32);

/// The little-endian byte layout of a 32-bit word.
pub open spec fn le_bytes(x: u32) -> Seq<u8> {
    seq![
        (x & 0xff) as u8,
        ((x >> 8u32) & 0xff) as u8,
        ((x >> 16u32) & 0xff) as u8,
        ((x >> 24u32) & 0xff) as u8,
    ]
}

/// The 32-bit word whose little-endian layout starts `b`.
pub open spec fn le_word(b: Seq<u8>) -> u32
    recommends
        b.len() >= 4,
{
    (b[0] as u32) | ((b[1] as u32) << 8u32) | ((b[2] as u32) << 16u32) | ((b[3] as u32) << 24u32)
}

/// Decoding the four bytes of a word's layout gives the word back.
pub proof fn lemma_le_round_trip(x: u32)
    ensures
        le_word(le_bytes(x)) == x,
{
    assert((x & 0xff) < 256 && ((x >> 8u32) & 0xff) < 256 && ((x >> 16u32) & 0xff) < 256 && ((x
        >> 24u32) & 0xff) < 256) by (bit_vector);
    assert(((x & 0xff) | (((x >> 8u32) & 0xff) << 8u32) | (((x >> 16u32) & 0xff) << 16u32) | (((x
        >> 24u32) & 0xff) << 24u32)) == x) by (bit_vector);
}

impl VersionId {
    /// The release ordinal; the only key used to order versions.
    pub open spec fn ordinal(self) -> u32 {
        self.0 & ORDINAL_MASK
    }

    /// Whether this is a snapshot (rather than stable) release.
    pub open spec fn snapshot(self) -> bool {
        self.0 & SNAPSHOT_BIT != 0
    }

    /// Builds the identifier of ordinal `ordinal`, flagged as a snapshot or not.
    pub fn new(ordinal: u32, snapshot: bool) -> (r: VersionId)
        requires
            ordinal <= ORDINAL_MASK,
        ensures
            r.ordinal() == ordinal,
            r.snapshot() == snapshot,
    {
        if snapshot {
            assert((ordinal | 0x8000_0000u32) & 0x7fff_ffffu32 == ordinal) by (bit_vector)
                requires
                    ordinal <= 0x7fff_ffffu32,
            ;
            assert((ordinal | 0x8000_0000u32) & 0x8000_0000u32 != 0) by (bit_vector);
            VersionId(ordinal | SNAPSHOT_BIT)
        } else {
            assert(ordinal & 0x7fff_ffffu32 == ordinal) by (bit_vector)
                requires
                    ordinal <= 0x7fff_ffffu32,
            ;
            assert(ordinal & 0x8000_0000u32 == 0) by (bit_vector)
                requires
                    ordinal <= 0x7fff_ffffu32,
            ;
            VersionId(ordinal)
        }
    }

    /// Whether the snapshot flag is set.
    pub fn is_snapshot(self) -> (r: bool)
        ensures
            r == self.snapshot(),
    {
        (self.0 & SNAPSHOT_BIT) != 0
    }

    /// The ordinal, with the flag masked off.
    pub fn value(self) -> (r: u32)
        ensures
            r == self.ordinal(),
            r <= ORDINAL_MASK,
    {
        let x = self.0;
        assert(x & 0x7fff_ffffu32 <= 0x7fff_ffffu32) by (bit_vector);
        x & ORDINAL_MASK
    }

    /// Decodes the first four bytes of `bytes`; `None` when there are fewer than four.
    pub fn from_bytes(bytes: &[u8]) -> (r: Option<VersionId>)
        ensures
            r is None <==> bytes@.len() < 4,
            r matches Some(v) ==> v.0 == le_word(bytes@),
    {
        if bytes.len() < 4 {
            None
        } else {
            let w = (bytes[0] as u32) | ((bytes[1] as u32) << 8u32) | ((bytes[2] as u32) << 16u32)
                | ((bytes[3] as u32) << 24u32);
            Some(VersionId(w))
        }
    }

    /// The four-byte little-endian encoding of this identifier.
    pub fn write_bytes(self) -> (r: [u8; 4])
        ensures
            r@ == le_bytes(self.0),
    {
        let x = self.0;
        let r = [
            (x & 0xff) as u8,
            ((x >> 8u32) & 0xff) as u8,
            ((x >> 16u32) & 0xff) as u8,
            ((x >> 24u32) & 0xff) as u8,
        ];
        assert(r@ =~= le_bytes(x));
        r
    }
}

} // verus!
