//! Mapping entries: a version identifier and a remapped name, stored as the
//! four version bytes followed by the name's UTF-8 bytes.
use vstd::prelude::*;
use vstd::utf8::*;

use crate::version::{le_bytes, le_word, lemma_le_round_trip, VersionId};

verus! {

broadcast use vstd::utf8::group_utf8_lib;

/// The stored form of the entry `(id, name)`.
pub open spec fn encode_entry(id: VersionId, name: Seq<char>) -> Seq<u8> {
    le_bytes(id.0) + encode_utf8(name)
}

/// The entry a stored record holds; `None` when the header is short or the
/// name bytes are not UTF-8.
pub open spec fn decode_entry(b: Seq<u8>) -> Option<(VersionId, Seq<char>)> {
    if b.len() >= 4 && valid_utf8(b.subrange(4, b.len() as int)) {
        Some((VersionId(le_word(b)), decode_utf8(b.subrange(4, b.len() as int))))
    } else {
        None
    }
}

/// Decoding the stored form of any entry gives that entry back.
pub proof fn lemma_entry_round_trip(id: VersionId, name: Seq<char>)
    ensures
        decode_entry(encode_entry(id, name)) == Some((id, name)),
{
    let b = encode_entry(id, name);
    assert(b.subrange(4, b.len() as int) =~= encode_utf8(name));
    assert(b.subrange(0, 4) =~= le_bytes(id.0));
    assert(le_word(b) == le_word(le_bytes(id.0)));
    lemma_le_round_trip(id.0);
}

/// Relies on `String::from_utf8`: it succeeds exactly on valid UTF-8, and the
/// string then holds the characters those bytes encode.
#[verifier::external_body]
fn string_from_utf8(bytes: Vec<u8>) -> (r: Option<String>)
    ensures
        r is Some <==> valid_utf8(bytes@),
        r matches Some(s) ==> s@ == decode_utf8(bytes@),
{
    String::from_utf8(bytes).ok()
}

/// One version's remapped name for an identifier.
#[derive(Debug, Clone)]
pub struct VersionEntry {
    pub id: VersionId,
    pub name: String,
}

impl View for VersionEntry {
    type V = (VersionId, Seq<char>);

    open spec fn view(&self) -> (VersionId, Seq<char>) {
        (self.id, self.name@)
    }
}

impl VersionEntry {
    /// Decodes a stored record: `None` exactly when [`decode_entry`] finds none.
    pub fn from_bytes(b: &[u8]) -> (r: Option<VersionEntry>)
        ensures
            match r {
                Some(e) => decode_entry(b@) == Some(e@),
                None => decode_entry(b@) is None,
            },
    {
        let id = match VersionId::from_bytes(b) {
            Some(id) => id,
            None => return None,
        };
        let mut rest: Vec<u8> = Vec::new();
        let mut i: usize = 4;
        while i < b.len()
            invariant
                4 <= i <= b@.len(),
                rest@ == b@.subrange(4, i as int),
            decreases b@.len() - i,
        {
            rest.push(b[i]);
            i = i + 1;
            assert(rest@ =~= b@.subrange(4, i as int));
        }
        match string_from_utf8(rest) {
            Some(name) => Some(VersionEntry { id, name }),
            None => None,
        }
    }

    /// The stored form of this entry.
    pub fn write_bytes(&self) -> (r: Vec<u8>)
        ensures
            r@ == encode_entry(self.id, self.name@),
    {
        let head = self.id.write_bytes();
        let mut buffer: Vec<u8> = Vec::new();
        buffer.push(head[0]);
        buffer.push(head[1]);
        buffer.push(head[2]);
        buffer.push(head[3]);
        assert(buffer@ =~= le_bytes(self.id.0));
        let name = self.name.as_str().as_bytes();
        let mut i: usize = 0;
        while i < name.len()
            invariant
                i <= name@.len(),
                name@ == encode_utf8(self.name@),
                buffer@ == le_bytes(self.id.0) + name@.subrange(0, i as int),
            decreases name@.len() - i,
        {
            buffer.push(name[i]);
            i = i + 1;
            assert(buffer@ =~= le_bytes(self.id.0) + name@.subrange(0, i as int));
        }
        assert(name@.subrange(0, i as int) =~= name@);
        buffer
    }
}

/// One input row: obfuscated identifier, remapped name and a category that this
/// layer accepts but does not store.
#[derive(Debug, Clone)]
pub struct McpRecord {
    pub serage: String,
    pub name: String,
    pub side: u32,
}

impl McpRecord {
    /// The entry this row contributes to `version`.
    pub fn as_entry(&self, version: VersionId) -> (r: VersionEntry)
        ensures
            r@ == (version, self.name@),
    {
        VersionEntry { id: version, name: self.name.clone() }
    }
}

} // verus!
