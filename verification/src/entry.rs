//! The token database entry: one static record per distinct
//! (domain, format string) pair, in a packed layout an extraction tool can
//! scan a compiled artifact for. Fields in order, least significant byte
//! first, no padding: the magic sentinel, the token, the domain length and
//! string length (each counting its terminating zero byte), then the
//! domain bytes and string bytes, each followed by one zero byte. The
//! zero terminator is the secondary length boundary, so neither payload
//! may hold an interior zero byte.

use vstd::prelude::*;
use vstd::slice::slice_to_vec;
use vstd::string::StringSliceAdditionalSpecFns;
use crate::encode::{push_u32_le, u32_le_bytes};
use crate::error::TokenizeError;
use crate::hash::{hash_bytes_spec, hash_string};

verus! {

/// Sentinel identifying a token database entry to an extraction tool.
pub const TOKENIZER_ENTRY_MAGIC: u32 = 0xBAA98DEE;

/// Whether the sequence holds a zero byte anywhere.
pub open spec fn has_zero_byte(s: Seq<u8>) -> bool {
    exists|i: int| 0 <= i < s.len() && s[i] == 0
}

/// One token-to-string mapping: the token, and the domain and format
/// string payloads without their terminators.
pub struct EntryRecord {
    pub token: u32,
    pub domain: Vec<u8>,
    pub text: Vec<u8>,
}

impl EntryRecord {
    /// No interior zero bytes, and each payload short enough that its
    /// length plus the terminator fits the 32-bit length field.
    pub open spec fn wf(&self) -> bool {
        &&& !has_zero_byte(self.domain@)
        &&& !has_zero_byte(self.text@)
        &&& self.domain@.len() + 1 <= u32::MAX
        &&& self.text@.len() + 1 <= u32::MAX
    }
}

/// The packed on-disk bytes of an entry with the given token and
/// payloads.
pub open spec fn entry_layout(token: u32, domain: Seq<u8>, text: Seq<u8>) -> Seq<u8> {
    u32_le_bytes(TOKENIZER_ENTRY_MAGIC) + u32_le_bytes(token) + u32_le_bytes(
        (domain.len() + 1) as u32,
    ) + u32_le_bytes((text.len() + 1) as u32) + domain + seq![0u8] + text + seq![0u8]
}

/// The packed on-disk bytes of a record.
pub open spec fn entry_bytes_spec(e: EntryRecord) -> Seq<u8> {
    entry_layout(e.token, e.domain@, e.text@)
}

/// Whether the slice holds a zero byte anywhere.
pub fn contains_zero_byte(bytes: &[u8]) -> (r: bool)
    ensures
        r == has_zero_byte(bytes@),
{
    let mut i: usize = 0;
    while i < bytes.len()
        invariant
            i <= bytes@.len(),
            forall|j: int| 0 <= j < i ==> bytes@[j] != 0,
        decreases bytes@.len() - i,
    {
        if bytes[i] == 0 {
            return true;
        }
        i += 1;
    }
    false
}

/// Builds the entry record for one (domain, format string) pair: the
/// token is the hash of the format string alone, never of the domain.
/// Fails with `InvalidContent`, and only then, when either input holds an
/// interior zero byte, since the zero terminator is the only secondary
/// length boundary the extraction tool can rely on.
pub fn build_entry(domain: &str, text: &str) -> (r: Result<EntryRecord, TokenizeError>)
    requires
        domain.spec_bytes().len() + 1 <= u32::MAX,
        text.spec_bytes().len() + 1 <= u32::MAX,
    ensures
        match r {
            Ok(e) => {
                &&& !has_zero_byte(domain.spec_bytes())
                &&& !has_zero_byte(text.spec_bytes())
                &&& e.token == hash_bytes_spec(text.spec_bytes())
                &&& e.domain@ == domain.spec_bytes()
                &&& e.text@ == text.spec_bytes()
                &&& e.wf()
            },
            Err(err) => err == TokenizeError::InvalidContent && (has_zero_byte(
                domain.spec_bytes(),
            ) || has_zero_byte(text.spec_bytes())),
        },
{
    let domain_bytes = domain.as_bytes();
    let text_bytes = text.as_bytes();
    if contains_zero_byte(domain_bytes) || contains_zero_byte(text_bytes) {
        Err(TokenizeError::InvalidContent)
    } else {
        Ok(
            EntryRecord {
                token: hash_string(text),
                domain: slice_to_vec(domain_bytes),
                text: slice_to_vec(text_bytes),
            },
        )
    }
}

impl EntryRecord {
    /// The record's packed bytes, exactly as the extraction tool reads
    /// them from a compiled artifact.
    pub fn to_bytes(&self) -> (r: Vec<u8>)
        requires
            self.wf(),
        ensures
            r@ == entry_bytes_spec(*self),
    {
        let mut out: Vec<u8> = Vec::new();
        push_u32_le(&mut out, TOKENIZER_ENTRY_MAGIC);
        push_u32_le(&mut out, self.token);
        push_u32_le(&mut out, (self.domain.len() + 1) as u32);
        push_u32_le(&mut out, (self.text.len() + 1) as u32);
        out.extend_from_slice(self.domain.as_slice());
        out.push(0);
        out.extend_from_slice(self.text.as_slice());
        out.push(0);
        proof {
            assert(out@ =~= entry_bytes_spec(*self));
        }
        out
    }
}

/// The packed bytes of a sequence of records, one after the other with
/// nothing between, as an extraction tool finds them in an artifact.
pub open spec fn catalog_bytes_spec(entries: Seq<EntryRecord>) -> Seq<u8>
    decreases entries.len(),
{
    if entries.len() == 0 {
        Seq::empty()
    } else {
        entry_bytes_spec(entries[0]) + catalog_bytes_spec(entries.drop_first())
    }
}

/// Splitting a record sequence splits its catalog bytes at the same
/// place.
pub proof fn lemma_catalog_bytes_append(s1: Seq<EntryRecord>, s2: Seq<EntryRecord>)
    ensures
        catalog_bytes_spec(s1 + s2) == catalog_bytes_spec(s1) + catalog_bytes_spec(s2),
    decreases s1.len(),
{
    if s1.len() == 0 {
        assert(s1 + s2 =~= s2);
        assert(catalog_bytes_spec(s1) + catalog_bytes_spec(s2) =~= catalog_bytes_spec(s2));
    } else {
        lemma_catalog_bytes_append(s1.drop_first(), s2);
        assert((s1 + s2).drop_first() =~= s1.drop_first() + s2);
        assert((s1 + s2)[0] == s1[0]);
        assert(entry_bytes_spec(s1[0]) + (catalog_bytes_spec(s1.drop_first())
            + catalog_bytes_spec(s2)) =~= (entry_bytes_spec(s1[0]) + catalog_bytes_spec(
            s1.drop_first(),
        )) + catalog_bytes_spec(s2));
    }
}

/// The append-only table of registered entries: every distinct
/// token-producing string ends up in one discoverable catalog.
/// Registering the same pair twice is harmless; deduplication belongs to
/// the surrounding build tooling, not to this table.
pub struct TokenCatalog {
    pub entries: Vec<EntryRecord>,
}

impl TokenCatalog {
    pub open spec fn wf(&self) -> bool {
        forall|i: int| 0 <= i < self.entries@.len() ==> (#[trigger] self.entries@[i]).wf()
    }

    pub fn new() -> (c: TokenCatalog)
        ensures
            c.entries@ == Seq::<EntryRecord>::empty(),
            c.wf(),
    {
        TokenCatalog { entries: Vec::new() }
    }

    /// Appends one record; earlier registrations are never reordered or
    /// dropped.
    pub fn register(&mut self, e: EntryRecord)
        requires
            e.wf(),
            old(self).wf(),
        ensures
            final(self).entries@ == old(self).entries@.push(e),
            final(self).wf(),
    {
        self.entries.push(e);
    }

    /// The whole catalog's packed bytes: each record's layout in
    /// registration order, nothing between.
    pub fn to_bytes(&self) -> (r: Vec<u8>)
        requires
            self.wf(),
        ensures
            r@ == catalog_bytes_spec(self.entries@),
    {
        let mut out: Vec<u8> = Vec::new();
        let mut i: usize = 0;
        while i < self.entries.len()
            invariant
                i <= self.entries@.len(),
                self.wf(),
                out@ == catalog_bytes_spec(self.entries@.take(i as int)),
            decreases self.entries@.len() - i,
        {
            let entry_bytes = self.entries[i].to_bytes();
            proof {
                let taken = self.entries@.take(i as int);
                let one = seq![self.entries@[i as int]];
                assert(self.entries@.take(i as int + 1) =~= taken + one);
                lemma_catalog_bytes_append(taken, one);
                assert(one.drop_first() =~= Seq::<EntryRecord>::empty());
                assert(catalog_bytes_spec(Seq::<EntryRecord>::empty()) == Seq::<u8>::empty());
                assert(one[0] == self.entries@[i as int]);
                assert(catalog_bytes_spec(one) =~= entry_bytes_spec(self.entries@[i as int]));
            }
            out.extend_from_slice(entry_bytes.as_slice());
            proof {
                assert(out@ =~= catalog_bytes_spec(self.entries@.take(i as int + 1)));
            }
            i += 1;
        }
        proof {
            assert(self.entries@.take(self.entries@.len() as int) =~= self.entries@);
        }
        out
    }
}

/// Entry construction is idempotent: records whose token and payloads
/// agree — as any two records built from the same (domain, text) pair do —
/// have byte-identical packed layouts.
pub proof fn lemma_entry_bytes_idempotent(e1: EntryRecord, e2: EntryRecord)
    requires
        e1.token == e2.token,
        e1.domain@ == e2.domain@,
        e1.text@ == e2.text@,
    ensures
        entry_bytes_spec(e1) == entry_bytes_spec(e2),
{
}

} // verus!
