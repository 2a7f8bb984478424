//! The record source's computational core: shaping validated rows into
//! trade events while maintaining the running digest that fingerprints
//! the input stream for reproducibility checks.
//!
//! Reading and decoding the on-disk format stay outside; this module is
//! handed one validated `RawTradeRecord` at a time.

use crate::types::{InternalTrade, RawTradeRecord};
use vstd::prelude::*;
use vstd::string::StrSliceExecFns;

verus! {

/// Why ingestion aborted. `Io`: the source could not be read. `Parse`: a
/// row did not decode into the expected schema. Either failure aborts
/// the whole run; there is no skip-and-continue.
pub enum IngestError {
    Io(String),
    Parse(String),
}

/// The SHA-256 digest of a byte string: 32 bytes, a function of the
/// input alone. Named, not defined; the hashing primitive is an external
/// collaborator specified only at its boundary.
pub uninterp spec fn sha256_of(bytes: Seq<u8>) -> Seq<u8>;

/// Relies on `sha2::Sha256` through `digest::Digest::digest`: the
/// SHA-256 digest of the input bytes, always 32 bytes long and depending
/// on the input bytes alone.
#[verifier::external_body]
fn sha256_digest(bytes: &Vec<u8>) -> (r: Vec<u8>)
    ensures
        r@ == sha256_of(bytes@),
        r@.len() == 32,
{
    let out = <sha2::Sha256 as sha2::Digest>::digest(bytes.as_slice());
    out.to_vec()
}

/// The lower-case hex digit for a nibble.
pub open spec fn hex_digit(n: u8) -> char
    recommends
        n < 16,
{
    if n < 10 {
        ((n + 0x30) as u8) as char
    } else {
        (((n - 10) + 0x61) as u8) as char
    }
}

/// Lower-case hex encoding: two digits per byte, high nibble first.
pub open spec fn hex_of(bytes: Seq<u8>) -> Seq<char> {
    Seq::new(
        2 * bytes.len(),
        |i: int|
            if i % 2 == 0 {
                hex_digit((bytes[i / 2] / 16) as u8)
            } else {
                hex_digit((bytes[i / 2] % 16) as u8)
            },
    )
}

/// Relies on `hex::encode`: each input byte becomes exactly two
/// lower-case hex digits, high nibble first.
#[verifier::external_body]
fn hex_encode(bytes: &Vec<u8>) -> (r: String)
    ensures
        r@ == hex_of(bytes@),
{
    hex::encode(bytes.as_slice())
}

/// The bytes one record contributes to the replay digest: its slot as
/// eight little-endian bytes, then the raw signature bytes.
pub open spec fn record_digest_bytes(slot: u64, signature: Seq<char>) -> Seq<u8> {
    vstd::bytes::spec_u64_to_le_bytes(slot) + vstd::utf8::encode_utf8(signature)
}

/// Shapes validated rows into trade events, counting them and keeping
/// the running digest material of the stream.
pub struct ProxyIngestor {
    digest_input: Vec<u8>,
    records_processed: u64,
}

impl ProxyIngestor {
    /// Everything fed to the digest so far, in record order.
    pub closed spec fn digest_bytes(self) -> Seq<u8> {
        self.digest_input@
    }

    /// How many records have been ingested.
    pub closed spec fn spec_records_processed(self) -> u64 {
        self.records_processed
    }

    /// A fresh ingestor: nothing hashed, nothing counted.
    pub fn new() -> (s: Self)
        ensures
            s.digest_bytes() == Seq::<u8>::empty(),
            s.spec_records_processed() == 0,
    {
        ProxyIngestor { digest_input: Vec::new(), records_processed: 0 }
    }

    /// How many records have been ingested (saturating at `u64::MAX`).
    pub fn records_processed(&self) -> (r: u64)
        ensures
            r == self.spec_records_processed(),
    {
        self.records_processed
    }

    /// Ingest one validated record: feed its slot and signature to the
    /// digest material, count it, and hand back the owned trade event
    /// that crosses the pipeline.
    pub fn ingest_record(&mut self, raw: RawTradeRecord) -> (t: InternalTrade)
        ensures
            final(self).digest_bytes() == old(self).digest_bytes() + record_digest_bytes(
                raw.slot,
                raw.tx_signature@,
            ),
            final(self).spec_records_processed() == old(
                self,
            ).spec_records_processed().saturating_add(1),
            t.slot == raw.slot,
            t.amount_in == raw.amount_in,
            t.is_bundled == raw.is_bundled,
            t.tx_index == raw.tx_index,
            t.tx_signature == raw.tx_signature,
            t.token_mint_in == raw.token_mint_in,
    {
        let mut slot_bytes = vstd::bytes::u64_to_le_bytes(raw.slot);
        self.digest_input.append(&mut slot_bytes);
        let mut sig_bytes = raw.tx_signature.as_str().as_bytes_vec();
        self.digest_input.append(&mut sig_bytes);
        self.records_processed = self.records_processed.saturating_add(1);
        InternalTrade::from(raw)
    }

    /// The hex-encoded SHA-256 digest of everything ingested so far, in
    /// record order: the stream's reproducibility fingerprint.
    pub fn finalize_hash(&self) -> (r: String)
        ensures
            r@ == hex_of(sha256_of(self.digest_bytes())),
            r@.len() == 64,
    {
        let digest = sha256_digest(&self.digest_input);
        hex_encode(&digest)
    }
}

} // verus!
