use ordering_regret::ingestor::{IngestError, ProxyIngestor};
use ordering_regret::types::{InternalTrade, RawTradeRecord};

fn record(slot: u64, sig: &str, mint: &str) -> RawTradeRecord {
    RawTradeRecord {
        slot,
        timestamp: 1_700_000_000,
        amount_in: 250,
        amount_out: 240,
        tx_signature: sig.to_string(),
        token_mint_in: mint.to_string(),
        token_mint_out: "USDC".to_string(),
        is_bundled: false,
        tx_index: 3,
    }
}

#[test]
fn empty_stream_digest_is_sha256_of_nothing() {
    let ing = ProxyIngestor::new();
    assert_eq!(
        ing.finalize_hash(),
        "e3b0c44298fc1c149afbf4c8996fb92427ae41e4649b934ca495991b7852b855".to_string()
    );
    assert_eq!(ing.records_processed(), 0);
}

#[test]
fn digest_covers_slot_le_bytes_then_signature() {
    // SHA-256 over 42 as eight little-endian bytes followed by "abc".
    let mut ing = ProxyIngestor::new();
    ing.ingest_record(record(42, "abc", "SOL"));
    assert_eq!(
        ing.finalize_hash(),
        "6488c64508ed7629ed0a6e911ba68812b95cbfb5581c861a0245f7920457ec63".to_string()
    );
    assert_eq!(ing.records_processed(), 1);
}

#[test]
fn digest_spans_records_in_input_order() {
    let mut ing = ProxyIngestor::new();
    ing.ingest_record(record(7, "sigA", "SOL"));
    ing.ingest_record(record(8, "sigB", "SOL"));
    assert_eq!(
        ing.finalize_hash(),
        "3515c767d7185fac92e3dc4156cb0cb2cfee87875b4f1d9ba2eca5029933bafb".to_string()
    );
    assert_eq!(ing.records_processed(), 2);
}

#[test]
fn identical_streams_fingerprint_identically() {
    let mut a = ProxyIngestor::new();
    let mut b = ProxyIngestor::new();
    for ing in [&mut a, &mut b] {
        ing.ingest_record(record(7, "sigA", "SOL"));
        ing.ingest_record(record(8, "sigB", "SOL"));
    }
    assert_eq!(a.finalize_hash(), b.finalize_hash());
    assert_eq!(a.records_processed(), b.records_processed());
}

#[test]
fn conversion_keeps_engine_fields() {
    let t: InternalTrade = InternalTrade::from(record(9, "sig", "SOL"));
    assert_eq!(t.slot, 9);
    assert_eq!(t.amount_in, 250);
    assert!(!t.is_bundled);
    assert_eq!(t.tx_index, 3);
    assert_eq!(t.tx_signature, "sig".to_string());
    assert_eq!(t.token_mint_in, "SOL".to_string());
}

#[test]
fn ingest_returns_the_converted_event() {
    let mut ing = ProxyIngestor::new();
    let t = ing.ingest_record(record(11, "zz", "BONK"));
    assert_eq!(t.slot, 11);
    assert_eq!(t.tx_signature, "zz".to_string());
    assert_eq!(t.token_mint_in, "BONK".to_string());
}

#[test]
fn ingest_errors_distinguish_io_from_parse() {
    let io = IngestError::Io("cannot open source".to_string());
    match io {
        IngestError::Io(m) => assert_eq!(m, "cannot open source".to_string()),
        IngestError::Parse(_) => panic!("wrong variant"),
    }
    let parse = IngestError::Parse("row 3 has no slot".to_string());
    match parse {
        IngestError::Parse(m) => assert_eq!(m, "row 3 has no slot".to_string()),
        IngestError::Io(_) => panic!("wrong variant"),
    }
}
