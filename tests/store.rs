use mongodb_store::codec::{decode, decode_all, encode, encode_all, event_filter, DecodeError, Document, Field};
use mongodb_store::memory::MemoryStore;
use mongodb_store::record::{format_events, prepare_append, EventRecord, MetaData, StoreError, MAX_VERSION};
use mongodb_store::replay::{assemble, AggregateContext};

fn s(text: &str) -> String {
    text.to_string()
}

fn meta() -> MetaData {
    vec![(s("user"), s("alice")), (s("origin"), s("test"))]
}

fn context(id: Option<&str>, version: u64) -> AggregateContext<String> {
    AggregateContext { id: id.map(|x| x.to_string()), version, aggregate: String::new() }
}

/// The name held by an identity after one more event: "Created:<name>" and
/// "Renamed:<name>" both set it.
fn apply_name(state: String, payload: String) -> String {
    match payload.split_once(':') {
        Some((_, name)) => name.to_string(),
        None => state,
    }
}

fn versions(records: &[EventRecord]) -> Vec<u64> {
    records.iter().map(|r| r.version).collect()
}

fn payloads(records: &[EventRecord]) -> Vec<String> {
    records.iter().map(|r| r.payload.clone()).collect()
}

#[test]
fn format_events_numbers_from_current_version() {
    let r = format_events(&s("a1"), &s("Identity"), 4, vec![s("e1"), s("e2"), s("e3")], &meta(), &s("t0"));
    assert_eq!(versions(&r), vec![5, 6, 7]);
    assert_eq!(payloads(&r), vec![s("e1"), s("e2"), s("e3")]);
    for record in &r {
        assert_eq!(record.aggregate_id, "a1");
        assert_eq!(record.aggregate_type, "Identity");
        assert_eq!(record.meta, meta());
        assert_eq!(record.created_at, "t0");
    }
}

#[test]
fn prepare_append_outcomes() {
    let empty = prepare_append(&s("Identity"), Some(&s("a1")), 0, vec![], &meta(), &s("t0"));
    assert!(matches!(empty, Ok(v) if v.is_empty()));
    let missing = prepare_append(&s("Identity"), None, 0, vec![s("e")], &meta(), &s("t0"));
    assert!(matches!(missing, Err(StoreError::MissingId)));
    let overflow = prepare_append(&s("Identity"), Some(&s("a1")), MAX_VERSION, vec![s("e")], &meta(), &s("t0"));
    assert!(matches!(overflow, Err(StoreError::VersionOverflow)));
    let ok = prepare_append(&s("Identity"), Some(&s("a1")), 2, vec![s("e")], &meta(), &s("t0")).unwrap();
    assert_eq!(versions(&ok), vec![3]);
}

#[test]
fn append_then_retrieve_on_fresh_id() {
    let mut store = MemoryStore::new(s("Identity"));
    let written = store.append(vec![s("Created:a"), s("Renamed:b"), s("Renamed:c")], &context(Some("x"), 0), &meta(), &s("t0")).unwrap();
    assert_eq!(versions(&written), vec![1, 2, 3]);
    let history = store.retrieve(&s("x"));
    assert_eq!(versions(&history), vec![1, 2, 3]);
    assert_eq!(payloads(&history), vec![s("Created:a"), s("Renamed:b"), s("Renamed:c")]);
}

#[test]
fn assemble_after_fresh_append_folds_in_order() {
    let mut store = MemoryStore::new(s("Identity"));
    store.append(vec![s("Created:a"), s("Renamed:b"), s("Renamed:c")], &context(Some("x"), 0), &meta(), &s("t0")).unwrap();
    let c = store.assemble_aggregate(Some(s("x")), String::new(), apply_name).unwrap();
    assert_eq!(c.version, 3);
    assert_eq!(c.aggregate, "c");
    assert_eq!(c.id, Some(s("x")));
}

#[test]
fn empty_append_is_a_no_op() {
    let mut store = MemoryStore::new(s("Identity"));
    store.append(vec![s("Created:a")], &context(Some("x"), 0), &meta(), &s("t0")).unwrap();
    let r = store.append(vec![], &context(Some("x"), 0), &meta(), &s("t1")).unwrap();
    assert!(r.is_empty());
    assert_eq!(versions(&store.retrieve_for_query(None)), vec![1]);
    let none = store.append(vec![], &context(None, 7), &meta(), &s("t1")).unwrap();
    assert!(none.is_empty());
}

#[test]
fn competing_appends_one_wins() {
    let mut store = MemoryStore::new(s("Identity"));
    store.append(vec![s("Created:a")], &context(Some("x"), 0), &meta(), &s("t0")).unwrap();
    let ctx = context(Some("x"), 1);
    let first = store.append(vec![s("Renamed:b")], &ctx, &meta(), &s("t1"));
    let second = store.append(vec![s("Renamed:c")], &ctx, &meta(), &s("t2"));
    assert!(first.is_ok());
    assert!(matches!(second, Err(StoreError::Conflict)));
    let history = store.retrieve(&s("x"));
    assert_eq!(versions(&history), vec![1, 2]);
    assert_eq!(payloads(&history), vec![s("Created:a"), s("Renamed:b")]);
}

#[test]
fn append_ahead_of_stream_is_a_conflict() {
    let mut store = MemoryStore::new(s("Identity"));
    let r = store.append(vec![s("Created:a")], &context(Some("x"), 3), &meta(), &s("t0"));
    assert!(matches!(r, Err(StoreError::Conflict)));
    assert!(store.retrieve(&s("x")).is_empty());
}

#[test]
fn append_errors_write_nothing() {
    let mut store = MemoryStore::new(s("Identity"));
    let missing = store.append(vec![s("Created:a")], &context(None, 0), &meta(), &s("t0"));
    assert!(matches!(missing, Err(StoreError::MissingId)));
    let overflow = store.append(vec![s("Created:a"), s("Renamed:b")], &context(Some("x"), MAX_VERSION - 1), &meta(), &s("t0"));
    assert!(matches!(overflow, Err(StoreError::VersionOverflow)));
    assert!(store.retrieve_for_query(None).is_empty());
}

#[test]
fn created_then_renamed_scenario() {
    let mut store = MemoryStore::new(s("Identity"));
    let written = store.append(vec![s("Created:a1"), s("Renamed:X")], &context(Some("a1"), 0), &meta(), &s("t0")).unwrap();
    assert_eq!(versions(&written), vec![1, 2]);
    let history = store.retrieve(&s("a1"));
    assert_eq!(versions(&history), vec![1, 2]);
    assert_eq!(payloads(&history), vec![s("Created:a1"), s("Renamed:X")]);
    let c = store.assemble_aggregate(Some(s("a1")), String::new(), apply_name).unwrap();
    assert_eq!(c.aggregate, "X");
    assert_eq!(c.version, 2);
}

#[test]
fn assemble_unknown_id_gives_default() {
    let store = MemoryStore::new(s("Identity"));
    let c = store.assemble_aggregate(Some(s("does-not-exist")), String::new(), apply_name).unwrap();
    assert_eq!(c.version, 0);
    assert_eq!(c.aggregate, "");
    assert_eq!(c.id, Some(s("does-not-exist")));
}

#[test]
fn assemble_without_id_gives_fresh_context() {
    let mut store = MemoryStore::new(s("Identity"));
    store.append(vec![s("Created:a")], &context(Some("x"), 0), &meta(), &s("t0")).unwrap();
    let c = store.assemble_aggregate(None, s("init"), apply_name).unwrap();
    assert_eq!(c.version, 0);
    assert_eq!(c.aggregate, "init");
    assert_eq!(c.id, None);
}

#[test]
fn query_reads_all_ids_in_version_order() {
    let mut store = MemoryStore::new(s("Identity"));
    store.append(vec![s("Created:a")], &context(Some("x"), 0), &meta(), &s("t0")).unwrap();
    store.append(vec![s("Created:b"), s("Renamed:c")], &context(Some("y"), 0), &meta(), &s("t1")).unwrap();
    store.append(vec![s("Renamed:d")], &context(Some("x"), 1), &meta(), &s("t2")).unwrap();
    let all = store.retrieve_for_query(None);
    assert_eq!(all.len(), 4);
    let xs: Vec<u64> = all.iter().filter(|r| r.aggregate_id == "x").map(|r| r.version).collect();
    let ys: Vec<u64> = all.iter().filter(|r| r.aggregate_id == "y").map(|r| r.version).collect();
    assert_eq!(xs, vec![1, 2]);
    assert_eq!(ys, vec![1, 2]);
    assert!(all.iter().all(|r| r.aggregate_type == "Identity"));
    let only_y = store.retrieve_for_query(Some(&s("y")));
    assert_eq!(payloads(&only_y), vec![s("Created:b"), s("Renamed:c")]);
}

#[test]
fn replay_rejects_gaps_and_repeats() {
    let mut gap = format_events(&s("x"), &s("Identity"), 0, vec![s("Created:a"), s("Renamed:b")], &meta(), &s("t0"));
    gap[1].version = 3;
    assert!(matches!(assemble(Some(s("x")), &gap, String::new(), apply_name), Err(StoreError::Integrity)));
    let mut repeat = format_events(&s("x"), &s("Identity"), 0, vec![s("Created:a"), s("Renamed:b")], &meta(), &s("t0"));
    repeat[1].version = 1;
    assert!(matches!(assemble(Some(s("x")), &repeat, String::new(), apply_name), Err(StoreError::Integrity)));
    let c = assemble(None, &gap, s("init"), apply_name).unwrap();
    assert_eq!(c.aggregate, "init");
}

fn sample_record() -> EventRecord {
    EventRecord {
        aggregate_id: s("a1"),
        aggregate_type: s("Identity"),
        version: 7,
        payload: s("Renamed:X"),
        meta: meta(),
        created_at: s("Sat, 17 Oct 2026 10:00:00 +0000"),
    }
}

#[test]
fn encode_then_decode_round_trip() {
    let d = encode(sample_record());
    let keys: Vec<&str> = d.fields.iter().map(|(k, _)| k.as_str()).collect();
    assert_eq!(keys, vec!["aggregateId", "aggregateType", "version", "payload", "metaData", "createdAt"]);
    assert!(matches!(&d.fields[2].1, Field::Int(7)));
    let back = decode(d).unwrap();
    let expected = sample_record();
    assert_eq!(back.aggregate_id, expected.aggregate_id);
    assert_eq!(back.aggregate_type, expected.aggregate_type);
    assert_eq!(back.version, expected.version);
    assert_eq!(back.payload, expected.payload);
    assert_eq!(back.meta, expected.meta);
    assert_eq!(back.created_at, expected.created_at);
}

#[test]
fn decode_ignores_order_and_extra_fields() {
    let d = Document {
        fields: vec![
            (s("_id"), Field::Text(s("65a0"))),
            (s("createdAt"), Field::Text(s("t0"))),
            (s("metaData"), Field::Pairs(vec![])),
            (s("version"), Field::Int(2)),
            (s("payload"), Field::Text(s("p"))),
            (s("aggregateType"), Field::Text(s("Identity"))),
            (s("aggregateId"), Field::Text(s("z"))),
            (s("aggregateId"), Field::Text(s("later"))),
        ],
    };
    let r = decode(d).unwrap();
    assert_eq!(r.aggregate_id, "z");
    assert_eq!(r.version, 2);
    assert_eq!(r.payload, "p");
    assert!(r.meta.is_empty());
}

fn without(name: &str) -> Document {
    let mut d = encode(sample_record());
    d.fields.retain(|(k, _)| k != name);
    d
}

#[test]
fn decode_errors() {
    assert_eq!(decode(without("payload")).err(), Some(DecodeError::MissingField));
    let mut wrong = encode(sample_record());
    wrong.fields[0].1 = Field::Int(1);
    assert_eq!(decode(wrong).err(), Some(DecodeError::WrongKind));
    let mut zero = encode(sample_record());
    zero.fields[2].1 = Field::Int(0);
    assert_eq!(decode(zero).err(), Some(DecodeError::BadVersion));
    let mut negative = encode(sample_record());
    negative.fields[2].1 = Field::Int(-4);
    assert_eq!(decode(negative).err(), Some(DecodeError::BadVersion));
}

#[test]
fn batch_codec() {
    let records = format_events(&s("x"), &s("Identity"), 0, vec![s("a"), s("b")], &meta(), &s("t0"));
    let docs = encode_all(records);
    assert_eq!(docs.len(), 2);
    let back = decode_all(docs).unwrap();
    assert_eq!(versions(&back), vec![1, 2]);
    assert_eq!(payloads(&back), vec![s("a"), s("b")]);
    let bad = vec![encode(sample_record()), without("version")];
    assert_eq!(decode_all(bad).err(), Some(DecodeError::MissingField));
}

#[test]
fn filter_by_type_and_id() {
    let by_type = event_filter(&s("Identity"), None);
    assert_eq!(by_type.fields.len(), 1);
    assert_eq!(by_type.fields[0].0, "aggregateType");
    assert!(matches!(&by_type.fields[0].1, Field::Text(t) if t == "Identity"));
    let by_id = event_filter(&s("Identity"), Some(&s("a1")));
    assert_eq!(by_id.fields.len(), 2);
    assert_eq!(by_id.fields[1].0, "aggregateId");
    assert!(matches!(&by_id.fields[1].1, Field::Text(t) if t == "a1"));
}
