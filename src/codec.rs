use vstd::prelude::*;
use crate::record::{EventRecord, MetaData, MAX_VERSION};

verus! {

/// A value stored under a document key.
pub enum Field {
    Text(String),
    Int(i64),
    Pairs(MetaData),
}

/// A stored document: named fields, in order.
pub struct Document {
    pub fields: Vec<(String, Field)>,
}

/// Why a document is not a valid event record.
#[derive(Debug, PartialEq, Eq)]
pub enum DecodeError {
    /// A field the record needs is absent.
    MissingField,
    /// A field holds a value of the wrong kind.
    WrongKind,
    /// The version is not a positive integer.
    BadVersion,
}

/// Named fields, keyed by the characters of each name.
pub open spec fn entries_view(entries: Seq<(String, Field)>) -> Seq<(Seq<char>, Field)> {
    entries.map_values(|e: (String, Field)| (e.0@, e.1))
}

/// The fields of a document, keyed by the characters of each key.
pub open spec fn fields_view(d: Document) -> Seq<(Seq<char>, Field)> {
    entries_view(d.fields@)
}

/// The value of the first field named `key`.
pub open spec fn lookup(fields: Seq<(Seq<char>, Field)>, key: Seq<char>) -> Option<Field>
    decreases fields.len(),
{
    if fields.len() == 0 {
        None
    } else {
        let earlier = lookup(fields.drop_last(), key);
        if earlier is Some {
            earlier
        } else if fields.last().0 == key {
            Some(fields.last().1)
        } else {
            None
        }
    }
}

/// The persisted form of a record.
pub open spec fn encode_view(r: EventRecord) -> Seq<(Seq<char>, Field)> {
    seq![
        ("aggregateId"@, Field::Text(r.aggregate_id)),
        ("aggregateType"@, Field::Text(r.aggregate_type)),
        ("version"@, Field::Int(r.version as i64)),
        ("payload"@, Field::Text(r.payload)),
        ("metaData"@, Field::Pairs(r.meta)),
        ("createdAt"@, Field::Text(r.created_at)),
    ]
}

/// What reading a text field gives.
pub open spec fn text_field(f: Option<Field>) -> Result<String, DecodeError> {
    match f {
        None => Err(DecodeError::MissingField),
        Some(Field::Text(s)) => Ok(s),
        Some(_) => Err(DecodeError::WrongKind),
    }
}

/// What reading the version field gives.
pub open spec fn version_field(f: Option<Field>) -> Result<u64, DecodeError> {
    match f {
        None => Err(DecodeError::MissingField),
        Some(Field::Int(v)) => if v >= 1 {
            Ok(v as u64)
        } else {
            Err(DecodeError::BadVersion)
        },
        Some(_) => Err(DecodeError::WrongKind),
    }
}

/// What reading the metadata field gives.
pub open spec fn meta_field(f: Option<Field>) -> Result<MetaData, DecodeError> {
    match f {
        None => Err(DecodeError::MissingField),
        Some(Field::Pairs(m)) => Ok(m),
        Some(_) => Err(DecodeError::WrongKind),
    }
}

/// The record a document's fields describe, or the first problem found, the
/// fields being read in the order aggregateId, aggregateType, version,
/// payload, metaData, createdAt. Other fields are ignored; of repeated keys the
/// first counts.
pub open spec fn decode_view(fields: Seq<(Seq<char>, Field)>) -> Result<EventRecord, DecodeError> {
    let id = text_field(lookup(fields, "aggregateId"@));
    let kind = text_field(lookup(fields, "aggregateType"@));
    let version = version_field(lookup(fields, "version"@));
    let payload = text_field(lookup(fields, "payload"@));
    let meta = meta_field(lookup(fields, "metaData"@));
    let created_at = text_field(lookup(fields, "createdAt"@));
    if let Err(e) = id {
        Err(e)
    } else if let Err(e) = kind {
        Err(e)
    } else if let Err(e) = version {
        Err(e)
    } else if let Err(e) = payload {
        Err(e)
    } else if let Err(e) = meta {
        Err(e)
    } else if let Err(e) = created_at {
        Err(e)
    } else {
        Ok(
            EventRecord {
                aggregate_id: id->Ok_0,
                aggregate_type: kind->Ok_0,
                version: version->Ok_0,
                payload: payload->Ok_0,
                meta: meta->Ok_0,
                created_at: created_at->Ok_0,
            },
        )
    }
}

fn key(s: &str) -> (r: String)
    ensures
        r@ == s@,
{
    s.to_string()
}

/// The persisted document of a record.
pub fn encode(r: EventRecord) -> (d: Document)
    requires
        r.version <= MAX_VERSION,
    ensures
        fields_view(d) == encode_view(r),
{
    let ghost given = r;
    let version = r.version as i64;
    let mut fields: Vec<(String, Field)> = Vec::new();
    fields.push((key("aggregateId"), Field::Text(r.aggregate_id)));
    fields.push((key("aggregateType"), Field::Text(r.aggregate_type)));
    fields.push((key("version"), Field::Int(version)));
    fields.push((key("payload"), Field::Text(r.payload)));
    fields.push((key("metaData"), Field::Pairs(r.meta)));
    fields.push((key("createdAt"), Field::Text(r.created_at)));
    let d = Document { fields };
    assert(fields_view(d) =~= encode_view(given));
    d
}

fn take_text(f: Option<Field>) -> (r: Result<String, DecodeError>)
    ensures
        r == text_field(f),
{
    match f {
        None => Err(DecodeError::MissingField),
        Some(Field::Text(s)) => Ok(s),
        Some(_) => Err(DecodeError::WrongKind),
    }
}

fn take_version(f: Option<Field>) -> (r: Result<u64, DecodeError>)
    ensures
        r == version_field(f),
{
    match f {
        None => Err(DecodeError::MissingField),
        Some(Field::Int(v)) => if v >= 1 {
            Ok(v as u64)
        } else {
            Err(DecodeError::BadVersion)
        },
        Some(_) => Err(DecodeError::WrongKind),
    }
}

fn take_meta(f: Option<Field>) -> (r: Result<MetaData, DecodeError>)
    ensures
        r == meta_field(f),
{
    match f {
        None => Err(DecodeError::MissingField),
        Some(Field::Pairs(m)) => Ok(m),
        Some(_) => Err(DecodeError::WrongKind),
    }
}

/// One more field extends a lookup only when the key was not found before.
proof fn lemma_lookup_push(fields: Seq<(Seq<char>, Field)>, e: (Seq<char>, Field), key: Seq<char>)
    ensures
        lookup(fields.push(e), key) == if lookup(fields, key) is Some {
            lookup(fields, key)
        } else if e.0 == key {
            Some(e.1)
        } else {
            None
        },
{
    assert(fields.push(e).drop_last() =~= fields);
}

/// The record a stored document describes; an error when a field is
/// missing, holds the wrong kind of value, or the version is not positive.
pub fn decode(d: Document) -> (r: Result<EventRecord, DecodeError>)
    ensures
        r == decode_view(fields_view(d)),
{
    let ghost all = fields_view(d);
    let mut fields = d.fields;
    let k_id = key("aggregateId");
    let k_kind = key("aggregateType");
    let k_version = key("version");
    let k_payload = key("payload");
    let k_meta = key("metaData");
    let k_created = key("createdAt");
    let mut id: Option<Field> = None;
    let mut kind: Option<Field> = None;
    let mut version: Option<Field> = None;
    let mut payload: Option<Field> = None;
    let mut meta: Option<Field> = None;
    let mut created_at: Option<Field> = None;
    let ghost mut i: int = 0;
    while fields.len() > 0
        invariant
            0 <= i <= all.len(),
            entries_view(fields@) == all.subrange(i, all.len() as int),
            k_id@ == "aggregateId"@,
            k_kind@ == "aggregateType"@,
            k_version@ == "version"@,
            k_payload@ == "payload"@,
            k_meta@ == "metaData"@,
            k_created@ == "createdAt"@,
            id == lookup(all.subrange(0, i), "aggregateId"@),
            kind == lookup(all.subrange(0, i), "aggregateType"@),
            version == lookup(all.subrange(0, i), "version"@),
            payload == lookup(all.subrange(0, i), "payload"@),
            meta == lookup(all.subrange(0, i), "metaData"@),
            created_at == lookup(all.subrange(0, i), "createdAt"@),
        decreases fields.len(),
    {
        let ghost rest = entries_view(fields@);
        let (k, f) = fields.remove(0);
        proof {
            assert(entries_view(fields@) =~= rest.subrange(1, rest.len() as int));
            assert(rest[0] == all[i]);
            assert(all[i] == (k@, f));
            assert(all.subrange(0, i + 1) =~= all.subrange(0, i).push(all[i]));
            lemma_lookup_push(all.subrange(0, i), all[i], "aggregateId"@);
            lemma_lookup_push(all.subrange(0, i), all[i], "aggregateType"@);
            lemma_lookup_push(all.subrange(0, i), all[i], "version"@);
            lemma_lookup_push(all.subrange(0, i), all[i], "payload"@);
            lemma_lookup_push(all.subrange(0, i), all[i], "metaData"@);
            lemma_lookup_push(all.subrange(0, i), all[i], "createdAt"@);
            lemma_keys_distinct();
            i = i + 1;
            assert(entries_view(fields@) =~= all.subrange(i, all.len() as int));
        }
        if k == k_id {
            if id.is_none() {
                id = Some(f);
            }
        } else if k == k_kind {
            if kind.is_none() {
                kind = Some(f);
            }
        } else if k == k_version {
            if version.is_none() {
                version = Some(f);
            }
        } else if k == k_payload {
            if payload.is_none() {
                payload = Some(f);
            }
        } else if k == k_meta {
            if meta.is_none() {
                meta = Some(f);
            }
        } else if k == k_created {
            if created_at.is_none() {
                created_at = Some(f);
            }
        }
    }
    assert(all.subrange(0, i) =~= all);
    let aggregate_id = match take_text(id) {
        Ok(s) => s,
        Err(e) => return Err(e),
    };
    let aggregate_type = match take_text(kind) {
        Ok(s) => s,
        Err(e) => return Err(e),
    };
    let version = match take_version(version) {
        Ok(v) => v,
        Err(e) => return Err(e),
    };
    let payload = match take_text(payload) {
        Ok(s) => s,
        Err(e) => return Err(e),
    };
    let meta = match take_meta(meta) {
        Ok(m) => m,
        Err(e) => return Err(e),
    };
    let created_at = match take_text(created_at) {
        Ok(s) => s,
        Err(e) => return Err(e),
    };
    Ok(EventRecord { aggregate_id, aggregate_type, version, payload, meta, created_at })
}

/// Without a field named `key` there is nothing to find.
proof fn lemma_lookup_absent(fields: Seq<(Seq<char>, Field)>, key: Seq<char>)
    requires
        forall|k: int| 0 <= k < fields.len() ==> (#[trigger] fields[k]).0 != key,
    ensures
        lookup(fields, key) is None,
    decreases fields.len(),
{
    if fields.len() > 0 {
        lemma_lookup_absent(fields.drop_last(), key);
    }
}

/// The first field named `key` is the one found.
proof fn lemma_lookup_first(fields: Seq<(Seq<char>, Field)>, key: Seq<char>, j: int)
    requires
        0 <= j < fields.len(),
        fields[j].0 == key,
        forall|k: int| 0 <= k < j ==> (#[trigger] fields[k]).0 != key,
    ensures
        lookup(fields, key) == Some(fields[j].1),
    decreases fields.len(),
{
    if j < fields.len() - 1 {
        lemma_lookup_first(fields.drop_last(), key, j);
    } else {
        lemma_lookup_absent(fields.drop_last(), key);
    }
}

/// The six field names of a record are distinct.
proof fn lemma_keys_distinct()
    ensures
        "aggregateId"@ != "aggregateType"@,
        "aggregateId"@ != "version"@,
        "aggregateId"@ != "payload"@,
        "aggregateId"@ != "metaData"@,
        "aggregateId"@ != "createdAt"@,
        "aggregateType"@ != "version"@,
        "aggregateType"@ != "payload"@,
        "aggregateType"@ != "metaData"@,
        "aggregateType"@ != "createdAt"@,
        "version"@ != "payload"@,
        "version"@ != "metaData"@,
        "version"@ != "createdAt"@,
        "payload"@ != "metaData"@,
        "payload"@ != "createdAt"@,
        "metaData"@ != "createdAt"@,
{
    reveal_strlit("aggregateId");
    reveal_strlit("aggregateType");
    reveal_strlit("version");
    reveal_strlit("payload");
    reveal_strlit("metaData");
    reveal_strlit("createdAt");
    assert("aggregateId"@[9] != "aggregateType"@[9]);
    assert("aggregateId"@[0] != "version"@[0]);
    assert("aggregateId"@[0] != "payload"@[0]);
    assert("aggregateId"@[0] != "metaData"@[0]);
    assert("aggregateId"@[0] != "createdAt"@[0]);
    assert("aggregateType"@[0] != "version"@[0]);
    assert("aggregateType"@[0] != "payload"@[0]);
    assert("aggregateType"@[0] != "metaData"@[0]);
    assert("aggregateType"@[0] != "createdAt"@[0]);
    assert("version"@[0] != "payload"@[0]);
    assert("version"@[0] != "metaData"@[0]);
    assert("version"@[0] != "createdAt"@[0]);
    assert("payload"@[0] != "metaData"@[0]);
    assert("payload"@[0] != "createdAt"@[0]);
    assert("metaData"@[0] != "createdAt"@[0]);
}

/// The filter that selects the events of one aggregate type, narrowed to one
/// aggregate when an id is given.
pub open spec fn filter_view(aggregate_type: String, aggregate_id: Option<String>) -> Seq<(Seq<char>, Field)> {
    match aggregate_id {
        None => seq![("aggregateType"@, Field::Text(aggregate_type))],
        Some(id) => seq![("aggregateType"@, Field::Text(aggregate_type)), ("aggregateId"@, Field::Text(id))],
    }
}

/// The equality filter for reading the events of `aggregate_type`, of one
/// aggregate when `aggregate_id` is given.
pub fn event_filter(aggregate_type: &String, aggregate_id: Option<&String>) -> (d: Document)
    ensures
        fields_view(d) == filter_view(*aggregate_type, match aggregate_id {
            None => None,
            Some(id) => Some(*id),
        }),
{
    let mut fields: Vec<(String, Field)> = Vec::new();
    fields.push((key("aggregateType"), Field::Text(aggregate_type.clone())));
    if let Some(id) = aggregate_id {
        fields.push((key("aggregateId"), Field::Text(id.clone())));
    }
    let d = Document { fields };
    assert(fields_view(d) =~= filter_view(*aggregate_type, match aggregate_id {
        None => None,
        Some(id) => Some(*id),
    }));
    d
}

/// The persisted documents of a batch of records, in order.
pub fn encode_all(records: Vec<EventRecord>) -> (r: Vec<Document>)
    requires
        forall|i: int| 0 <= i < records@.len() ==> (#[trigger] records@[i]).version <= MAX_VERSION,
    ensures
        r@.len() == records@.len(),
        forall|i: int| 0 <= i < r@.len() ==> fields_view(#[trigger] r@[i]) == encode_view(records@[i]),
{
    let ghost all = records@;
    let mut rest = records;
    let mut r: Vec<Document> = Vec::new();
    while rest.len() > 0
        invariant
            r@.len() + rest@.len() == all.len(),
            all == records@,
            rest@ == all.subrange(r@.len() as int, all.len() as int),
            forall|i: int| 0 <= i < all.len() ==> (#[trigger] all[i]).version <= MAX_VERSION,
            forall|i: int| 0 <= i < r@.len() ==> fields_view(#[trigger] r@[i]) == encode_view(all[i]),
        decreases rest.len(),
    {
        let ghost n = r@.len() as int;
        let record = rest.remove(0);
        assert(record == all[n]);
        r.push(encode(record));
        assert(rest@ =~= all.subrange(r@.len() as int, all.len() as int));
    }
    r
}

/// The records of a sequence of stored documents, in order; the first
/// document that is not a valid record fails the whole read.
pub fn decode_all(docs: Vec<Document>) -> (r: Result<Vec<EventRecord>, DecodeError>)
    ensures
        r is Ok <==> forall|i: int| 0 <= i < docs@.len() ==> (#[trigger] decode_view(fields_view(docs@[i]))) is Ok,
        r matches Ok(v) ==> v@.len() == docs@.len() && forall|i: int|
            0 <= i < v@.len() ==> Ok::<EventRecord, DecodeError>(#[trigger] v@[i]) == decode_view(fields_view(docs@[i])),
        r matches Err(e) ==> exists|i: int|
            0 <= i < docs@.len() && (#[trigger] decode_view(fields_view(docs@[i]))) == Err::<EventRecord, DecodeError>(e),
{
    let ghost all = docs@;
    let mut rest = docs;
    let mut r: Vec<EventRecord> = Vec::new();
    while rest.len() > 0
        invariant
            r@.len() + rest@.len() == all.len(),
            all == docs@,
            rest@ == all.subrange(r@.len() as int, all.len() as int),
            forall|i: int| 0 <= i < r@.len() ==> Ok::<EventRecord, DecodeError>(#[trigger] r@[i]) == decode_view(fields_view(all[i])),
        decreases rest.len(),
    {
        let ghost n = r@.len() as int;
        let doc = rest.remove(0);
        assert(doc == all[n]);
        match decode(doc) {
            Ok(record) => {
                r.push(record);
                assert(rest@ =~= all.subrange(r@.len() as int, all.len() as int));
            },
            Err(e) => {
                assert(decode_view(fields_view(all[n])) == Err::<EventRecord, DecodeError>(e));
                assert(0 <= n < all.len());
                return Err(e);
            },
        }
    }
    assert forall|i: int| 0 <= i < all.len() implies (#[trigger] decode_view(fields_view(all[i]))) is Ok by {
        assert(Ok::<EventRecord, DecodeError>(r@[i]) == decode_view(fields_view(all[i])));
    }
    Ok(r)
}

/// Decoding the persisted form of a valid record gives the record back, field
/// for field, metadata included.
pub proof fn law_decode_encode(r: EventRecord)
    requires
        1 <= r.version <= MAX_VERSION,
    ensures
        decode_view(encode_view(r)) == Ok::<EventRecord, DecodeError>(r),
{
    let f = encode_view(r);
    lemma_keys_distinct();
    lemma_lookup_first(f, "aggregateId"@, 0);
    lemma_lookup_first(f, "aggregateType"@, 1);
    lemma_lookup_first(f, "version"@, 2);
    lemma_lookup_first(f, "payload"@, 3);
    lemma_lookup_first(f, "metaData"@, 4);
    lemma_lookup_first(f, "createdAt"@, 5);
}

} // verus!
