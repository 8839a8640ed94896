use vstd::prelude::*;

verus! {

/// The largest version a record may carry: versions are persisted as signed
/// 64-bit integers.
pub const MAX_VERSION: u64 = 9223372036854775807;

/// Caller-supplied metadata attached to every record of a batch.
pub type MetaData = Vec<(String, String)>;

/// A persisted event: the serialized payload of one domain event, stamped with
/// its aggregate, its version in that aggregate's stream and its metadata.
pub struct EventRecord {
    pub aggregate_id: String,
    pub aggregate_type: String,
    pub version: u64,
    pub payload: String,
    pub meta: MetaData,
    pub created_at: String,
}

/// Failures of the store's operations.
#[derive(Debug, PartialEq, Eq)]
pub enum StoreError {
    /// The next version of the stream is not the one the caller's context
    /// expects: another writer got there first, or the context is stale.
    Conflict,
    /// A history read back from storage is not numbered 1, 2, 3, ...
    Integrity,
    /// The context of an append names no aggregate.
    MissingId,
    /// The batch would number a record past `MAX_VERSION`.
    VersionOverflow,
}

/// Record `r` is the event `payload` stamped with the given id, type, version,
/// metadata and time.
pub open spec fn is_stamped(
    r: EventRecord,
    aggregate_id: String,
    aggregate_type: String,
    version: int,
    payload: String,
    meta: Seq<(String, String)>,
    created_at: String,
) -> bool {
    &&& r.aggregate_id == aggregate_id
    &&& r.aggregate_type == aggregate_type
    &&& r.version == version
    &&& r.payload == payload
    &&& r.meta@ == meta
    &&& r.created_at == created_at
}

/// `batch` numbers `events` in order from `current_version + 1`, all for one
/// aggregate and with the same metadata.
pub open spec fn is_batch(
    batch: Seq<EventRecord>,
    aggregate_id: String,
    aggregate_type: String,
    current_version: int,
    events: Seq<String>,
    meta: Seq<(String, String)>,
    created_at: String,
) -> bool {
    &&& batch.len() == events.len()
    &&& forall|i: int|
        0 <= i < batch.len() ==> #[trigger] is_stamped(
            batch[i],
            aggregate_id,
            aggregate_type,
            current_version + i + 1,
            events[i],
            meta,
            created_at,
        )
}

/// A copy of the metadata, entry for entry.
pub fn copy_meta(meta: &MetaData) -> (r: MetaData)
    ensures
        r@ == meta@,
{
    let mut r: MetaData = Vec::new();
    let mut i: usize = 0;
    while i < meta.len()
        invariant
            i <= meta.len(),
            r@ == meta@.subrange(0, i as int),
        decreases meta.len() - i,
    {
        let key = meta[i].0.clone();
        let value = meta[i].1.clone();
        r.push((key, value));
        i = i + 1;
        assert(r@ =~= meta@.subrange(0, i as int));
    }
    assert(r@ =~= meta@);
    r
}

impl EventRecord {
    /// A copy of the record, field for field.
    pub fn duplicate(&self) -> (r: EventRecord)
        ensures
            r.aggregate_id == self.aggregate_id,
            r.aggregate_type == self.aggregate_type,
            r.version == self.version,
            r.payload == self.payload,
            r.meta@ == self.meta@,
            r.created_at == self.created_at,
    {
        EventRecord {
            aggregate_id: self.aggregate_id.clone(),
            aggregate_type: self.aggregate_type.clone(),
            version: self.version,
            payload: self.payload.clone(),
            meta: copy_meta(&self.meta),
            created_at: self.created_at.clone(),
        }
    }
}

/// Stamps `events` with the versions `current_version + 1`, `+ 2`, ... in
/// input order, attaching the aggregate's id and type, `meta` and `created_at`.
pub fn format_events(
    aggregate_id: &String,
    aggregate_type: &String,
    current_version: u64,
    events: Vec<String>,
    meta: &MetaData,
    created_at: &String,
) -> (r: Vec<EventRecord>)
    requires
        current_version + events.len() <= MAX_VERSION,
    ensures
        is_batch(r@, *aggregate_id, *aggregate_type, current_version as int, events@, meta@, *created_at),
{
    let mut r: Vec<EventRecord> = Vec::new();
    let mut version: u64 = current_version;
    let mut i: usize = 0;
    while i < events.len()
        invariant
            i <= events.len(),
            current_version + events.len() <= MAX_VERSION,
            version == current_version + i,
            is_batch(r@, *aggregate_id, *aggregate_type, current_version as int, events@.subrange(0, i as int), meta@, *created_at),
        decreases events.len() - i,
    {
        version = version + 1;
        let record = EventRecord {
            aggregate_id: aggregate_id.clone(),
            aggregate_type: aggregate_type.clone(),
            version,
            payload: events[i].clone(),
            meta: copy_meta(meta),
            created_at: created_at.clone(),
        };
        r.push(record);
        i = i + 1;
        assert forall|j: int| 0 <= j < r@.len() implies #[trigger] is_stamped(
            r@[j],
            *aggregate_id,
            *aggregate_type,
            current_version + j + 1,
            events@.subrange(0, i as int)[j],
            meta@,
            *created_at,
        ) by {
            if j < i - 1 {
                assert(events@.subrange(0, i as int)[j] == events@.subrange(0, i - 1)[j]);
            }
        }
    }
    assert(events@.subrange(0, i as int) =~= events@);
    r
}

/// Prepares the records of an append: nothing for an empty batch; otherwise
/// the events numbered from the context's version, refused when the context
/// names no aggregate or the numbers would pass `MAX_VERSION`.
pub fn prepare_append(
    aggregate_type: &String,
    aggregate_id: Option<&String>,
    current_version: u64,
    events: Vec<String>,
    meta: &MetaData,
    created_at: &String,
) -> (r: Result<Vec<EventRecord>, StoreError>)
    ensures
        events@.len() == 0 ==> (r matches Ok(v) && v@.len() == 0),
        events@.len() > 0 && aggregate_id is None ==> r == Err::<Vec<EventRecord>, StoreError>(
            StoreError::MissingId,
        ),
        events@.len() > 0 && aggregate_id is Some ==> (r is Ok <==> current_version
            + events@.len() <= MAX_VERSION),
        events@.len() > 0 && aggregate_id is Some && r is Err ==> r == Err::<
            Vec<EventRecord>,
            StoreError,
        >(StoreError::VersionOverflow),
        r is Ok && events@.len() > 0 ==> is_batch(
            r->Ok_0@,
            *aggregate_id->Some_0,
            *aggregate_type,
            current_version as int,
            events@,
            meta@,
            *created_at,
        ),
{
    if events.len() == 0 {
        return Ok(Vec::new());
    }
    let id = match aggregate_id {
        None => {
            return Err(StoreError::MissingId);
        },
        Some(id) => id,
    };
    if current_version > MAX_VERSION || events.len() as u64 > MAX_VERSION - current_version {
        return Err(StoreError::VersionOverflow);
    }
    Ok(format_events(id, aggregate_type, current_version, events, meta, created_at))
}

} // verus!
