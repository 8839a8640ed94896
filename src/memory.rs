use vstd::prelude::*;
use crate::record::{
    format_events, is_batch, is_stamped, EventRecord, MetaData, StoreError, MAX_VERSION,
};
use crate::replay::{assemble, assembled, numbered_from, payloads_of, AggregateContext};

verus! {

/// The records of `records` that belong to aggregate `id`, in stored order.
pub open spec fn stream_of(records: Seq<EventRecord>, id: Seq<char>) -> Seq<EventRecord>
    decreases records.len(),
{
    if records.len() == 0 {
        Seq::empty()
    } else {
        let earlier = stream_of(records.drop_last(), id);
        if records.last().aggregate_id@ == id {
            earlier.push(records.last())
        } else {
            earlier
        }
    }
}

/// Two records agree field for field (metadata entry for entry).
pub open spec fn same_record(a: EventRecord, b: EventRecord) -> bool {
    is_stamped(a, b.aggregate_id, b.aggregate_type, b.version as int, b.payload, b.meta@, b.created_at)
}

/// Two sequences of records agree record for record.
pub open spec fn same_records(a: Seq<EventRecord>, b: Seq<EventRecord>) -> bool {
    &&& a.len() == b.len()
    &&& forall|i: int| 0 <= i < a.len() ==> #[trigger] same_record(a[i], b[i])
}

/// Appending records of aggregate `id` extends its stream by them, and leaves
/// every other stream as it was.
pub proof fn lemma_stream_of_append(records: Seq<EventRecord>, batch: Seq<EventRecord>, id: Seq<char>, other: Seq<char>)
    requires
        forall|i: int| 0 <= i < batch.len() ==> (#[trigger] batch[i]).aggregate_id@ == id,
    ensures
        stream_of(records + batch, id) == stream_of(records, id) + batch,
        other != id ==> stream_of(records + batch, other) == stream_of(records, other),
    decreases batch.len(),
{
    if batch.len() == 0 {
        assert(records + batch =~= records);
        assert(stream_of(records, id) + batch =~= stream_of(records, id));
    } else {
        let front = batch.drop_last();
        lemma_stream_of_append(records, front, id, other);
        assert((records + batch).drop_last() =~= records + front);
        assert((records + batch).last() == batch.last());
        assert(stream_of(records, id) + batch =~= (stream_of(records, id) + front).push(batch.last()));
    }
}

/// Records that agree field for field carry the same payloads, and the same
/// stamps.
pub proof fn lemma_same_records_batch(
    a: Seq<EventRecord>,
    b: Seq<EventRecord>,
    aggregate_id: String,
    aggregate_type: String,
    current_version: int,
    events: Seq<String>,
    meta: Seq<(String, String)>,
    created_at: String,
)
    requires
        same_records(a, b),
    ensures
        payloads_of(a) == payloads_of(b),
        is_batch(b, aggregate_id, aggregate_type, current_version, events, meta, created_at)
            ==> is_batch(a, aggregate_id, aggregate_type, current_version, events, meta, created_at),
{
    assert(payloads_of(a) =~= payloads_of(b)) by {
        assert forall|i: int| 0 <= i < a.len() implies payloads_of(a)[i] == payloads_of(b)[i] by {
            assert(same_record(a[i], b[i]));
        }
    }
    if is_batch(b, aggregate_id, aggregate_type, current_version, events, meta, created_at) {
        assert forall|i: int| 0 <= i < a.len() implies #[trigger] is_stamped(
            a[i],
            aggregate_id,
            aggregate_type,
            current_version + i + 1,
            events[i],
            meta,
            created_at,
        ) by {
            assert(same_record(a[i], b[i]));
            assert(is_stamped(b[i], aggregate_id, aggregate_type, current_version + i + 1, events[i], meta, created_at));
        }
    }
}

/// The outcome of appending `events` for aggregate `id`, expected to stand
/// at `version`, to the log `before`, giving result `r` and log `after`.
pub open spec fn appended(
    before: Seq<EventRecord>,
    kind: String,
    events: Seq<String>,
    id: Option<String>,
    version: int,
    meta: Seq<(String, String)>,
    created_at: String,
    r: Result<Vec<EventRecord>, StoreError>,
    after: Seq<EventRecord>,
) -> bool {
    if events.len() == 0 {
        &&& r matches Ok(v) && v@.len() == 0
        &&& after == before
    } else {
        match id {
            None => r == Err::<Vec<EventRecord>, StoreError>(StoreError::MissingId) && after == before,
            Some(name) => if version + events.len() > MAX_VERSION {
                r == Err::<Vec<EventRecord>, StoreError>(StoreError::VersionOverflow) && after == before
            } else if version != stream_of(before, name@).len() {
                r == Err::<Vec<EventRecord>, StoreError>(StoreError::Conflict) && after == before
            } else {
                let stored = after.subrange(before.len() as int, after.len() as int);
                &&& after.len() >= before.len()
                &&& after.subrange(0, before.len() as int) == before
                &&& is_batch(stored, name, kind, version, events, meta, created_at)
                &&& r matches Ok(v) && same_records(v@, stored)
            },
        }
    }
}

/// An event log held in memory for one kind of aggregate. Each aggregate's
/// stream is numbered 1, 2, 3, ... in stored order: an append must continue
/// the stream exactly where the caller's context left it, or it is refused as
/// a conflict and nothing is written.
pub struct MemoryStore {
    aggregate_type: String,
    records: Vec<EventRecord>,
}

impl MemoryStore {
    /// The aggregate type this log holds events of.
    pub closed spec fn kind(&self) -> String {
        self.aggregate_type
    }

    /// Every stored record, in the order of writing.
    pub closed spec fn contents(&self) -> Seq<EventRecord> {
        self.records@
    }

    /// Each stream is numbered from 1 without gaps, and every record belongs
    /// to this log's aggregate type.
    pub open spec fn wf(&self) -> bool {
        &&& forall|id: Seq<char>| numbered_from(#[trigger] stream_of(self.contents(), id), 0)
        &&& forall|i: int|
            0 <= i < self.contents().len() ==> (#[trigger] self.contents()[i]).aggregate_type
                == self.kind()
    }

    /// An empty log for the given aggregate type.
    pub fn new(aggregate_type: String) -> (r: MemoryStore)
        ensures
            r.wf(),
            r.kind() == aggregate_type,
            r.contents().len() == 0,
    {
        let r = MemoryStore { aggregate_type, records: Vec::new() };
        assert forall|id: Seq<char>| numbered_from(#[trigger] stream_of(r.contents(), id), 0) by {
            assert(stream_of(r.contents(), id).len() == 0);
        }
        r
    }

    /// The aggregate type this log holds events of.
    pub fn aggregate_type(&self) -> (r: &String)
        ensures
            *r == self.kind(),
    {
        &self.aggregate_type
    }

    /// The number of records in aggregate `id`'s stream.
    pub fn stream_len(&self, id: &String) -> (r: u64)
        requires
            self.wf(),
        ensures
            r == stream_of(self.contents(), id@).len(),
    {
        let mut n: u64 = 0;
        let mut i: usize = 0;
        while i < self.records.len()
            invariant
                self.wf(),
                i <= self.records@.len(),
                n == stream_of(self.records@.subrange(0, i as int), id@).len(),
                n <= i,
            decreases self.records.len() - i,
        {
            proof {
                lemma_stream_prefix_len(self.records@, i as int, id@);
            }
            if self.records[i].aggregate_id == *id {
                n = n + 1;
            }
            i = i + 1;
        }
        assert(self.records@.subrange(0, i as int) =~= self.records@);
        n
    }

    /// The complete, version-ordered history of aggregate `aggregate_id`;
    /// empty when it has none.
    pub fn retrieve(&self, aggregate_id: &String) -> (r: Vec<EventRecord>)
        requires
            self.wf(),
        ensures
            same_records(r@, stream_of(self.contents(), aggregate_id@)),
    {
        let mut r: Vec<EventRecord> = Vec::new();
        let mut i: usize = 0;
        while i < self.records.len()
            invariant
                i <= self.records@.len(),
                same_records(r@, stream_of(self.records@.subrange(0, i as int), aggregate_id@)),
            decreases self.records.len() - i,
        {
            let ghost before = r@;
            assert(self.records@.subrange(0, i + 1).drop_last() =~= self.records@.subrange(0, i as int));
            if self.records[i].aggregate_id == *aggregate_id {
                let copy = self.records[i].duplicate();
                r.push(copy);
                assert forall|j: int| 0 <= j < r@.len() implies #[trigger] same_record(
                    r@[j],
                    stream_of(self.records@.subrange(0, i + 1), aggregate_id@)[j],
                ) by {
                    if j < before.len() {
                        assert(r@[j] == before[j]);
                    }
                }
            }
            i = i + 1;
        }
        assert(self.records@.subrange(0, i as int) =~= self.records@);
        r
    }

    /// Every record of this log's aggregate type, optionally narrowed to one
    /// aggregate; each aggregate's records stay in version order.
    pub fn retrieve_for_query(&self, aggregate_id: Option<&String>) -> (r: Vec<EventRecord>)
        requires
            self.wf(),
        ensures
            match aggregate_id {
                Some(id) => same_records(r@, stream_of(self.contents(), id@)),
                None => same_records(r@, self.contents()),
            },
    {
        match aggregate_id {
            Some(id) => self.retrieve(id),
            None => {
                let mut r: Vec<EventRecord> = Vec::new();
                let mut i: usize = 0;
                while i < self.records.len()
                    invariant
                        i <= self.records@.len(),
                        same_records(r@, self.records@.subrange(0, i as int)),
                    decreases self.records.len() - i,
                {
                    let copy = self.records[i].duplicate();
                    r.push(copy);
                    i = i + 1;
                    assert forall|j: int| 0 <= j < r@.len() implies #[trigger] same_record(
                        r@[j],
                        self.records@.subrange(0, i as int)[j],
                    ) by {
                        if j < i - 1 {
                            assert(self.records@.subrange(0, i as int)[j] == self.records@.subrange(0, i - 1)[j]);
                        }
                    }
                }
                assert(self.records@.subrange(0, i as int) =~= self.records@);
                r
            },
        }
    }

    /// Appends `events` to the stream of the context's aggregate, numbered
    /// from `context.version + 1` in input order, and returns the records
    /// written. An empty batch writes nothing and returns nothing. The batch is
    /// written whole or not at all: it is refused when the context names no
    /// aggregate, when its numbers would pass `MAX_VERSION`, and as a conflict
    /// when the stream does not end at `context.version`.
    pub fn append<A>(
        &mut self,
        events: Vec<String>,
        context: &AggregateContext<A>,
        meta: &MetaData,
        created_at: &String,
    ) -> (r: Result<Vec<EventRecord>, StoreError>)
        requires
            old(self).wf(),
        ensures
            final(self).wf(),
            final(self).kind() == old(self).kind(),
            appended(
                old(self).contents(),
                old(self).kind(),
                events@,
                context.id,
                context.version as int,
                meta@,
                *created_at,
                r,
                final(self).contents(),
            ),
    {
        if events.len() == 0 {
            return Ok(Vec::new());
        }
        let id = match &context.id {
            None => {
                return Err(StoreError::MissingId);
            },
            Some(id) => id,
        };
        if context.version > MAX_VERSION || events.len() as u64 > MAX_VERSION - context.version {
            return Err(StoreError::VersionOverflow);
        }
        if self.stream_len(id) != context.version {
            return Err(StoreError::Conflict);
        }
        let mut batch = format_events(id, &self.aggregate_type, context.version, events, meta, created_at);
        let ghost old_records = self.records@;
        let ghost kind = self.aggregate_type;
        let ghost fresh = batch@;
        let mut written: Vec<EventRecord> = Vec::new();
        let mut i: usize = 0;
        while i < batch.len()
            invariant
                i <= batch@.len(),
                same_records(written@, batch@.subrange(0, i as int)),
            decreases batch.len() - i,
        {
            let ghost before = written@;
            written.push(batch[i].duplicate());
            i = i + 1;
            assert forall|j: int| 0 <= j < written@.len() implies #[trigger] same_record(
                written@[j],
                batch@.subrange(0, i as int)[j],
            ) by {
                if j < i - 1 {
                    assert(written@[j] == before[j]);
                    assert(batch@.subrange(0, i as int)[j] == batch@.subrange(0, i - 1)[j]);
                }
            }
        }
        assert(batch@.subrange(0, i as int) =~= batch@);
        self.records.append(&mut batch);
        proof {
            let n = old_records.len() as int;
            let stored = self.records@.subrange(n, self.records@.len() as int);
            assert(self.records@.subrange(0, n) =~= old_records);
            assert(stored =~= fresh);
            assert forall|k: int| 0 <= k < fresh.len() implies (#[trigger] fresh[k]).aggregate_id@ == id@ by {
                assert(is_stamped(fresh[k], *id, kind, context.version + k + 1, events@[k], meta@, *created_at));
            }
            assert forall|other: Seq<char>| numbered_from(#[trigger] stream_of(self.contents(), other), 0) by {
                lemma_stream_of_append(old_records, fresh, id@, other);
                assert(numbered_from(stream_of(old_records, other), 0));
                if other == id@ {
                    let s = stream_of(self.contents(), other);
                    let prior = stream_of(old_records, other);
                    assert forall|k: int| 0 <= k < s.len() implies #[trigger] s[k].version == k + 1 by {
                        if k >= prior.len() {
                            let b = k - prior.len();
                            assert(s[k] == fresh[b]);
                            assert(is_stamped(fresh[b], *id, kind, context.version + b + 1, events@[b], meta@, *created_at));
                        } else {
                            assert(s[k] == prior[k]);
                        }
                    }
                }
            }
            assert forall|k: int| 0 <= k < self.contents().len() implies (#[trigger] self.contents()[k]).aggregate_type
                == self.kind() by {
                if k >= n {
                    assert(self.contents()[k] == fresh[k - n]);
                    assert(is_stamped(fresh[k - n], *id, kind, context.version + (k - n) + 1, events@[k - n], meta@, *created_at));
                } else {
                    assert(self.contents()[k] == old_records[k]);
                }
            }
        }
        Ok(written)
    }

    /// Rebuilds aggregate `id` by replaying its whole stream from `init`; a
    /// fresh context at version 0 when no id is given, and the context of an
    /// empty stream (version 0, `init`) for an id with no events.
    pub fn assemble_aggregate<A, F: Fn(A, String) -> A>(
        &self,
        id: Option<String>,
        init: A,
        apply: F,
    ) -> (r: Result<AggregateContext<A>, StoreError>)
        requires
            self.wf(),
            forall|a: A, p: String| #[trigger] apply.requires((a, p)),
        ensures
            r is Ok,
            match id {
                None => assembled(id, Seq::empty(), init, apply, r),
                Some(name) => assembled(id, stream_of(self.contents(), name@), init, apply, r),
            },
    {
        let history = match &id {
            None => Vec::new(),
            Some(name) => self.retrieve(name),
        };
        let ghost given = id;
        let r = assemble(id, &history, init, apply);
        proof {
            if let Some(name) = given {
                let s = stream_of(self.contents(), name@);
                lemma_same_records_batch(history@, s, name, name, 0, Seq::empty(), Seq::empty(), name);
                assert(numbered_from(s, 0));
                assert(numbered_from(history@, 0)) by {
                    assert forall|i: int| 0 <= i < history@.len() implies #[trigger] history@[i].version == 0 + i + 1 by {
                        assert(same_record(history@[i], s[i]));
                    }
                }
            }
        }
        r
    }
}

/// The stream of a prefix one record longer is the shorter prefix's stream,
/// extended by that record when it belongs to `id`.
pub proof fn lemma_stream_prefix_len(records: Seq<EventRecord>, i: int, id: Seq<char>)
    requires
        0 <= i < records.len(),
    ensures
        stream_of(records.subrange(0, i + 1), id) == if records[i].aggregate_id@ == id {
            stream_of(records.subrange(0, i), id).push(records[i])
        } else {
            stream_of(records.subrange(0, i), id)
        },
{
    assert(records.subrange(0, i + 1).drop_last() =~= records.subrange(0, i));
}

} // verus!
