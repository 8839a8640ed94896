use vstd::prelude::*;
use crate::memory::{appended, lemma_same_records_batch, lemma_stream_of_append, same_record, same_records, stream_of};
use crate::record::{is_batch, is_stamped, EventRecord, StoreError, MAX_VERSION};
use crate::replay::{assembled, numbered_from, payloads_of, replays, AggregateContext};

verus! {

/// A successful append of a non-empty batch extends the aggregate's stream by
/// exactly the stored batch.
pub proof fn lemma_appended_stream(
    before: Seq<EventRecord>,
    kind: String,
    events: Seq<String>,
    id: String,
    version: int,
    meta: Seq<(String, String)>,
    created_at: String,
    r: Result<Vec<EventRecord>, StoreError>,
    after: Seq<EventRecord>,
)
    requires
        events.len() > 0,
        0 <= version,
        version + events.len() <= MAX_VERSION,
        version == stream_of(before, id@).len(),
        appended(before, kind, events, Some(id), version, meta, created_at, r, after),
    ensures
        r is Ok,
        stream_of(after, id@) == stream_of(before, id@) + after.subrange(before.len() as int, after.len() as int),
        is_batch(after.subrange(before.len() as int, after.len() as int), id, kind, version, events, meta, created_at),
{
    let stored = after.subrange(before.len() as int, after.len() as int);
    assert(after =~= before + stored);
    assert forall|k: int| 0 <= k < stored.len() implies (#[trigger] stored[k]).aggregate_id@ == id@ by {
        assert(is_stamped(stored[k], id, kind, version + k + 1, events[k], meta, created_at));
    }
    lemma_stream_of_append(before, stored, id@, id@);
}

/// Appending events to an aggregate that has none, then reading its history,
/// gives back the events in the order given, numbered 1, 2, 3, ...
pub proof fn law_fresh_append_then_retrieve(
    before: Seq<EventRecord>,
    kind: String,
    events: Seq<String>,
    id: String,
    meta: Seq<(String, String)>,
    created_at: String,
    r: Result<Vec<EventRecord>, StoreError>,
    after: Seq<EventRecord>,
    history: Seq<EventRecord>,
)
    requires
        stream_of(before, id@).len() == 0,
        events.len() <= MAX_VERSION,
        appended(before, kind, events, Some(id), 0, meta, created_at, r, after),
        same_records(history, stream_of(after, id@)),
    ensures
        r is Ok,
        history.len() == events.len(),
        payloads_of(history) == events,
        forall|i: int| 0 <= i < history.len() ==> (#[trigger] history[i]).version == i + 1,
{
    let stream = stream_of(after, id@);
    if events.len() > 0 {
        lemma_appended_stream(before, kind, events, id, 0, meta, created_at, r, after);
        let stored = after.subrange(before.len() as int, after.len() as int);
        assert(stream =~= stored);
        lemma_same_records_batch(history, stream, id, kind, 0, events, meta, created_at);
        assert forall|i: int| 0 <= i < history.len() implies (#[trigger] history[i]).version == i + 1 by {
            assert(is_stamped(history[i], id, kind, 0 + i + 1, events[i], meta, created_at));
        }
        assert(payloads_of(history) =~= events) by {
            assert forall|i: int| 0 <= i < history.len() implies payloads_of(history)[i] == events[i] by {
                assert(is_stamped(history[i], id, kind, 0 + i + 1, events[i], meta, created_at));
            }
        }
    } else {
        assert(payloads_of(history) =~= events);
    }
}

/// Rebuilding an aggregate right after appending events to it when it had
/// none yields the fold of those events in order, at the version equal to
/// their number.
pub proof fn law_fresh_append_then_assemble<A, F: Fn(A, String) -> A>(
    before: Seq<EventRecord>,
    kind: String,
    events: Seq<String>,
    id: String,
    meta: Seq<(String, String)>,
    created_at: String,
    r: Result<Vec<EventRecord>, StoreError>,
    after: Seq<EventRecord>,
    init: A,
    apply: F,
    context: Result<AggregateContext<A>, StoreError>,
)
    requires
        stream_of(before, id@).len() == 0,
        events.len() <= MAX_VERSION,
        appended(before, kind, events, Some(id), 0, meta, created_at, r, after),
        assembled(Some(id), stream_of(after, id@), init, apply, context),
    ensures
        context matches Ok(c) && c.version == events.len() && replays(apply, init, events, c.aggregate),
{
    let stream = stream_of(after, id@);
    assert forall|k: int| 0 <= k < stream.len() implies #[trigger] same_record(stream[k], stream[k]) by {}
    law_fresh_append_then_retrieve(before, kind, events, id, meta, created_at, r, after, stream);
}

/// Two appends made from the same context of one aggregate: once the first has
/// been written, the second is refused as a conflict and writes nothing, and the
/// stream holds exactly one record at the version both aimed for.
pub proof fn law_competing_appends(
    before: Seq<EventRecord>,
    kind: String,
    id: String,
    version: int,
    first: Seq<String>,
    second: Seq<String>,
    meta: Seq<(String, String)>,
    created_at: String,
    r1: Result<Vec<EventRecord>, StoreError>,
    middle: Seq<EventRecord>,
    r2: Result<Vec<EventRecord>, StoreError>,
    after: Seq<EventRecord>,
)
    requires
        numbered_from(stream_of(before, id@), 0),
        version == stream_of(before, id@).len(),
        first.len() > 0,
        second.len() > 0,
        version + first.len() <= MAX_VERSION,
        version + second.len() <= MAX_VERSION,
        appended(before, kind, first, Some(id), version, meta, created_at, r1, middle),
        appended(middle, kind, second, Some(id), version, meta, created_at, r2, after),
    ensures
        r1 is Ok,
        r2 == Err::<Vec<EventRecord>, StoreError>(StoreError::Conflict),
        after == middle,
        exists|i: int|
            0 <= i < stream_of(after, id@).len() && (#[trigger] stream_of(after, id@)[i]).version
                == version + 1,
        forall|i: int, j: int|
            0 <= i < stream_of(after, id@).len() && 0 <= j < stream_of(after, id@).len()
                && (#[trigger] stream_of(after, id@)[i]).version == version + 1
                && (#[trigger] stream_of(after, id@)[j]).version == version + 1 ==> i == j,
{
    lemma_appended_stream(before, kind, first, id, version, meta, created_at, r1, middle);
    let prior = stream_of(before, id@);
    let stored = middle.subrange(before.len() as int, middle.len() as int);
    let s = stream_of(middle, id@);
    assert(s.len() == version + first.len());
    assert(after == middle);
    assert forall|k: int| 0 <= k < s.len() implies #[trigger] s[k].version == k + 1 by {
        if k < prior.len() {
            assert(s[k] == prior[k]);
        } else {
            let b = k - prior.len();
            assert(s[k] == stored[b]);
            assert(is_stamped(stored[b], id, kind, version + b + 1, first[b], meta, created_at));
        }
    }
    assert(s[version].version == version + 1);
}

} // verus!
