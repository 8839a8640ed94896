use vstd::prelude::*;
use crate::record::{EventRecord, StoreError};

verus! {

/// A context being rebuilt from a stream: the aggregate it belongs to, the
/// version of the last record applied (0 when none) and the folded state.
pub struct AggregateContext<A> {
    pub id: Option<String>,
    pub version: u64,
    pub aggregate: A,
}

/// The payloads of a sequence of records, in order.
pub open spec fn payloads_of(records: Seq<EventRecord>) -> Seq<String> {
    records.map_values(|r: EventRecord| r.payload)
}

/// The records are numbered `base + 1`, `base + 2`, ... in order.
pub open spec fn numbered_from(records: Seq<EventRecord>, base: int) -> bool {
    forall|i: int| 0 <= i < records.len() ==> #[trigger] records[i].version == base + i + 1
}

/// `trace` lists the states of a replay: `init`, then the state after each
/// payload, each one a step of `apply` from the one before.
pub open spec fn is_trace<A, F: Fn(A, String) -> A>(
    apply: F,
    init: A,
    payloads: Seq<String>,
    trace: Seq<A>,
) -> bool {
    &&& trace.len() == payloads.len() + 1
    &&& trace[0] == init
    &&& forall|i: int|
        #![trigger payloads[i]]
        0 <= i < payloads.len() ==> call_ensures(apply, (trace[i], payloads[i]), trace[i + 1])
}

/// `state` is reached from `init` by applying `apply` to each payload in
/// order, one step per payload.
pub open spec fn replays<A, F: Fn(A, String) -> A>(
    apply: F,
    init: A,
    payloads: Seq<String>,
    state: A,
) -> bool {
    exists|trace: Seq<A>| #[trigger] is_trace(apply, init, payloads, trace) && trace.last() == state
}

/// What assembling an aggregate from `history` yields: a fresh context when no
/// id is given; otherwise the fold of the whole history at the version of its
/// last record, or an integrity error when the history is not numbered
/// 1, 2, 3, ...
pub open spec fn assembled<A, F: Fn(A, String) -> A>(
    id: Option<String>,
    history: Seq<EventRecord>,
    init: A,
    apply: F,
    r: Result<AggregateContext<A>, StoreError>,
) -> bool {
    match id {
        None => r == Ok::<AggregateContext<A>, StoreError>(
            AggregateContext { id: None, version: 0, aggregate: init },
        ),
        Some(_) => {
            &&& r is Ok <==> numbered_from(history, 0)
            &&& r is Err ==> r == Err::<AggregateContext<A>, StoreError>(StoreError::Integrity)
            &&& r matches Ok(c) ==> {
                &&& c.id == id
                &&& c.version == history.len()
                &&& replays(apply, init, payloads_of(history), c.aggregate)
            }
        },
    }
}

/// Rebuilds an aggregate from its version-ordered history: starting from
/// `init`, applies each record's payload in order and moves the context's
/// version to that record's. Every record is applied exactly once; a history
/// that is not numbered 1, 2, 3, ... (a gap, a repeat, a wrong order) is an
/// integrity error. Without an id the history is not read.
pub fn assemble<A, F: Fn(A, String) -> A>(
    id: Option<String>,
    history: &Vec<EventRecord>,
    init: A,
    apply: F,
) -> (r: Result<AggregateContext<A>, StoreError>)
    requires
        forall|a: A, p: String| #[trigger] apply.requires((a, p)),
    ensures
        assembled(id, history@, init, apply, r),
{
    let name = match id {
        None => {
            return Ok(AggregateContext { id: None, version: 0, aggregate: init });
        },
        Some(name) => name,
    };
    let mut i: usize = 0;
    while i < history.len()
        invariant
            i <= history.len(),
            numbered_from(history@.subrange(0, i as int), 0),
            id == Some(name),
        decreases history.len() - i,
    {
        if history[i].version == 0 || history[i].version - 1 != i as u64 {
            assert(!numbered_from(history@, 0)) by {
                assert(history@[i as int].version != i + 1);
            }
            return Err(StoreError::Integrity);
        }
        i = i + 1;
        assert forall|j: int| 0 <= j < i implies #[trigger] history@.subrange(0, i as int)[j].version
            == j + 1 by {
            if j < i - 1 {
                assert(history@.subrange(0, i as int)[j] == history@.subrange(0, i - 1)[j]);
            }
        }
    }
    assert(history@.subrange(0, i as int) =~= history@);
    let ghost init_state = init;
    let mut state = init;
    let mut version: u64 = 0;
    let mut k: usize = 0;
    let ghost mut trace: Seq<A> = seq![init_state];
    assert(is_trace(apply, init_state, payloads_of(history@.subrange(0, 0)), trace));
    while k < history.len()
        invariant
            k <= history.len(),
            numbered_from(history@, 0),
            version == k,
            forall|a: A, p: String| #[trigger] apply.requires((a, p)),
            is_trace(apply, init_state, payloads_of(history@.subrange(0, k as int)), trace),
            trace.last() == state,
        decreases history.len() - k,
    {
        state = apply(state, history[k].payload.clone());
        version = history[k].version;
        k = k + 1;
        proof {
            let before = trace;
            trace = trace.push(state);
            let p = payloads_of(history@.subrange(0, k as int));
            assert(p.drop_last() =~= payloads_of(history@.subrange(0, k - 1)));
            assert forall|j: int| #![trigger p[j]] 0 <= j < p.len() implies call_ensures(
                apply,
                (trace[j], p[j]),
                trace[j + 1],
            ) by {
                if j < k - 1 {
                    assert(p[j] == p.drop_last()[j]);
                    assert(trace[j] == before[j] && trace[j + 1] == before[j + 1]);
                }
            }
        }
    }
    assert(is_trace(apply, init_state, payloads_of(history@.subrange(0, k as int)), trace));
    assert(history@.subrange(0, k as int) =~= history@);
    Ok(AggregateContext { id: Some(name), version, aggregate: state })
}

} // verus!
