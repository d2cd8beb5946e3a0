//! Laws of the write path: how one applied batch shows up under row lookup,
//! that upserts are idempotent, order-independent across batches with
//! disjoint identifiers, and last-writer-wins for one identifier.

use vstd::prelude::*;

use crate::codec::{ts_le, Timestamp, UuidVal};
use crate::ingest::{BatchIngestData, ObservationIngestData, TraceIngestData};
use crate::store::{
    apply_batch_data, apply_batches_data, apply_observation_data, apply_observations_data,
    ensure_trace_rows,
    obs_row_from, obs_row_of, opt_str_or, stub_trace_row, trace_row_from, trace_row_of,
    upsert_obs_rows, upsert_trace_rows, ObservationRowData, StoreData, TraceRowData,
};

verus! {

// --- what a batch touches -------------------------------------------------

/// The first observation of the batch referencing trace `id`, if any.
pub open spec fn first_ref(obs: Seq<ObservationIngestData>, id: UuidVal) -> Option<
    ObservationIngestData,
>
    decreases obs.len(),
{
    if obs.len() == 0 {
        None
    } else if obs.first().trace_id == id {
        Some(obs.first())
    } else {
        first_ref(obs.drop_first(), id)
    }
}

/// The last observation of the batch carrying `id`, if any.
pub open spec fn last_with(obs: Seq<ObservationIngestData>, id: UuidVal) -> Option<
    ObservationIngestData,
>
    decreases obs.len(),
{
    if obs.len() == 0 {
        None
    } else {
        let rest = last_with(obs.drop_first(), id);
        if rest is Some {
            rest
        } else if obs.first().id == id {
            Some(obs.first())
        } else {
            None
        }
    }
}

/// The batch writes trace row `id`: as its trace record or as a stub for an
/// observation's reference.
pub open spec fn batch_touches_trace(b: BatchIngestData, id: UuidVal) -> bool {
    (match b.trace {
        Some(t) => t.id == id,
        None => false,
    }) || first_ref(b.observations, id) is Some
}

/// The batch writes observation row `id`.
pub open spec fn batch_touches_obs(b: BatchIngestData, id: UuidVal) -> bool {
    last_with(b.observations, id) is Some
}

/// The `created_at` an upsert leaves: the prior row's, or the write instant.
pub open spec fn created_of_trace(prior: Option<TraceRowData>, now: Timestamp) -> Timestamp {
    match prior {
        Some(r) => r.created_at,
        None => now,
    }
}

/// The `created_at` an observation upsert leaves.
pub open spec fn created_of_obs(prior: Option<ObservationRowData>, now: Timestamp) -> Timestamp {
    match prior {
        Some(r) => r.created_at,
        None => now,
    }
}

/// The trace row under `id` after a batch, as a function of the prior row and
/// the batch alone.
pub open spec fn trace_effect(
    prior: Option<TraceRowData>,
    b: BatchIngestData,
    d: Seq<char>,
    now: Timestamp,
    id: UuidVal,
) -> Option<TraceRowData> {
    let after = match b.trace {
        Some(t) => if t.id == id {
            Some(trace_row_from(t, d, now, created_of_trace(prior, now)))
        } else {
            prior
        },
        None => prior,
    };
    match after {
        Some(r) => Some(r),
        None => match first_ref(b.observations, id) {
            Some(o) => Some(
                stub_trace_row(
                    id,
                    opt_str_or(o.project_id, d),
                    opt_str_or(o.environment, "default"@),
                    now,
                ),
            ),
            None => None,
        },
    }
}

/// The observation row under `id` after a batch, as a function of the prior
/// row and the batch alone.
pub open spec fn obs_effect(
    prior: Option<ObservationRowData>,
    b: BatchIngestData,
    d: Seq<char>,
    now: Timestamp,
    id: UuidVal,
) -> Option<ObservationRowData> {
    match last_with(b.observations, id) {
        Some(o) => Some(obs_row_from(o, d, now, created_of_obs(prior, now))),
        None => prior,
    }
}

// --- single-step lookup lemmas ---------------------------------------------

proof fn lemma_upsert_trace_lookup(
    s: Seq<TraceRowData>,
    t: TraceIngestData,
    d: Seq<char>,
    now: Timestamp,
    id: UuidVal,
)
    ensures
        trace_row_of(upsert_trace_rows(s, t, d, now), id) == (if id == t.id {
            Some(trace_row_from(t, d, now, created_of_trace(trace_row_of(s, id), now)))
        } else {
            trace_row_of(s, id)
        }),
    decreases s.len(),
{
    let r = upsert_trace_rows(s, t, d, now);
    if s.len() == 0 {
        assert(r =~= seq![trace_row_from(t, d, now, now)]);
        assert(r.first() == trace_row_from(t, d, now, now));
        assert(r.drop_first() =~= Seq::<TraceRowData>::empty());
        assert(r.first().id == t.id);
        assert(trace_row_of(s, id) is None);
        if id == t.id {
            assert(trace_row_of(r, id) == Some(r.first()));
            assert(r.first() == trace_row_from(t, d, now, created_of_trace(trace_row_of(s, id), now)));
        } else {
            assert(trace_row_of(r, id) == trace_row_of(r.drop_first(), id));
            assert(trace_row_of(r, id) is None);
        }
    } else if s.first().id == t.id {
        assert(r =~= seq![trace_row_from(t, d, now, s.first().created_at)] + s.drop_first());
        assert(r.first() == trace_row_from(t, d, now, s.first().created_at));
        assert(r.drop_first() =~= s.drop_first());
    } else {
        lemma_upsert_trace_lookup(s.drop_first(), t, d, now, id);
        assert(r =~= seq![s.first()] + upsert_trace_rows(s.drop_first(), t, d, now));
        assert(r.first() == s.first());
        assert(r.drop_first() =~= upsert_trace_rows(s.drop_first(), t, d, now));
    }
}

proof fn lemma_ensure_trace_lookup(
    s: Seq<TraceRowData>,
    id0: UuidVal,
    project_id: Seq<char>,
    environment: Seq<char>,
    now: Timestamp,
    id: UuidVal,
)
    ensures
        trace_row_of(ensure_trace_rows(s, id0, project_id, environment, now), id) == (if id == id0 {
            match trace_row_of(s, id) {
                Some(r) => Some(r),
                None => Some(stub_trace_row(id0, project_id, environment, now)),
            }
        } else {
            trace_row_of(s, id)
        }),
    decreases s.len(),
{
    let r = ensure_trace_rows(s, id0, project_id, environment, now);
    if s.len() == 0 {
        assert(r =~= seq![stub_trace_row(id0, project_id, environment, now)]);
        assert(r.first() == stub_trace_row(id0, project_id, environment, now));
        assert(r.drop_first() =~= Seq::<TraceRowData>::empty());
        assert(r.first().id == id0);
        assert(trace_row_of(s, id) is None);
        if id == id0 {
            assert(trace_row_of(r, id) == Some(r.first()));
        } else {
            assert(trace_row_of(r, id) == trace_row_of(r.drop_first(), id));
            assert(trace_row_of(r, id) is None);
        }
    } else if s.first().id == id0 {
    } else {
        lemma_ensure_trace_lookup(s.drop_first(), id0, project_id, environment, now, id);
        assert(r =~= seq![s.first()] + ensure_trace_rows(
            s.drop_first(),
            id0,
            project_id,
            environment,
            now,
        ));
        assert(r.first() == s.first());
        assert(r.drop_first() =~= ensure_trace_rows(
            s.drop_first(),
            id0,
            project_id,
            environment,
            now,
        ));
    }
}

proof fn lemma_upsert_obs_lookup(
    s: Seq<ObservationRowData>,
    o: ObservationIngestData,
    d: Seq<char>,
    now: Timestamp,
    id: UuidVal,
)
    ensures
        obs_row_of(upsert_obs_rows(s, o, d, now), id) == (if id == o.id {
            Some(obs_row_from(o, d, now, created_of_obs(obs_row_of(s, id), now)))
        } else {
            obs_row_of(s, id)
        }),
    decreases s.len(),
{
    let r = upsert_obs_rows(s, o, d, now);
    if s.len() == 0 {
        assert(r =~= seq![obs_row_from(o, d, now, now)]);
        assert(r.first() == obs_row_from(o, d, now, now));
        assert(r.drop_first() =~= Seq::<ObservationRowData>::empty());
        assert(r.first().id == o.id);
        assert(obs_row_of(s, id) is None);
        if id == o.id {
            assert(obs_row_of(r, id) == Some(r.first()));
            assert(r.first() == obs_row_from(o, d, now, created_of_obs(obs_row_of(s, id), now)));
        } else {
            assert(obs_row_of(r, id) == obs_row_of(r.drop_first(), id));
            assert(obs_row_of(r, id) is None);
        }
    } else if s.first().id == o.id {
        assert(r =~= seq![obs_row_from(o, d, now, s.first().created_at)] + s.drop_first());
        assert(r.first() == obs_row_from(o, d, now, s.first().created_at));
        assert(r.drop_first() =~= s.drop_first());
    } else {
        lemma_upsert_obs_lookup(s.drop_first(), o, d, now, id);
        assert(r =~= seq![s.first()] + upsert_obs_rows(s.drop_first(), o, d, now));
        assert(r.first() == s.first());
        assert(r.drop_first() =~= upsert_obs_rows(s.drop_first(), o, d, now));
    }
}

// --- batch-level characterization -------------------------------------------

proof fn lemma_apply_observations_trace_lookup(
    st: StoreData,
    obs: Seq<ObservationIngestData>,
    d: Seq<char>,
    now: Timestamp,
    id: UuidVal,
)
    ensures
        trace_row_of(apply_observations_data(st, obs, d, now).traces, id) == (
        match first_ref(obs, id) {
            Some(o) => match trace_row_of(st.traces, id) {
                Some(r) => Some(r),
                None => Some(
                    stub_trace_row(
                        id,
                        opt_str_or(o.project_id, d),
                        opt_str_or(o.environment, "default"@),
                        now,
                    ),
                ),
            },
            None => trace_row_of(st.traces, id),
        }),
    decreases obs.len(),
{
    if obs.len() > 0 {
        let o = obs.first();
        let st1 = apply_observation_data(st, o, d, now);
        lemma_ensure_trace_lookup(
            st.traces,
            o.trace_id,
            opt_str_or(o.project_id, d),
            opt_str_or(o.environment, "default"@),
            now,
            id,
        );
        lemma_apply_observations_trace_lookup(st1, obs.drop_first(), d, now, id);
    }
}

proof fn lemma_apply_observations_obs_lookup(
    st: StoreData,
    obs: Seq<ObservationIngestData>,
    d: Seq<char>,
    now: Timestamp,
    id: UuidVal,
)
    ensures
        obs_row_of(apply_observations_data(st, obs, d, now).observations, id) == (
        match last_with(obs, id) {
            Some(o) => Some(obs_row_from(o, d, now, created_of_obs(obs_row_of(st.observations, id), now))),
            None => obs_row_of(st.observations, id),
        }),
    decreases obs.len(),
{
    if obs.len() > 0 {
        let o = obs.first();
        let st1 = apply_observation_data(st, o, d, now);
        lemma_upsert_obs_lookup(st.observations, o, d, now, id);
        lemma_apply_observations_obs_lookup(st1, obs.drop_first(), d, now, id);
    }
}

/// How one applied batch shows up under trace lookup: the row under `id`
/// after the batch is a function of the batch and the prior row alone.
pub proof fn lemma_apply_batch_trace_lookup(
    st: StoreData,
    b: BatchIngestData,
    d: Seq<char>,
    now: Timestamp,
    id: UuidVal,
)
    ensures
        trace_row_of(apply_batch_data(st, b, d, now).traces, id) == trace_effect(
            trace_row_of(st.traces, id),
            b,
            d,
            now,
            id,
        ),
{
    match b.trace {
        Some(t) => {
            lemma_upsert_trace_lookup(st.traces, t, d, now, id);
            let st1 = StoreData { traces: upsert_trace_rows(st.traces, t, d, now), ..st };
            lemma_apply_observations_trace_lookup(st1, b.observations, d, now, id);
        },
        None => {
            lemma_apply_observations_trace_lookup(st, b.observations, d, now, id);
        },
    }
}

/// How one applied batch shows up under observation lookup.
pub proof fn lemma_apply_batch_obs_lookup(
    st: StoreData,
    b: BatchIngestData,
    d: Seq<char>,
    now: Timestamp,
    id: UuidVal,
)
    ensures
        obs_row_of(apply_batch_data(st, b, d, now).observations, id) == obs_effect(
            obs_row_of(st.observations, id),
            b,
            d,
            now,
            id,
        ),
{
    match b.trace {
        Some(t) => {
            let st1 = StoreData { traces: upsert_trace_rows(st.traces, t, d, now), ..st };
            lemma_apply_observations_obs_lookup(st1, b.observations, d, now, id);
        },
        None => {
            lemma_apply_observations_obs_lookup(st, b.observations, d, now, id);
        },
    }
}

// --- the laws ---------------------------------------------------------------

/// Law: applying the same batch twice at one write instant leaves exactly the
/// rows of applying it once — under every identifier the same row values,
/// `created_at` included.
pub proof fn lemma_apply_batch_idempotent(
    st: StoreData,
    b: BatchIngestData,
    d: Seq<char>,
    now: Timestamp,
)
    ensures
        forall|id: UuidVal|
            #![trigger trace_row_of(apply_batch_data(apply_batch_data(st, b, d, now), b, d, now).traces, id)]
            trace_row_of(
                apply_batch_data(apply_batch_data(st, b, d, now), b, d, now).traces,
                id,
            ) == trace_row_of(apply_batch_data(st, b, d, now).traces, id),
        forall|id: UuidVal|
            #![trigger obs_row_of(apply_batch_data(apply_batch_data(st, b, d, now), b, d, now).observations, id)]
            obs_row_of(
                apply_batch_data(apply_batch_data(st, b, d, now), b, d, now).observations,
                id,
            ) == obs_row_of(apply_batch_data(st, b, d, now).observations, id),
{
    let once = apply_batch_data(st, b, d, now);
    let twice = apply_batch_data(once, b, d, now);
    assert forall|id: UuidVal|
        trace_row_of(twice.traces, id) == trace_row_of(once.traces, id) by {
        lemma_apply_batch_trace_lookup(st, b, d, now, id);
        lemma_apply_batch_trace_lookup(once, b, d, now, id);
    }
    assert forall|id: UuidVal|
        obs_row_of(twice.observations, id) == obs_row_of(once.observations, id) by {
        lemma_apply_batch_obs_lookup(st, b, d, now, id);
        lemma_apply_batch_obs_lookup(once, b, d, now, id);
    }
}


/// Two trace rows equal on every column but `updated_at`.
pub open spec fn trace_row_equal_except_updated(a: TraceRowData, b: TraceRowData) -> bool {
    a == (TraceRowData { updated_at: a.updated_at, ..b })
}

/// Two observation rows equal on every column but `updated_at`.
pub open spec fn obs_row_equal_except_updated(a: ObservationRowData, b: ObservationRowData) -> bool {
    a == (ObservationRowData { updated_at: a.updated_at, ..b })
}

/// Law, idempotence across write instants: re-applying a batch at a later
/// instant leaves the same rows — no row appears or disappears, every column
/// including `created_at` is unchanged, and `updated_at` never decreases.
/// The one input left out is a trace record without a client timestamp: there
/// the write stamps the timestamp column with the server clock anew, so the
/// law asks the batch's trace record, if any, to carry its timestamp.
pub proof fn lemma_apply_batch_idempotent_across_instants(
    st: StoreData,
    b: BatchIngestData,
    d: Seq<char>,
    t1: Timestamp,
    t2: Timestamp,
)
    requires
        match b.trace {
            Some(t) => t.timestamp is Some,
            None => true,
        },
        ts_le(t1, t2),
    ensures
        ({
            let once = apply_batch_data(st, b, d, t1);
            let twice = apply_batch_data(once, b, d, t2);
            forall|id: UuidVal|
                {
                    let r1 = #[trigger] trace_row_of(once.traces, id);
                    let r2 = trace_row_of(twice.traces, id);
                    &&& (r1 is Some <==> r2 is Some)
                    &&& (r1 is Some ==> trace_row_equal_except_updated(r2.unwrap(), r1.unwrap())
                        && ts_le(r1.unwrap().updated_at, r2.unwrap().updated_at))
                }
        }),
        ({
            let once = apply_batch_data(st, b, d, t1);
            let twice = apply_batch_data(once, b, d, t2);
            forall|id: UuidVal|
                {
                    let r1 = #[trigger] obs_row_of(once.observations, id);
                    let r2 = obs_row_of(twice.observations, id);
                    &&& (r1 is Some <==> r2 is Some)
                    &&& (r1 is Some ==> obs_row_equal_except_updated(r2.unwrap(), r1.unwrap())
                        && ts_le(r1.unwrap().updated_at, r2.unwrap().updated_at))
                }
        }),
{
    let once = apply_batch_data(st, b, d, t1);
    let twice = apply_batch_data(once, b, d, t2);
    assert forall|id: UuidVal|
        {
            let r1 = #[trigger] trace_row_of(once.traces, id);
            let r2 = trace_row_of(twice.traces, id);
            &&& (r1 is Some <==> r2 is Some)
            &&& (r1 is Some ==> trace_row_equal_except_updated(r2.unwrap(), r1.unwrap())
                && ts_le(r1.unwrap().updated_at, r2.unwrap().updated_at))
        } by {
        lemma_apply_batch_trace_lookup(st, b, d, t1, id);
        lemma_apply_batch_trace_lookup(once, b, d, t2, id);
        let prior = trace_row_of(st.traces, id);
        let r1 = trace_row_of(once.traces, id);
        let r2 = trace_row_of(twice.traces, id);
        match b.trace {
            Some(t) => {
                if t.id == id {
                    assert(r1 == Some(trace_row_from(t, d, t1, created_of_trace(prior, t1))));
                    assert(r2 == Some(trace_row_from(t, d, t2, created_of_trace(r1, t2))));
                    assert(trace_row_equal_except_updated(r2.unwrap(), r1.unwrap())) by {
                        assert(r2.unwrap() =~= (TraceRowData {
                            updated_at: r2.unwrap().updated_at,
                            ..r1.unwrap()
                        }));
                    }
                }
            },
            None => {},
        }
        if r1 is Some && r2 is Some && r2 == r1 {
            assert(trace_row_equal_except_updated(r2.unwrap(), r1.unwrap())) by {
                assert(r2.unwrap() =~= (TraceRowData {
                    updated_at: r2.unwrap().updated_at,
                    ..r1.unwrap()
                }));
            }
        }
    }
    assert forall|id: UuidVal|
        {
            let r1 = #[trigger] obs_row_of(once.observations, id);
            let r2 = obs_row_of(twice.observations, id);
            &&& (r1 is Some <==> r2 is Some)
            &&& (r1 is Some ==> obs_row_equal_except_updated(r2.unwrap(), r1.unwrap())
                && ts_le(r1.unwrap().updated_at, r2.unwrap().updated_at))
        } by {
        lemma_apply_batch_obs_lookup(st, b, d, t1, id);
        lemma_apply_batch_obs_lookup(once, b, d, t2, id);
        let prior = obs_row_of(st.observations, id);
        let r1 = obs_row_of(once.observations, id);
        let r2 = obs_row_of(twice.observations, id);
        match last_with(b.observations, id) {
            Some(o) => {
                assert(r1 == Some(obs_row_from(o, d, t1, created_of_obs(prior, t1))));
                assert(r2 == Some(obs_row_from(o, d, t2, created_of_obs(r1, t2))));
                assert(obs_row_equal_except_updated(r2.unwrap(), r1.unwrap())) by {
                    assert(r2.unwrap() =~= (ObservationRowData {
                        updated_at: r2.unwrap().updated_at,
                        ..r1.unwrap()
                    }));
                }
            },
            None => {
                if r1 is Some {
                    assert(r2 == r1);
                    assert(obs_row_equal_except_updated(r2.unwrap(), r1.unwrap())) by {
                        assert(r2.unwrap() =~= (ObservationRowData {
                            updated_at: r2.unwrap().updated_at,
                            ..r1.unwrap()
                        }));
                    }
                }
            },
        }
    }
}

/// Law: within one window, batches whose trace and observation identifiers
/// are pairwise disjoint may be applied in either order — every lookup agrees.
pub proof fn lemma_apply_batches_disjoint_commute(
    st: StoreData,
    b1: BatchIngestData,
    b2: BatchIngestData,
    d: Seq<char>,
    now: Timestamp,
)
    requires
        forall|id: UuidVal|
            !(#[trigger] batch_touches_trace(b1, id) && #[trigger] batch_touches_trace(b2, id)),
        forall|id: UuidVal|
            !(#[trigger] batch_touches_obs(b1, id) && #[trigger] batch_touches_obs(b2, id)),
    ensures
        forall|id: UuidVal|
            #![trigger trace_row_of(apply_batch_data(apply_batch_data(st, b1, d, now), b2, d, now).traces, id)]
            trace_row_of(
                apply_batch_data(apply_batch_data(st, b1, d, now), b2, d, now).traces,
                id,
            ) == trace_row_of(
                apply_batch_data(apply_batch_data(st, b2, d, now), b1, d, now).traces,
                id,
            ),
        forall|id: UuidVal|
            #![trigger obs_row_of(apply_batch_data(apply_batch_data(st, b1, d, now), b2, d, now).observations, id)]
            obs_row_of(
                apply_batch_data(apply_batch_data(st, b1, d, now), b2, d, now).observations,
                id,
            ) == obs_row_of(
                apply_batch_data(apply_batch_data(st, b2, d, now), b1, d, now).observations,
                id,
            ),
{
    let s12 = apply_batch_data(apply_batch_data(st, b1, d, now), b2, d, now);
    let s21 = apply_batch_data(apply_batch_data(st, b2, d, now), b1, d, now);
    assert forall|id: UuidVal| trace_row_of(s12.traces, id) == trace_row_of(s21.traces, id) by {
        lemma_apply_batch_trace_lookup(st, b1, d, now, id);
        lemma_apply_batch_trace_lookup(apply_batch_data(st, b1, d, now), b2, d, now, id);
        lemma_apply_batch_trace_lookup(st, b2, d, now, id);
        lemma_apply_batch_trace_lookup(apply_batch_data(st, b2, d, now), b1, d, now, id);
        assert(!(batch_touches_trace(b1, id) && batch_touches_trace(b2, id)));
        if !batch_touches_trace(b1, id) {
            assert(trace_effect(trace_row_of(st.traces, id), b1, d, now, id) == trace_row_of(
                st.traces,
                id,
            ));
        }
        if !batch_touches_trace(b2, id) {
            assert(trace_effect(trace_row_of(st.traces, id), b2, d, now, id) == trace_row_of(
                st.traces,
                id,
            ));
        }
    }
    assert forall|id: UuidVal|
        obs_row_of(s12.observations, id) == obs_row_of(s21.observations, id) by {
        lemma_apply_batch_obs_lookup(st, b1, d, now, id);
        lemma_apply_batch_obs_lookup(apply_batch_data(st, b1, d, now), b2, d, now, id);
        lemma_apply_batch_obs_lookup(st, b2, d, now, id);
        lemma_apply_batch_obs_lookup(apply_batch_data(st, b2, d, now), b1, d, now, id);
        assert(!(batch_touches_obs(b1, id) && batch_touches_obs(b2, id)));
        if !batch_touches_obs(b1, id) {
            assert(last_with(b1.observations, id) is None);
        }
        if !batch_touches_obs(b2, id) {
            assert(last_with(b2.observations, id) is None);
        }
    }
}

/// Law: the last batch of a window that carries a trace record for `id` wins
/// on every mutable column — the resulting row is the one its record writes,
/// `created_at` excepted.
pub proof fn lemma_last_writer_wins_trace(
    st: StoreData,
    b: BatchIngestData,
    t: TraceIngestData,
    d: Seq<char>,
    now: Timestamp,
)
    requires
        b.trace == Some(t),
    ensures
        ({
            let r = trace_row_of(apply_batch_data(st, b, d, now).traces, t.id);
            r is Some && r.unwrap() == trace_row_from(t, d, now, r.unwrap().created_at)
        }),
{
    lemma_apply_batch_trace_lookup(st, b, d, now, t.id);
}

/// Law: the last observation of a window that carries `id` wins on every
/// mutable column, whatever was written before it.
pub proof fn lemma_last_writer_wins_obs(
    st: StoreData,
    b: BatchIngestData,
    d: Seq<char>,
    now: Timestamp,
    k: int,
)
    requires
        0 <= k < b.observations.len(),
        forall|j: int|
            k < j < b.observations.len() ==> (#[trigger] b.observations[j].id)
                != b.observations[k].id,
    ensures
        ({
            let r = obs_row_of(
                apply_batch_data(st, b, d, now).observations,
                b.observations[k].id,
            );
            r is Some && r.unwrap() == obs_row_from(b.observations[k], d, now, r.unwrap().created_at)
        }),
{
    lemma_last_with_at(b.observations, k);
    lemma_apply_batch_obs_lookup(st, b, d, now, b.observations[k].id);
}

/// The last occurrence of an identifier is what `last_with` finds.
proof fn lemma_last_with_at(obs: Seq<ObservationIngestData>, k: int)
    requires
        0 <= k < obs.len(),
        forall|j: int| k < j < obs.len() ==> (#[trigger] obs[j].id) != obs[k].id,
    ensures
        last_with(obs, obs[k].id) == Some(obs[k]),
    decreases obs.len(),
{
    if k == 0 {
        lemma_last_with_none(obs.drop_first(), obs[0].id);
    } else {
        lemma_last_with_at(obs.drop_first(), k - 1);
    }
}

/// No occurrence, no find.
proof fn lemma_last_with_none(obs: Seq<ObservationIngestData>, id: UuidVal)
    requires
        forall|j: int| 0 <= j < obs.len() ==> (#[trigger] obs[j].id) != id,
    ensures
        last_with(obs, id) is None,
    decreases obs.len(),
{
    if obs.len() > 0 {
        lemma_last_with_none(obs.drop_first(), id);
    }
}

// --- referential integrity ---------------------------------------------------

/// Every observation row's trace reference resolves.
pub open spec fn ref_integrity(st: StoreData) -> bool {
    forall|k: int|
        0 <= k < st.observations.len() ==> trace_row_of(
            st.traces,
            (#[trigger] st.observations[k]).trace_id,
        ) is Some
}

proof fn lemma_ensure_trace_monotone(
    s: Seq<TraceRowData>,
    id0: UuidVal,
    project_id: Seq<char>,
    environment: Seq<char>,
    now: Timestamp,
    id: UuidVal,
)
    requires
        trace_row_of(s, id) is Some || id == id0,
    ensures
        trace_row_of(ensure_trace_rows(s, id0, project_id, environment, now), id) is Some,
{
    lemma_ensure_trace_lookup(s, id0, project_id, environment, now, id);
}

proof fn lemma_upsert_trace_monotone(
    s: Seq<TraceRowData>,
    t: TraceIngestData,
    d: Seq<char>,
    now: Timestamp,
    id: UuidVal,
)
    requires
        trace_row_of(s, id) is Some,
    ensures
        trace_row_of(upsert_trace_rows(s, t, d, now), id) is Some,
{
    lemma_upsert_trace_lookup(s, t, d, now, id);
}

/// Every row an observation upsert leaves either carries the upserted
/// record's trace reference or was already present.
proof fn lemma_upsert_obs_rows_refs(
    s: Seq<ObservationRowData>,
    o: ObservationIngestData,
    d: Seq<char>,
    now: Timestamp,
)
    ensures
        ({
            let r = upsert_obs_rows(s, o, d, now);
            forall|k: int|
                0 <= k < r.len() ==> (#[trigger] r[k]).trace_id == o.trace_id || exists|j: int|
                    0 <= j < s.len() && s[j] == r[k]
        }),
    decreases s.len(),
{
    let r = upsert_obs_rows(s, o, d, now);
    if s.len() == 0 {
        assert(r =~= seq![obs_row_from(o, d, now, now)]);
    } else if s.first().id == o.id {
        assert(r =~= seq![obs_row_from(o, d, now, s.first().created_at)] + s.drop_first());
        assert forall|k: int|
            0 <= k < r.len() implies (#[trigger] r[k]).trace_id == o.trace_id || exists|j: int|
            0 <= j < s.len() && s[j] == r[k] by {
            if k > 0 {
                assert(s[k] == r[k]);
            }
        }
    } else {
        lemma_upsert_obs_rows_refs(s.drop_first(), o, d, now);
        let rest = upsert_obs_rows(s.drop_first(), o, d, now);
        assert(r =~= seq![s.first()] + rest);
        assert forall|k: int|
            0 <= k < r.len() implies (#[trigger] r[k]).trace_id == o.trace_id || exists|j: int|
            0 <= j < s.len() && s[j] == r[k] by {
            if k == 0 {
                assert(s[0] == r[0]);
            } else {
                assert(r[k] == rest[k - 1]);
                if rest[k - 1].trace_id != o.trace_id {
                    let w = choose|w: int|
                        0 <= w < s.drop_first().len() && s.drop_first()[w] == rest[k - 1];
                    assert(s[w + 1] == r[k]);
                }
            }
        }
    }
}

proof fn lemma_apply_observation_integrity(
    st: StoreData,
    o: ObservationIngestData,
    d: Seq<char>,
    now: Timestamp,
)
    requires
        ref_integrity(st),
    ensures
        ref_integrity(apply_observation_data(st, o, d, now)),
{
    let st1 = apply_observation_data(st, o, d, now);
    lemma_upsert_obs_rows_refs(st.observations, o, d, now);
    assert forall|k: int|
        0 <= k < st1.observations.len() implies trace_row_of(
        st1.traces,
        (#[trigger] st1.observations[k]).trace_id,
    ) is Some by {
        let tid = st1.observations[k].trace_id;
        if tid == o.trace_id {
            lemma_ensure_trace_monotone(
                st.traces,
                o.trace_id,
                opt_str_or(o.project_id, d),
                opt_str_or(o.environment, "default"@),
                now,
                tid,
            );
        } else {
            let j = choose|j: int|
                0 <= j < st.observations.len() && st.observations[j] == st1.observations[k];
            assert(trace_row_of(st.traces, st.observations[j].trace_id) is Some);
            lemma_ensure_trace_monotone(
                st.traces,
                o.trace_id,
                opt_str_or(o.project_id, d),
                opt_str_or(o.environment, "default"@),
                now,
                tid,
            );
        }
    }
}

proof fn lemma_apply_observations_integrity(
    st: StoreData,
    obs: Seq<ObservationIngestData>,
    d: Seq<char>,
    now: Timestamp,
)
    requires
        ref_integrity(st),
    ensures
        ref_integrity(apply_observations_data(st, obs, d, now)),
    decreases obs.len(),
{
    if obs.len() > 0 {
        lemma_apply_observation_integrity(st, obs.first(), d, now);
        lemma_apply_observations_integrity(
            apply_observation_data(st, obs.first(), d, now),
            obs.drop_first(),
            d,
            now,
        );
    }
}

/// Law: every observation's trace reference resolves after its batch is
/// applied — the write path materializes a stub when the trace was never
/// sent, and an existing reference never goes away.
pub proof fn lemma_batch_referential_integrity(
    st: StoreData,
    b: BatchIngestData,
    d: Seq<char>,
    now: Timestamp,
)
    requires
        ref_integrity(st),
    ensures
        ref_integrity(apply_batch_data(st, b, d, now)),
{
    match b.trace {
        Some(t) => {
            let st1 = StoreData { traces: upsert_trace_rows(st.traces, t, d, now), ..st };
            assert forall|k: int|
                0 <= k < st1.observations.len() implies trace_row_of(
                st1.traces,
                (#[trigger] st1.observations[k]).trace_id,
            ) is Some by {
                lemma_upsert_trace_monotone(st.traces, t, d, now, st1.observations[k].trace_id);
            }
            lemma_apply_observations_integrity(st1, b.observations, d, now);
        },
        None => {
            lemma_apply_observations_integrity(st, b.observations, d, now);
        },
    }
}

// --- last writer wins across a window ---------------------------------------

/// A window of batches none of which touches trace `id` leaves its row
/// lookup unchanged.
proof fn lemma_window_frame_trace(
    st: StoreData,
    bs: Seq<BatchIngestData>,
    d: Seq<char>,
    now: Timestamp,
    id: UuidVal,
)
    requires
        forall|j: int| 0 <= j < bs.len() ==> !batch_touches_trace(#[trigger] bs[j], id),
    ensures
        trace_row_of(apply_batches_data(st, bs, d, now).traces, id) == trace_row_of(
            st.traces,
            id,
        ),
    decreases bs.len(),
{
    if bs.len() > 0 {
        lemma_apply_batch_trace_lookup(st, bs.first(), d, now, id);
        assert(!batch_touches_trace(bs[0], id));
        lemma_window_frame_trace(apply_batch_data(st, bs.first(), d, now), bs.drop_first(), d, now, id);
    }
}

/// A window of batches none of which touches observation `id` leaves its row
/// lookup unchanged.
proof fn lemma_window_frame_obs(
    st: StoreData,
    bs: Seq<BatchIngestData>,
    d: Seq<char>,
    now: Timestamp,
    id: UuidVal,
)
    requires
        forall|j: int| 0 <= j < bs.len() ==> !batch_touches_obs(#[trigger] bs[j], id),
    ensures
        obs_row_of(apply_batches_data(st, bs, d, now).observations, id) == obs_row_of(
            st.observations,
            id,
        ),
    decreases bs.len(),
{
    if bs.len() > 0 {
        lemma_apply_batch_obs_lookup(st, bs.first(), d, now, id);
        assert(!batch_touches_obs(bs[0], id));
        lemma_window_frame_obs(apply_batch_data(st, bs.first(), d, now), bs.drop_first(), d, now, id);
    }
}

/// Law, last writer wins across a window: when the batch at position `k`
/// carries a trace record and no later batch of the window touches that
/// trace, the committed row is the one that record writes on every mutable
/// column — `created_at` excepted.
pub proof fn lemma_window_last_writer_wins_trace(
    st: StoreData,
    bs: Seq<BatchIngestData>,
    t: TraceIngestData,
    d: Seq<char>,
    now: Timestamp,
    k: int,
)
    requires
        0 <= k < bs.len(),
        bs[k].trace == Some(t),
        forall|j: int| k < j < bs.len() ==> !batch_touches_trace(#[trigger] bs[j], t.id),
    ensures
        ({
            let r = trace_row_of(apply_batches_data(st, bs, d, now).traces, t.id);
            r is Some && r.unwrap() == trace_row_from(t, d, now, r.unwrap().created_at)
        }),
    decreases k,
{
    if k == 0 {
        lemma_apply_batch_trace_lookup(st, bs.first(), d, now, t.id);
        assert forall|j: int|
            0 <= j < bs.drop_first().len() implies !batch_touches_trace(
            #[trigger] bs.drop_first()[j],
            t.id,
        ) by {
            assert(bs.drop_first()[j] == bs[j + 1]);
        }
        lemma_window_frame_trace(
            apply_batch_data(st, bs.first(), d, now),
            bs.drop_first(),
            d,
            now,
            t.id,
        );
    } else {
        assert forall|j: int|
            k - 1 < j < bs.drop_first().len() implies !batch_touches_trace(
            #[trigger] bs.drop_first()[j],
            t.id,
        ) by {
            assert(bs.drop_first()[j] == bs[j + 1]);
        }
        assert(bs.drop_first()[k - 1] == bs[k]);
        lemma_window_last_writer_wins_trace(
            apply_batch_data(st, bs.first(), d, now),
            bs.drop_first(),
            t,
            d,
            now,
            k - 1,
        );
    }
}

/// Law, last writer wins across a window, observations: when the batch at
/// position `k` is the last of the window naming observation `id`, and `o`
/// is the last record for it inside that batch, the committed row is the one
/// `o` writes — `created_at` excepted.
pub proof fn lemma_window_last_writer_wins_obs(
    st: StoreData,
    bs: Seq<BatchIngestData>,
    o: ObservationIngestData,
    d: Seq<char>,
    now: Timestamp,
    k: int,
)
    requires
        0 <= k < bs.len(),
        last_with(bs[k].observations, o.id) == Some(o),
        forall|j: int| k < j < bs.len() ==> !batch_touches_obs(#[trigger] bs[j], o.id),
    ensures
        ({
            let r = obs_row_of(apply_batches_data(st, bs, d, now).observations, o.id);
            r is Some && r.unwrap() == obs_row_from(o, d, now, r.unwrap().created_at)
        }),
    decreases k,
{
    if k == 0 {
        lemma_apply_batch_obs_lookup(st, bs.first(), d, now, o.id);
        assert forall|j: int|
            0 <= j < bs.drop_first().len() implies !batch_touches_obs(
            #[trigger] bs.drop_first()[j],
            o.id,
        ) by {
            assert(bs.drop_first()[j] == bs[j + 1]);
        }
        lemma_window_frame_obs(
            apply_batch_data(st, bs.first(), d, now),
            bs.drop_first(),
            d,
            now,
            o.id,
        );
    } else {
        assert forall|j: int|
            k - 1 < j < bs.drop_first().len() implies !batch_touches_obs(
            #[trigger] bs.drop_first()[j],
            o.id,
        ) by {
            assert(bs.drop_first()[j] == bs[j + 1]);
        }
        assert(bs.drop_first()[k - 1] == bs[k]);
        lemma_window_last_writer_wins_obs(
            apply_batch_data(st, bs.first(), d, now),
            bs.drop_first(),
            o,
            d,
            now,
            k - 1,
        );
    }
}

// --- order independence across a whole window --------------------------------

/// Two batches touch no trace row and no observation row in common.
pub open spec fn batches_disjoint(b1: BatchIngestData, b2: BatchIngestData) -> bool {
    &&& forall|id: UuidVal|
        !(#[trigger] batch_touches_trace(b1, id) && #[trigger] batch_touches_trace(b2, id))
    &&& forall|id: UuidVal|
        !(#[trigger] batch_touches_obs(b1, id) && #[trigger] batch_touches_obs(b2, id))
}

/// The window's batches are pairwise disjoint.
pub open spec fn window_disjoint(bs: Seq<BatchIngestData>) -> bool {
    forall|i: int, j: int|
        0 <= i < bs.len() && 0 <= j < bs.len() && i != j ==> batches_disjoint(
            #[trigger] bs[i],
            #[trigger] bs[j],
        )
}

/// Two states agree under every row lookup.
pub open spec fn same_lookups(a: StoreData, b: StoreData) -> bool {
    &&& forall|id: UuidVal|
        #[trigger] trace_row_of(a.traces, id) == trace_row_of(b.traces, id)
    &&& forall|id: UuidVal|
        #[trigger] obs_row_of(a.observations, id) == obs_row_of(b.observations, id)
}

/// A batch applied to lookup-equal states keeps them lookup-equal: its
/// effect on a row depends on that row's prior lookup alone.
proof fn lemma_apply_batch_congruence(
    a: StoreData,
    b: StoreData,
    x: BatchIngestData,
    d: Seq<char>,
    now: Timestamp,
)
    requires
        same_lookups(a, b),
    ensures
        same_lookups(apply_batch_data(a, x, d, now), apply_batch_data(b, x, d, now)),
{
    assert forall|id: UuidVal|
        #[trigger] trace_row_of(apply_batch_data(a, x, d, now).traces, id) == trace_row_of(
        apply_batch_data(b, x, d, now).traces,
        id,
    ) by {
        lemma_apply_batch_trace_lookup(a, x, d, now, id);
        lemma_apply_batch_trace_lookup(b, x, d, now, id);
    }
    assert forall|id: UuidVal|
        #[trigger] obs_row_of(apply_batch_data(a, x, d, now).observations, id) == obs_row_of(
        apply_batch_data(b, x, d, now).observations,
        id,
    ) by {
        lemma_apply_batch_obs_lookup(a, x, d, now, id);
        lemma_apply_batch_obs_lookup(b, x, d, now, id);
    }
}

proof fn lemma_apply_batches_congruence(
    a: StoreData,
    b: StoreData,
    bs: Seq<BatchIngestData>,
    d: Seq<char>,
    now: Timestamp,
)
    requires
        same_lookups(a, b),
    ensures
        same_lookups(apply_batches_data(a, bs, d, now), apply_batches_data(b, bs, d, now)),
    decreases bs.len(),
{
    if bs.len() > 0 {
        lemma_apply_batch_congruence(a, b, bs.first(), d, now);
        lemma_apply_batches_congruence(
            apply_batch_data(a, bs.first(), d, now),
            apply_batch_data(b, bs.first(), d, now),
            bs.drop_first(),
            d,
            now,
        );
    }
}

/// Two disjoint batches commute, as states under lookup.
proof fn lemma_two_batches_commute(
    st: StoreData,
    b1: BatchIngestData,
    b2: BatchIngestData,
    d: Seq<char>,
    now: Timestamp,
)
    requires
        batches_disjoint(b1, b2),
    ensures
        same_lookups(
            apply_batch_data(apply_batch_data(st, b1, d, now), b2, d, now),
            apply_batch_data(apply_batch_data(st, b2, d, now), b1, d, now),
        ),
{
    lemma_apply_batches_disjoint_commute(st, b1, b2, d, now);
}

/// The batch at position `w`, disjoint from every other, may be applied
/// first.
proof fn lemma_bubble_front(
    st: StoreData,
    bs: Seq<BatchIngestData>,
    d: Seq<char>,
    now: Timestamp,
    w: int,
)
    requires
        0 <= w < bs.len(),
        forall|j: int| 0 <= j < bs.len() && j != w ==> batches_disjoint(#[trigger] bs[w], bs[j]),
    ensures
        same_lookups(
            apply_batches_data(st, bs, d, now),
            apply_batches_data(apply_batch_data(st, bs[w], d, now), bs.remove(w), d, now),
        ),
    decreases w,
{
    if w == 0 {
        assert(bs.remove(0) =~= bs.drop_first());
    } else {
        let b0 = bs.first();
        let rest = bs.drop_first();
        assert(rest[w - 1] == bs[w]);
        assert forall|j: int|
            0 <= j < rest.len() && j != w - 1 implies batches_disjoint(
            rest[w - 1],
            #[trigger] rest[j],
        ) by {
            assert(rest[j] == bs[j + 1]);
        }
        lemma_bubble_front(apply_batch_data(st, b0, d, now), rest, d, now, w - 1);
        assert(batches_disjoint(bs[w], b0));
        assert(batches_disjoint(b0, bs[w])) by {
            assert(forall|id: UuidVal|
                !(#[trigger] batch_touches_trace(b0, id) && #[trigger] batch_touches_trace(
                    bs[w],
                    id,
                )));
            assert(forall|id: UuidVal|
                !(#[trigger] batch_touches_obs(b0, id) && #[trigger] batch_touches_obs(
                    bs[w],
                    id,
                )));
        }
        lemma_two_batches_commute(st, b0, bs[w], d, now);
        lemma_apply_batches_congruence(
            apply_batch_data(apply_batch_data(st, b0, d, now), bs[w], d, now),
            apply_batch_data(apply_batch_data(st, bs[w], d, now), b0, d, now),
            rest.remove(w - 1),
            d,
            now,
        );
        assert(bs.remove(w).first() == b0);
        assert(bs.remove(w).drop_first() =~= rest.remove(w - 1));
    }
}

/// In a sequence holding `x` at least twice, two distinct positions hold it.
proof fn lemma_two_positions(s: Seq<BatchIngestData>, x: BatchIngestData)
    requires
        s.to_multiset().count(x) >= 2,
    ensures
        exists|i: int, j: int| 0 <= i < s.len() && 0 <= j < s.len() && i != j && (#[trigger] s[i]) == x && (#[trigger] s[j]) == x,
{
    broadcast use vstd::seq_lib::group_to_multiset_ensures;

    assert(s.contains(x));
    let i = choose|i: int| 0 <= i < s.len() && s[i] == x;
    assert(s.remove(i).to_multiset() =~= s.to_multiset().remove(x));
    assert(s.remove(i).to_multiset().count(x) >= 1);
    assert(s.remove(i).contains(x));
    let j0 = choose|j0: int| 0 <= j0 < s.remove(i).len() && s.remove(i)[j0] == x;
    let j = if j0 < i {
        j0
    } else {
        j0 + 1
    };
    assert(s.remove(i) =~= s.take(i) + s.skip(i + 1));
    assert(s[j] == x);
}

/// Law, order independence for a whole window: two windows that hold the
/// same batches — one a permutation of the other — with pairwise-disjoint
/// trace and observation identifiers commit to the same state under every
/// row lookup.
pub proof fn lemma_window_order_independent(
    st: StoreData,
    bs1: Seq<BatchIngestData>,
    bs2: Seq<BatchIngestData>,
    d: Seq<char>,
    now: Timestamp,
)
    requires
        window_disjoint(bs1),
        bs1.to_multiset() == bs2.to_multiset(),
    ensures
        same_lookups(apply_batches_data(st, bs1, d, now), apply_batches_data(st, bs2, d, now)),
    decreases bs1.len(),
{
    broadcast use vstd::seq_lib::group_to_multiset_ensures;

    if bs1.len() == 0 {
        assert(bs1.to_multiset().len() == bs1.len());
        assert(bs2.to_multiset().len() == bs2.len());
        assert(bs2.len() == 0);
    } else {
        let b = bs1.first();
        assert(bs1.contains(b));
        assert(bs1.to_multiset().count(b) >= 1);
        assert(bs2.to_multiset().count(b) >= 1);
        assert(bs2.contains(b));
        let w = choose|w: int| 0 <= w < bs2.len() && bs2[w] == b;
        // every pair at distinct positions of the permuted window is disjoint
        assert forall|j: int|
            0 <= j < bs2.len() && j != w implies batches_disjoint(bs2[w], #[trigger] bs2[j]) by {
            let x = bs2[j];
            if x == b {
                // two distinct positions of the window carry b, so it counts twice
                assert(bs2.remove(w).to_multiset() =~= bs2.to_multiset().remove(b));
                let j2 = if j < w {
                    j
                } else {
                    j - 1
                };
                assert(bs2.remove(w) =~= bs2.take(w) + bs2.skip(w + 1));
                assert(bs2.remove(w)[j2] == b);
                assert(bs2.remove(w).contains(b));
                assert(bs2.remove(w).to_multiset().count(b) >= 1);
                assert(bs2.to_multiset().count(b) >= 2);
                lemma_two_positions(bs1, b);
                let (i1, j1) = choose|i1: int, j1: int|
                    0 <= i1 < bs1.len() && 0 <= j1 < bs1.len() && i1 != j1 && (#[trigger] bs1[i1])
                        == b && (#[trigger] bs1[j1]) == b;
                assert(batches_disjoint(bs1[i1], bs1[j1]));
            } else {
                assert(bs2.to_multiset().count(x) >= 1);
                assert(bs1.contains(x));
                let i1 = choose|i1: int| 0 <= i1 < bs1.len() && bs1[i1] == x;
                assert(i1 != 0);
                assert(batches_disjoint(bs1[0], bs1[i1]));
            }
        }
        lemma_bubble_front(st, bs2, d, now, w);
        let st1 = apply_batch_data(st, b, d, now);
        let rest1 = bs1.drop_first();
        let rest2 = bs2.remove(w);
        assert(window_disjoint(rest1)) by {
            assert(forall|i: int, j: int|
                0 <= i < rest1.len() && 0 <= j < rest1.len() && i != j ==> batches_disjoint(
                    #[trigger] rest1[i],
                    #[trigger] rest1[j],
                ));
        }
        assert(rest1.to_multiset() =~= rest2.to_multiset()) by {
            vstd::seq_lib::to_multiset_insert(rest1, 0, b);
            assert(rest1.insert(0, b) =~= bs1);
            assert(rest2.to_multiset() =~= bs2.to_multiset().remove(b));
            assert(bs1.to_multiset() =~= rest1.to_multiset().insert(b));
        }
        lemma_window_order_independent(st1, rest1, rest2, d, now);
    }
}

} // verus!
