//! What holds of the comparison cycle over whole sequences of observations.
//!
//! `Cache::check_entry` is specified one step at a time by `observe_outcome`
//! and `observe_next`; `run` chains those steps over a sequence of entries.
use vstd::prelude::*;

use crate::cache::{
    attrs_differ, end_next, entry_id, expected_ids, observe_next, observe_outcome, start_next,
    CacheView, Classification,
};
use crate::config::AttributeConfig;
use crate::entry::{bytes_first, EntryView};
use crate::error::Error;

verus! {

/// The state after observing the entries `es` in order, starting in `c`.
pub open spec fn run(c: CacheView, es: Seq<EntryView>, cfg: AttributeConfig) -> CacheView
    decreases es.len(),
{
    if es.len() == 0 {
        c
    } else {
        observe_next(run(c, es.drop_last(), cfg), es.last(), cfg)
    }
}

/// The result of observing `es[k]` after the entries before it.
pub open spec fn outcome_at(c: CacheView, es: Seq<EntryView>, k: int, cfg: AttributeConfig) -> Result<
    Classification,
    Error,
> {
    observe_outcome(run(c, es.take(k), cfg), es[k], cfg)
}

/// The ids carried by the entries `es`.
pub open spec fn observed_ids(es: Seq<EntryView>, cfg: AttributeConfig) -> Set<Seq<u8>> {
    Set::new(|id: Seq<u8>| exists|k: int| 0 <= k < es.len() && entry_id(es[k], cfg) == Some(id))
}

/// The state a cache resumes in from its persisted parts: the time of the
/// last sync and the snapshots, with no comparison running.
pub open spec fn resumed(c: CacheView) -> CacheView {
    CacheView { last_sync_time: c.last_sync_time, entries: c.entries, missing: Set::empty() }
}

proof fn lemma_run_prefix(c: CacheView, es: Seq<EntryView>, k: int, cfg: AttributeConfig)
    requires
        0 <= k < es.len(),
    ensures
        run(c, es.take(k + 1), cfg) == observe_next(run(c, es.take(k), cfg), es[k], cfg),
{
    assert(es.take(k + 1).drop_last() =~= es.take(k));
}

proof fn lemma_known_stays_known(c: CacheView, es: Seq<EntryView>, cfg: AttributeConfig, id: Seq<u8>)
    requires
        c.entries is Some,
        c.entries->0.contains_key(id),
    ensures
        run(c, es, cfg).entries is Some,
        run(c, es, cfg).entries->0.contains_key(id),
    decreases es.len(),
{
    if es.len() > 0 {
        lemma_known_stays_known(c, es.drop_last(), cfg, id);
    }
}

proof fn lemma_observed_known(c: CacheView, es: Seq<EntryView>, cfg: AttributeConfig)
    requires
        c.entries is Some,
    ensures
        run(c, es, cfg).entries is Some,
        forall|id: Seq<u8>| #[trigger]
            observed_ids(es, cfg).contains(id) ==> run(c, es, cfg).entries->0.contains_key(id),
    decreases es.len(),
{
    if es.len() > 0 {
        let rest = es.drop_last();
        lemma_observed_known(c, rest, cfg);
        assert forall|id: Seq<u8>| #[trigger]
            observed_ids(es, cfg).contains(id) implies run(c, es, cfg).entries->0.contains_key(
            id,
        ) by {
            let k = choose|k: int| 0 <= k < es.len() && entry_id(es[k], cfg) == Some(id);
            if k < es.len() - 1 {
                assert(rest[k] == es[k]);
                assert(observed_ids(rest, cfg).contains(id));
            }
        }
    }
}

proof fn lemma_observed_ids_last(es: Seq<EntryView>, cfg: AttributeConfig)
    requires
        es.len() > 0,
    ensures
        forall|id: Seq<u8>| #[trigger]
            observed_ids(es, cfg).contains(id) == (observed_ids(es.drop_last(), cfg).contains(id)
                || entry_id(es.last(), cfg) == Some(id)),
{
    let rest = es.drop_last();
    assert forall|id: Seq<u8>| #[trigger]
        observed_ids(es, cfg).contains(id) == (observed_ids(rest, cfg).contains(id) || entry_id(
            es.last(),
            cfg,
        ) == Some(id)) by {
        if observed_ids(es, cfg).contains(id) {
            let k = choose|k: int| 0 <= k < es.len() && entry_id(es[k], cfg) == Some(id);
            if k < es.len() - 1 {
                assert(rest[k] == es[k]);
            }
        }
        if observed_ids(rest, cfg).contains(id) {
            let k = choose|k: int| 0 <= k < rest.len() && entry_id(rest[k], cfg) == Some(id);
            assert(rest[k] == es[k]);
        }
        if entry_id(es.last(), cfg) == Some(id) {
            assert(0 <= es.len() - 1 < es.len() && entry_id(es[es.len() - 1], cfg) == Some(id));
        }
    }
}

proof fn lemma_run_missing(c: CacheView, es: Seq<EntryView>, cfg: AttributeConfig)
    ensures
        run(c, es, cfg).missing == c.missing.difference(observed_ids(es, cfg)),
    decreases es.len(),
{
    if es.len() == 0 {
        assert(observed_ids(es, cfg) =~= Set::empty());
        assert(c.missing.difference(observed_ids(es, cfg)) =~= c.missing);
    } else {
        let rest = es.drop_last();
        lemma_run_missing(c, rest, cfg);
        lemma_observed_ids_last(es, cfg);
        assert(run(c, es, cfg).missing =~= c.missing.difference(observed_ids(es, cfg)));
    }
}

proof fn lemma_disabled_stays(c: CacheView, es: Seq<EntryView>, cfg: AttributeConfig)
    requires
        c.entries is None,
    ensures
        run(c, es, cfg).entries is None,
    decreases es.len(),
{
    if es.len() > 0 {
        lemma_disabled_stays(c, es.drop_last(), cfg);
    }
}

proof fn lemma_same_snapshots_same_run(
    c1: CacheView,
    c2: CacheView,
    es: Seq<EntryView>,
    cfg: AttributeConfig,
)
    requires
        c1.entries == c2.entries,
        c1.last_sync_time == c2.last_sync_time,
    ensures
        run(c1, es, cfg).entries == run(c2, es, cfg).entries,
        run(c1, es, cfg).last_sync_time == run(c2, es, cfg).last_sync_time,
    decreases es.len(),
{
    if es.len() > 0 {
        lemma_same_snapshots_same_run(c1, c2, es.drop_last(), cfg);
    }
}

/// An entity without a snapshot is classified `Missing` when it is first
/// observed, its entry is kept as its snapshot, and no later observation of
/// the same id is classified `Missing` again.
pub proof fn law_new_entity_reported_once(
    c: CacheView,
    es: Seq<EntryView>,
    cfg: AttributeConfig,
    id: Seq<u8>,
)
    requires
        c.entries is Some,
        !c.entries->0.contains_key(id),
        es.len() > 0,
        entry_id(es[0], cfg) == Some(id),
    ensures
        outcome_at(c, es, 0, cfg) == Ok::<Classification, Error>(Classification::Missing),
        run(c, es.take(1), cfg).entries->0.contains_key(id),
        run(c, es.take(1), cfg).entries->0[id] == es[0],
        forall|k: int|
            0 < k < es.len() && entry_id(es[k], cfg) == Some(id) ==> outcome_at(c, es, k, cfg)
                != Ok::<Classification, Error>(Classification::Missing),
{
    assert(es.take(0) =~= Seq::<EntryView>::empty());
    lemma_run_prefix(c, es, 0, cfg);
    let first = run(c, es.take(1), cfg);
    assert forall|k: int|
        0 < k < es.len() && entry_id(es[k], cfg) == Some(id) implies outcome_at(c, es, k, cfg)
        != Ok::<Classification, Error>(Classification::Missing) by {
        let prefix = es.take(k);
        assert(prefix.take(1) =~= es.take(1));
        assert(prefix =~= prefix.take(1) + prefix.skip(1));
        lemma_run_concat(c, prefix.take(1), prefix.skip(1), cfg);
        lemma_known_stays_known(first, prefix.skip(1), cfg, id);
    }
}

proof fn lemma_run_concat(c: CacheView, a: Seq<EntryView>, b: Seq<EntryView>, cfg: AttributeConfig)
    ensures
        run(c, a + b, cfg) == run(run(c, a, cfg), b, cfg),
    decreases b.len(),
{
    if b.len() == 0 {
        assert(a + b =~= a);
    } else {
        assert((a + b).drop_last() =~= a + b.drop_last());
        lemma_run_concat(c, a, b.drop_last(), cfg);
    }
}

/// Observing the same entry twice in a row under the tracked-attribute
/// strategy: the second observation is `Unchanged`, and an `Unchanged`
/// observation leaves the snapshots as they were.
pub proof fn law_repeat_is_unchanged(c: CacheView, e: EntryView, cfg: AttributeConfig)
    requires
        c.entries is Some,
        entry_id(e, cfg) is Some,
    ensures
        observe_outcome(observe_next(c, e, cfg), e, cfg) == Ok::<Classification, Error>(
            Classification::Unchanged,
        ),
        observe_outcome(c, e, cfg) == Ok::<Classification, Error>(Classification::Unchanged)
            ==> observe_next(c, e, cfg).entries == c.entries,
{
}

proof fn lemma_other_ids_keep_snapshot(
    c: CacheView,
    others: Seq<EntryView>,
    cfg: AttributeConfig,
    id: Seq<u8>,
)
    requires
        c.entries is Some,
        c.entries->0.contains_key(id),
        forall|k: int| 0 <= k < others.len() ==> entry_id(#[trigger] others[k], cfg) != Some(id),
    ensures
        run(c, others, cfg).entries is Some,
        run(c, others, cfg).entries->0.contains_key(id),
        run(c, others, cfg).entries->0[id] == c.entries->0[id],
    decreases others.len(),
{
    if others.len() > 0 {
        let rest = others.drop_last();
        assert forall|k: int| 0 <= k < rest.len() implies entry_id(#[trigger] rest[k], cfg) != Some(
            id,
        ) by {
            assert(rest[k] == others[k]);
        }
        lemma_other_ids_keep_snapshot(c, rest, cfg, id);
        assert(entry_id(others[others.len() - 1], cfg) != Some(id));
    }
}

/// An entry observed under the tracked-attribute strategy is classified
/// `Unchanged` when it is observed again unaltered, whatever entries of other
/// ids were observed in between.
pub proof fn law_repeat_after_others_is_unchanged(
    c: CacheView,
    e: EntryView,
    others: Seq<EntryView>,
    cfg: AttributeConfig,
)
    requires
        c.entries is Some,
        entry_id(e, cfg) is Some,
        forall|k: int|
            0 <= k < others.len() ==> entry_id(#[trigger] others[k], cfg) != entry_id(e, cfg),
    ensures
        observe_outcome(run(observe_next(c, e, cfg), others, cfg), e, cfg) == Ok::<
            Classification,
            Error,
        >(Classification::Unchanged),
{
    let id = entry_id(e, cfg)->0;
    let c1 = observe_next(c, e, cfg);
    law_repeat_is_unchanged(c, e, cfg);
    assert(c1.entries->0.contains_key(id));
    lemma_other_ids_keep_snapshot(c1, others, cfg, id);
}

/// Re-running a cycle's input: once the entries `es` were observed under the
/// tracked-attribute strategy, observing them again never classifies one with
/// a readable id as `Missing`.
pub proof fn law_rerun_never_missing(c: CacheView, es: Seq<EntryView>, cfg: AttributeConfig)
    requires
        c.entries is Some,
    ensures
        forall|k: int|
            0 <= k < es.len() && entry_id(es[k], cfg) is Some ==> outcome_at(
                run(c, es, cfg),
                es,
                k,
                cfg,
            ) != Ok::<Classification, Error>(Classification::Missing),
{
    lemma_observed_known(c, es, cfg);
    assert forall|k: int| 0 <= k < es.len() && entry_id(es[k], cfg) is Some implies outcome_at(
        run(c, es, cfg),
        es,
        k,
        cfg,
    ) != Ok::<Classification, Error>(Classification::Missing) by {
        let id = entry_id(es[k], cfg)->0;
        assert(observed_ids(es, cfg).contains(id));
        lemma_known_stays_known(run(c, es, cfg), es.take(k), cfg, id);
    }
}

/// After an observation of `e0`, an entry `e1` with the same id is
/// classified `Changed` when a tracked attribute reads differently from `e0`,
/// carrying the stored snapshot: it reads as `e0` on every tracked attribute,
/// and is `e0` itself unless `e0` was classified `Unchanged`. When only
/// untracked attributes differ, `e1` is classified `Unchanged`.
pub proof fn law_precision(c: CacheView, e0: EntryView, e1: EntryView, cfg: AttributeConfig)
    requires
        c.entries is Some,
        entry_id(e0, cfg) is Some,
        entry_id(e1, cfg) == entry_id(e0, cfg),
    ensures
        attrs_differ(e1, e0, cfg.tracked_names()) ==> {
            &&& observe_outcome(observe_next(c, e0, cfg), e1, cfg) matches Ok(
                Classification::Changed(prev),
            )
            &&& !attrs_differ(prev, e0, cfg.tracked_names())
            &&& observe_outcome(c, e0, cfg) != Ok::<Classification, Error>(Classification::Unchanged)
                ==> prev == e0
        },
        !attrs_differ(e1, e0, cfg.tracked_names()) ==> observe_outcome(observe_next(c, e0, cfg), e1, cfg)
            == Ok::<Classification, Error>(Classification::Unchanged),
{
    let names = cfg.tracked_names();
    let id = entry_id(e0, cfg)->0;
    let c1 = observe_next(c, e0, cfg);
    let prev = c1.entries->0[id];
    assert(c1.entries->0.contains_key(id));
    assert(!attrs_differ(e0, prev, names));
    assert(!attrs_differ(prev, e0, names)) by {
        if attrs_differ(prev, e0, names) {
            let i = choose|i: int|
                0 <= i < names.len() && bytes_first(prev, names[i])
                    != bytes_first(e0, names[i]);
            assert(bytes_first(e0, names[i]) != bytes_first(prev, names[i]));
        }
    }
    if attrs_differ(e1, e0, names) {
        let i = choose|i: int|
            0 <= i < names.len() && bytes_first(e1, names[i])
                != bytes_first(e0, names[i]);
        assert(bytes_first(e0, names[i]) == bytes_first(prev, names[i]));
        assert(attrs_differ(e1, prev, names));
    } else {
        assert(!attrs_differ(e1, prev, names)) by {
            if attrs_differ(e1, prev, names) {
                let i = choose|i: int|
                    0 <= i < names.len() && bytes_first(e1, names[i])
                        != bytes_first(prev, names[i]);
                assert(bytes_first(e0, names[i]) == bytes_first(prev, names[i]));
                assert(bytes_first(e1, names[i]) == bytes_first(e0, names[i]));
            }
        }
    }
}

/// Deletion soundness: after a comparison starts in state `c` and the
/// entries `es` are observed, an id is still missing exactly when it had a
/// snapshot at the start and no entry of `es` carried it.
pub proof fn law_deletions_sound(c: CacheView, es: Seq<EntryView>, cfg: AttributeConfig)
    ensures
        forall|id: Seq<u8>| #[trigger]
            run(start_next(c), es, cfg).missing.contains(id) <==> (expected_ids(c.entries).contains(
                id,
            ) && !observed_ids(es, cfg).contains(id)),
{
    lemma_run_missing(start_next(c), es, cfg);
}

/// Under the disabled strategy every observation of an entry with a
/// readable id is classified `Missing`, whatever came before, and the
/// strategy stays disabled.
pub proof fn law_disabled_always_missing(c: CacheView, es: Seq<EntryView>, cfg: AttributeConfig)
    requires
        c.entries is None,
    ensures
        run(c, es, cfg).entries is None,
        forall|k: int|
            0 <= k < es.len() && entry_id(es[k], cfg) is Some ==> outcome_at(c, es, k, cfg)
                == Ok::<Classification, Error>(Classification::Missing),
{
    lemma_disabled_stays(c, es, cfg);
    assert forall|k: int| 0 <= k < es.len() && entry_id(es[k], cfg) is Some implies outcome_at(
        c,
        es,
        k,
        cfg,
    ) == Ok::<Classification, Error>(Classification::Missing) by {
        lemma_disabled_stays(c, es.take(k), cfg);
    }
}

proof fn lemma_run_domain(c: CacheView, es: Seq<EntryView>, cfg: AttributeConfig)
    requires
        c.entries is Some,
    ensures
        run(c, es, cfg).entries is Some,
        run(c, es, cfg).entries->0.dom() == c.entries->0.dom().union(observed_ids(es, cfg)),
    decreases es.len(),
{
    if es.len() == 0 {
        assert(observed_ids(es, cfg) =~= Set::empty());
        assert(c.entries->0.dom().union(observed_ids(es, cfg)) =~= c.entries->0.dom());
    } else {
        let rest = es.drop_last();
        lemma_run_domain(c, rest, cfg);
        lemma_observed_ids_last(es, cfg);
        assert(run(c, es, cfg).entries->0.dom() =~= c.entries->0.dom().union(observed_ids(es, cfg)));
    }
}

/// After a complete comparison cycle under the tracked-attribute strategy
/// (start, observe the entries `es`, end), the ids with a snapshot are
/// exactly the ids that the entries of `es` carried: the entities believed
/// present.
pub proof fn law_cycle_keeps_observed_entities(c: CacheView, es: Seq<EntryView>, cfg: AttributeConfig)
    requires
        c.entries is Some,
    ensures
        end_next(run(start_next(c), es, cfg)).entries is Some,
        end_next(run(start_next(c), es, cfg)).entries->0.dom() == observed_ids(es, cfg),
{
    lemma_run_domain(start_next(c), es, cfg);
    lemma_run_missing(start_next(c), es, cfg);
    let after = run(start_next(c), es, cfg);
    assert(end_next(after).entries->0.dom() =~= observed_ids(es, cfg));
}

/// A cache resumed from the persisted parts of `c` classifies every later
/// sequence of entries exactly as `c` does, and once a comparison starts the
/// two are in the same state.
pub proof fn law_resumed_cache_classifies_alike(c: CacheView, es: Seq<EntryView>, cfg: AttributeConfig)
    ensures
        forall|k: int|
            0 <= k < es.len() ==> outcome_at(resumed(c), es, k, cfg) == outcome_at(c, es, k, cfg),
        run(resumed(c), es, cfg).entries == run(c, es, cfg).entries,
        run(start_next(resumed(c)), es, cfg) == run(start_next(c), es, cfg),
        forall|k: int|
            0 <= k < es.len() ==> outcome_at(start_next(resumed(c)), es, k, cfg) == outcome_at(
                start_next(c),
                es,
                k,
                cfg,
            ),
        end_next(run(start_next(resumed(c)), es, cfg)) == end_next(run(start_next(c), es, cfg)),
{
    lemma_same_snapshots_same_run(resumed(c), c, es, cfg);
    assert forall|k: int| 0 <= k < es.len() implies outcome_at(resumed(c), es, k, cfg) == outcome_at(
        c,
        es,
        k,
        cfg,
    ) by {
        lemma_same_snapshots_same_run(resumed(c), c, es.take(k), cfg);
    }
    assert(start_next(resumed(c)) == start_next(c));
}

} // verus!
