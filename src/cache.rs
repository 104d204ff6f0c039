//! Caching mechanisms to check whether user data has changed
use vstd::prelude::*;

use crate::bytes::bytes_equal;
use crate::clock::Timestamp;
use crate::config::{AttributeConfig, CacheMethod};
use crate::entry::{bytes_first, EntryView, SearchEntryExt, SerializedSearchEntry};
use crate::error::Error;
use crate::ids::{id_set, ids_distinct, remove_id};
use crate::snapshots::EntityMap;

verus! {

/// Possible status of a checked entry
#[derive(Debug, Clone, PartialEq, Eq)]
pub enum CacheEntryStatus {
    /// The entry is missing
    Missing,
    /// The entry is present and unchanged
    Unchanged,
    /// The entry is present and has changed
    Changed(SerializedSearchEntry),
}

/// The model of a classification: `Changed` carries the previous snapshot.
pub enum Classification {
    /// First seen: no snapshot was stored for the id.
    Missing,
    /// Every tracked attribute reads as in the stored snapshot.
    Unchanged,
    /// Some tracked attribute differs; the snapshot stored before.
    Changed(EntryView),
}

impl View for CacheEntryStatus {
    type V = Classification;

    open spec fn view(&self) -> Classification {
        match self {
            CacheEntryStatus::Missing => Classification::Missing,
            CacheEntryStatus::Unchanged => Classification::Unchanged,
            CacheEntryStatus::Changed(prev) => Classification::Changed(prev@),
        }
    }
}

/// The model of a classification result.
pub open spec fn result_view(r: Result<CacheEntryStatus, Error>) -> Result<Classification, Error> {
    match r {
        Ok(status) => Ok(status@),
        Err(e) => Err(e),
    }
}

/// The id of an entry: the first value of the identity attribute, as bytes.
pub open spec fn entry_id(e: EntryView, cfg: AttributeConfig) -> Option<Seq<u8>> {
    bytes_first(e, cfg.pid@)
}

/// Some attribute among `names` reads differently in the two entries.
pub open spec fn attrs_differ(new: EntryView, old: EntryView, names: Seq<Seq<char>>) -> bool {
    exists|i: int| 0 <= i < names.len() && bytes_first(new, names[i]) != bytes_first(old, names[i])
}

/// How the tracked-attribute strategy classifies entry `e` with id `id`.
pub open spec fn tracked_outcome(
    map: Map<Seq<u8>, EntryView>,
    id: Seq<u8>,
    e: EntryView,
    names: Seq<Seq<char>>,
) -> Classification {
    if !map.contains_key(id) {
        Classification::Missing
    } else if attrs_differ(e, map[id], names) {
        Classification::Changed(map[id])
    } else {
        Classification::Unchanged
    }
}

/// The snapshots after the tracked-attribute strategy classified `e`: a new
/// or changed entry becomes the stored snapshot of its id.
pub open spec fn tracked_next(
    map: Map<Seq<u8>, EntryView>,
    id: Seq<u8>,
    e: EntryView,
    names: Seq<Seq<char>>,
) -> Map<Seq<u8>, EntryView> {
    match tracked_outcome(map, id, e, names) {
        Classification::Unchanged => map,
        _ => map.insert(id, e),
    }
}

/// How a strategy classifies `e`: the tracked-attribute strategy is given by
/// its stored snapshots, the disabled one by `None`.
pub open spec fn strategy_outcome(
    entries: Option<Map<Seq<u8>, EntryView>>,
    id: Seq<u8>,
    e: EntryView,
    names: Seq<Seq<char>>,
) -> Classification {
    match entries {
        Some(map) => tracked_outcome(map, id, e, names),
        None => Classification::Missing,
    }
}

/// The snapshots after a strategy classified `e`; the disabled strategy
/// stores nothing.
pub open spec fn strategy_next(
    entries: Option<Map<Seq<u8>, EntryView>>,
    id: Seq<u8>,
    e: EntryView,
    names: Seq<Seq<char>>,
) -> Option<Map<Seq<u8>, EntryView>> {
    match entries {
        Some(map) => Some(tracked_next(map, id, e, names)),
        None => None,
    }
}

/// Whether any tracked attribute reads differently in the two entries.
fn tracked_attrs_differ(
    new: &SerializedSearchEntry,
    old: &SerializedSearchEntry,
    cfg: &AttributeConfig,
) -> (r: bool)
    ensures
        r == attrs_differ(new@, old@, cfg.tracked_names()),
{
    let ghost names = cfg.tracked_names();
    let n = cfg.attrs_to_track.len();
    let mut i: usize = 0;
    while i < n
        invariant
            n == cfg.attrs_to_track@.len(),
            names == cfg.tracked_names(),
            0 <= i <= n,
            forall|j: int|
                0 <= j < i ==> bytes_first(new@, #[trigger] names[j]) == bytes_first(old@, names[j]),
        decreases n - i,
    {
        let name = cfg.attrs_to_track[i].as_str();
        if !same_reading(new.bin_attr_first(name), old.bin_attr_first(name)) {
            assert(names[i as int] == name@);
            return true;
        }
        i = i + 1;
    }
    if let Some(updated) = &cfg.updated {
        let name = updated.as_str();
        if !same_reading(new.bin_attr_first(name), old.bin_attr_first(name)) {
            assert(names[n as int] == name@);
            return true;
        }
        assert(names.len() == n + 1);
        assert(names[n as int] == name@);
    }
    false
}

/// The model of an optional byte reading.
pub open spec fn reading(a: Option<&[u8]>) -> Option<Seq<u8>> {
    match a {
        Some(x) => Some(x@),
        None => None,
    }
}

/// Two optional byte readings are equal.
fn same_reading(a: Option<&[u8]>, b: Option<&[u8]>) -> (r: bool)
    ensures
        r == (reading(a) == reading(b)),
{
    match (a, b) {
        (Some(x), Some(y)) => bytes_equal(x, y),
        (None, None) => true,
        _ => false,
    }
}

/// Check whether the tracked attributes of an entry have changed, storing
/// the entry as the snapshot of its id when it is new or changed.
pub fn has_any_attr_changed(
    cache: &mut EntityMap,
    entry: &SerializedSearchEntry,
    attributes_config: &AttributeConfig,
) -> (r: Result<CacheEntryStatus, Error>)
    ensures
        match entry_id(entry@, *attributes_config) {
            None => {
                &&& r == Err::<CacheEntryStatus, Error>(Error::Missing)
                &&& final(cache)@ == old(cache)@
            },
            Some(id) => {
                &&& result_view(r) == Ok::<Classification, Error>(
                    tracked_outcome(old(cache)@, id, entry@, attributes_config.tracked_names()),
                )
                &&& final(cache)@ == tracked_next(
                    old(cache)@,
                    id,
                    entry@,
                    attributes_config.tracked_names(),
                )
            },
        },
{
    let id = match entry.bin_attr_first(attributes_config.pid.as_str()) {
        Some(id) => id,
        None => return Err(Error::Missing),
    };
    let previous = match cache.get(id) {
        Some(old_entry) => if tracked_attrs_differ(entry, old_entry, attributes_config) {
            Some(old_entry.snapshot())
        } else {
            return Ok(CacheEntryStatus::Unchanged);
        },
        None => None,
    };
    cache.insert(id, entry.snapshot());
    match previous {
        Some(old_entry) => Ok(CacheEntryStatus::Changed(old_entry)),
        None => Ok(CacheEntryStatus::Missing),
    }
}

/// Cache data entries used to check whether an entry has changed
#[derive(Debug)]
pub enum CacheEntries {
    /// Compare the tracked attributes of each entry against the stored
    /// snapshot of its id.
    Modified(EntityMap),
    /// Don't cache anything, forward all results unconditionally
    Disabled,
}

impl View for CacheEntries {
    /// The stored snapshots, or `None` for the strategy that stores nothing.
    type V = Option<Map<Seq<u8>, EntryView>>;

    open spec fn view(&self) -> Option<Map<Seq<u8>, EntryView>> {
        match self {
            CacheEntries::Modified(map) => Some(map@),
            CacheEntries::Disabled => None,
        }
    }
}

/// The ids expected in a comparison that starts with these snapshots.
pub open spec fn expected_ids(entries: Option<Map<Seq<u8>, EntryView>>) -> Set<Seq<u8>> {
    match entries {
        Some(map) => map.dom(),
        None => Set::empty(),
    }
}

/// The snapshots once the ids in `gone` are no longer believed present.
pub open spec fn forget_ids(entries: Option<Map<Seq<u8>, EntryView>>, gone: Set<Seq<u8>>) -> Option<
    Map<Seq<u8>, EntryView>,
> {
    match entries {
        Some(map) => Some(map.remove_keys(gone)),
        None => None,
    }
}

impl CacheEntries {
    /// Drop the snapshot of an entity that is no longer present.
    pub fn forget(&mut self, id: &[u8])
        ensures
            final(self)@ == forget_ids(old(self)@, set![id@]),
    {
        match self {
            CacheEntries::Modified(cache) => {
                cache.remove(id);
                proof {
                    assert(cache@ =~= old(self)@->0.remove_keys(set![id@]));
                }
            },
            CacheEntries::Disabled => {},
        }
    }

    /// Get the initial set of expected entries
    pub fn get_expected(&self) -> (r: Vec<Vec<u8>>)
        ensures
            ids_distinct(r@),
            id_set(r@) == expected_ids(self@),
    {
        match self {
            CacheEntries::Modified(cache) => cache.ids(),
            CacheEntries::Disabled => {
                let r: Vec<Vec<u8>> = Vec::new();
                assert(id_set(r@) =~= Set::empty());
                r
            },
        }
    }

    /// Check whether an entry is present or changed
    pub fn check_cache_entry_status(
        &mut self,
        entry: &SerializedSearchEntry,
        attributes_config: &AttributeConfig,
    ) -> (r: Result<CacheEntryStatus, Error>)
        ensures
            old(self)@ is None ==> r == Ok::<CacheEntryStatus, Error>(CacheEntryStatus::Missing)
                && final(self)@ == old(self)@,
            old(self)@ is Some && entry_id(entry@, *attributes_config) is None ==> r == Err::<
                CacheEntryStatus,
                Error,
            >(Error::Missing) && final(self)@ == old(self)@,
            old(self)@ is Some && entry_id(entry@, *attributes_config) is Some ==> {
                let id = entry_id(entry@, *attributes_config)->0;
                &&& result_view(r) == Ok::<Classification, Error>(
                    strategy_outcome(old(self)@, id, entry@, attributes_config.tracked_names()),
                )
                &&& final(self)@ == strategy_next(
                    old(self)@,
                    id,
                    entry@,
                    attributes_config.tracked_names(),
                )
            },
    {
        match self {
            CacheEntries::Modified(cache) => has_any_attr_changed(cache, entry, attributes_config),
            CacheEntries::Disabled => Ok(CacheEntryStatus::Missing),
        }
    }
}

/// The model of a cache: the time of the last sync, the strategy's
/// snapshots, and the ids not yet seen in the running comparison.
pub struct CacheView {
    pub last_sync_time: Option<Timestamp>,
    pub entries: Option<Map<Seq<u8>, EntryView>>,
    pub missing: Set<Seq<u8>>,
}

/// The result of observing entry `e` in state `c`.
pub open spec fn observe_outcome(c: CacheView, e: EntryView, cfg: AttributeConfig) -> Result<
    Classification,
    Error,
> {
    match entry_id(e, cfg) {
        None => Err(Error::Missing),
        Some(id) => Ok(strategy_outcome(c.entries, id, e, cfg.tracked_names())),
    }
}

/// The state after observing entry `e` in state `c`: its id is no longer
/// missing, and the strategy has stored what it keeps of it.
pub open spec fn observe_next(c: CacheView, e: EntryView, cfg: AttributeConfig) -> CacheView {
    match entry_id(e, cfg) {
        None => c,
        Some(id) => CacheView {
            last_sync_time: c.last_sync_time,
            entries: strategy_next(c.entries, id, e, cfg.tracked_names()),
            missing: c.missing.remove(id),
        },
    }
}

/// The state after a comparison starts in state `c`: every id with a
/// snapshot is expected.
pub open spec fn start_next(c: CacheView) -> CacheView {
    CacheView { last_sync_time: c.last_sync_time, entries: c.entries, missing: expected_ids(c.entries) }
}

/// The state after a comparison ends in state `c`: the ids still missing are
/// no longer believed present, and their snapshots are dropped.
pub open spec fn end_next(c: CacheView) -> CacheView {
    CacheView {
        last_sync_time: c.last_sync_time,
        entries: forget_ids(c.entries, c.missing),
        missing: c.missing,
    }
}

/// The strategy that a cache method stands for, with nothing stored yet.
pub open spec fn initial_entries(method: CacheMethod) -> Option<Map<Seq<u8>, EntryView>> {
    match method {
        CacheMethod::ModificationTime => Some(Map::empty()),
        CacheMethod::Disabled => None,
    }
}

/// Cache data with information about the last sync and user entries
#[derive(Debug)]
pub struct Cache {
    /// The time of the last sync
    last_sync_time: Option<Timestamp>,
    /// Cached data entries used to check whether an entry has changed
    entries: CacheEntries,
    /// Ids not yet seen during the running comparison, each once
    missing: Vec<Vec<u8>>,
}

impl View for Cache {
    type V = CacheView;

    closed spec fn view(&self) -> CacheView {
        CacheView {
            last_sync_time: self.last_sync_time,
            entries: self.entries@,
            missing: id_set(self.missing@),
        }
    }
}

impl Cache {
    #[verifier::type_invariant]
    closed spec fn well_formed(self) -> bool {
        ids_distinct(self.missing@)
    }

    /// An empty cache for the given method.
    pub fn new(method: CacheMethod) -> (r: Self)
        ensures
            r@.last_sync_time is None,
            r@.entries == initial_entries(method),
            r@.missing == Set::<Seq<u8>>::empty(),
    {
        let entries = match method {
            CacheMethod::ModificationTime => CacheEntries::Modified(EntityMap::new()),
            CacheMethod::Disabled => CacheEntries::Disabled,
        };
        Cache::restore(None, entries)
    }

    /// A cache resumed from its persisted parts: the time of the last sync and
    /// the strategy with its snapshots.
    pub fn restore(last_sync_time: Option<Timestamp>, entries: CacheEntries) -> (r: Self)
        ensures
            r@.last_sync_time == last_sync_time,
            r@.entries == entries@,
            r@.missing == Set::<Seq<u8>>::empty(),
    {
        let r = Cache { last_sync_time, entries, missing: Vec::new() };
        assert(id_set(r.missing@) =~= Set::<Seq<u8>>::empty());
        r
    }

    /// The time of the last sync.
    pub fn last_sync_time(&self) -> (r: Option<Timestamp>)
        ensures
            r == self@.last_sync_time,
    {
        self.last_sync_time
    }

    /// The strategy with its snapshots.
    pub fn entries(&self) -> (r: &CacheEntries)
        ensures
            r@ == self@.entries,
    {
        &self.entries
    }

    /// Records the start time of the last finished sync.
    pub fn set_last_sync_time(&mut self, time: Timestamp)
        ensures
            final(self)@ == (CacheView { last_sync_time: Some(time), ..old(self)@ }),
    {
        proof {
            use_type_invariant(&*self);
        }
        self.last_sync_time = Some(time);
    }

    /// Start a new comparison with the current entries
    pub fn start_comparison(&mut self)
        ensures
            final(self)@ == start_next(old(self)@),
    {
        self.missing = self.entries.get_expected();
    }

    /// Check whether an entry is changed or unchanged and update expected
    /// entries
    pub fn check_entry(
        &mut self,
        entry: &SerializedSearchEntry,
        attributes_config: &AttributeConfig,
    ) -> (r: Result<CacheEntryStatus, Error>)
        ensures
            result_view(r) == observe_outcome(old(self)@, entry@, *attributes_config),
            final(self)@ == observe_next(old(self)@, entry@, *attributes_config),
    {
        proof {
            use_type_invariant(&*self);
        }
        let id = match entry.bin_attr_first(attributes_config.pid.as_str()) {
            Some(id) => id,
            None => return Err(Error::Missing),
        };
        let mut missing: Vec<Vec<u8>> = Vec::new();
        std::mem::swap(&mut missing, &mut self.missing);
        remove_id(&mut missing, id);
        self.missing = missing;
        let mut entries = CacheEntries::Disabled;
        std::mem::swap(&mut entries, &mut self.entries);
        let r = entries.check_cache_entry_status(entry, attributes_config);
        self.entries = entries;
        r
    }

    /// End a running comparison with the current entries: returns the ids
    /// expected at its start that no observed entry carried, each once, and
    /// drops their snapshots.
    pub fn end_comparison_and_return_missing_entries(&mut self) -> (r: &Vec<Vec<u8>>)
        ensures
            ids_distinct(r@),
            id_set(r@) == old(self)@.missing,
            final(self)@ == end_next(old(self)@),
    {
        proof {
            use_type_invariant(&*self);
        }
        let mut entries = CacheEntries::Disabled;
        std::mem::swap(&mut entries, &mut self.entries);
        let ghost start = entries@;
        let mut i: usize = 0;
        while i < self.missing.len()
            invariant
                0 <= i <= self.missing@.len(),
                entries@ == forget_ids(start, id_set(self.missing@.take(i as int))),
            decreases self.missing@.len() - i,
        {
            entries.forget(self.missing[i].as_slice());
            proof {
                let done = self.missing@.take(i as int);
                let next = self.missing@.take(i + 1);
                assert(id_set(next) =~= id_set(done).insert(self.missing@[i as int]@)) by {
                    assert forall|k: Seq<u8>| #[trigger] id_set(next).contains(k) implies id_set(
                        done,
                    ).insert(self.missing@[i as int]@).contains(k) by {
                        let j = choose|j: int| 0 <= j < next.len() && (#[trigger] next[j])@ == k;
                        if j < i {
                            assert(done[j] == next[j]);
                        }
                    }
                    assert forall|k: Seq<u8>| #[trigger] id_set(done).contains(k) implies id_set(
                        next,
                    ).contains(k) by {
                        let j = choose|j: int| 0 <= j < done.len() && (#[trigger] done[j])@ == k;
                        assert(next[j] == done[j]);
                    }
                    assert(next[i as int] == self.missing@[i as int]);
                }
                if start is Some {
                    assert(start->0.remove_keys(id_set(done)).remove_keys(set![self.missing@[i as int]@])
                        =~= start->0.remove_keys(id_set(next)));
                }
            }
            i = i + 1;
        }
        assert(self.missing@.take(self.missing@.len() as int) =~= self.missing@);
        self.entries = entries;
        &self.missing
    }
}

} // verus!
