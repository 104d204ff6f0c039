//! The decisions of one synchronisation cycle: which query to send, which
//! event each classified entry yields, and which entities were removed.
use vstd::prelude::*;

use crate::bytes::copy_bytes;
use crate::cache::{
    end_next, observe_next, observe_outcome, Cache, CacheEntryStatus, Classification,
};
use crate::clock::{timestamp_text, Timestamp};
use crate::config::{AttributeConfig, Config};
use crate::entry::{EntryView, SerializedSearchEntry};
use crate::error::Error;
use crate::ids::id_set;

verus! {

/// Possible status of an entry, as sent to the consumer
#[derive(Debug, Clone, PartialEq, Eq)]
pub enum EntryStatus {
    /// The entry is new
    New(SerializedSearchEntry),
    /// The entry has changed: the new entry, then the previous snapshot
    Changed(SerializedSearchEntry, SerializedSearchEntry),
    /// The entry was removed
    Removed(Vec<u8>),
}

/// The model of an event.
pub enum EventView {
    New(EntryView),
    Changed(EntryView, EntryView),
    Removed(Seq<u8>),
}

impl View for EntryStatus {
    type V = EventView;

    open spec fn view(&self) -> EventView {
        match self {
            EntryStatus::New(e) => EventView::New(e@),
            EntryStatus::Changed(e, prev) => EventView::Changed(e@, prev@),
            EntryStatus::Removed(id) => EventView::Removed(id@),
        }
    }
}

/// The event that a classification of `e` yields; `Unchanged` yields none.
pub open spec fn event_of(e: EntryView, c: Classification) -> Option<EventView> {
    match c {
        Classification::Missing => Some(EventView::New(e)),
        Classification::Unchanged => None,
        Classification::Changed(prev) => Some(EventView::Changed(e, prev)),
    }
}

/// The model of an optional event.
pub open spec fn event_view(r: Option<EntryStatus>) -> Option<EventView> {
    match r {
        Some(ev) => Some(ev@),
        None => None,
    }
}

/// The event to send for an entry with the given status.
pub fn event_for(entry: SerializedSearchEntry, status: CacheEntryStatus) -> (r: Option<EntryStatus>)
    ensures
        event_view(r) == event_of(entry@, status@),
{
    match status {
        CacheEntryStatus::Missing => Some(EntryStatus::New(entry)),
        CacheEntryStatus::Unchanged => None,
        CacheEntryStatus::Changed(prev) => Some(EntryStatus::Changed(entry, prev)),
    }
}

/// Classifies one streamed entry of the running comparison and returns the
/// event to send for it, if any.
pub fn observe_entry(
    cache: &mut Cache,
    entry: SerializedSearchEntry,
    attributes_config: &AttributeConfig,
) -> (r: Result<Option<EntryStatus>, Error>)
    ensures
        final(cache)@ == observe_next(old(cache)@, entry@, *attributes_config),
        match observe_outcome(old(cache)@, entry@, *attributes_config) {
            Ok(c) => r matches Ok(ev) && event_view(ev) == event_of(entry@, c),
            Err(e) => r == Err::<Option<EntryStatus>, Error>(e),
        },
{
    match cache.check_entry(&entry, attributes_config) {
        Ok(status) => Ok(event_for(entry, status)),
        Err(e) => Err(e),
    }
}

/// Ends the running comparison. Where deleted entries are checked for, one
/// `Removed` event for each id that was expected and never observed, each
/// id once, and their snapshots are dropped; else no event, and the cache
/// stays as it is.
pub fn removal_events(cache: &mut Cache, check_for_deleted_entries: bool) -> (r: Vec<EntryStatus>)
    ensures
        !check_for_deleted_entries ==> r@.len() == 0 && final(cache)@ == old(cache)@,
        check_for_deleted_entries ==> final(cache)@ == end_next(old(cache)@),
        check_for_deleted_entries ==> {
            &&& forall|i: int| 0 <= i < r@.len() ==> (#[trigger] r@[i]) is Removed
            &&& forall|i: int, j: int|
                0 <= i < j < r@.len() ==> (#[trigger] r@[i])->Removed_0@ != (#[trigger] r@[j])->Removed_0@
            &&& forall|id: Seq<u8>|
                old(cache)@.missing.contains(id) <==> exists|i: int|
                    0 <= i < r@.len() && (#[trigger] r@[i])->Removed_0@ == id
        },
{
    let mut r: Vec<EntryStatus> = Vec::new();
    if !check_for_deleted_entries {
        return r;
    }
    let missing = cache.end_comparison_and_return_missing_entries();
    let mut i: usize = 0;
    while i < missing.len()
        invariant
            0 <= i <= missing@.len(),
            r@.len() == i,
            forall|k: int|
                0 <= k < i ==> (#[trigger] r@[k]) is Removed && r@[k]->Removed_0@ == missing@[k]@,
        decreases missing@.len() - i,
    {
        r.push(EntryStatus::Removed(copy_bytes(missing[i].as_slice())));
        i = i + 1;
    }
    proof {
        assert forall|id: Seq<u8>|
            old(cache)@.missing.contains(id) implies exists|k: int|
                0 <= k < r@.len() && (#[trigger] r@[k])->Removed_0@ == id by {
            let k = choose|k: int| 0 <= k < missing@.len() && (#[trigger] missing@[k])@ == id;
            assert(r@[k]->Removed_0@ == id);
        }
        assert forall|id: Seq<u8>|
            (exists|k: int| 0 <= k < r@.len() && (#[trigger] r@[k])->Removed_0@ == id) implies old(
                cache,
            )@.missing.contains(id) by {
            let k = choose|k: int| 0 <= k < r@.len() && (#[trigger] r@[k])->Removed_0@ == id;
            assert(missing@[k]@ == id);
            assert(id_set(missing@).contains(id));
        }
    }
    r
}

/// The query filter that narrows `user_filter` to entries whose `updated`
/// attribute is at or after `since`.
pub open spec fn narrowed_filter_text(
    user_filter: Seq<char>,
    updated: Seq<char>,
    since: Seq<char>,
) -> Seq<char> {
    "(&"@ + user_filter + "("@ + updated + ">="@ + since + "))"@
}

/// Builds the query filter that narrows `user_filter` to entries updated at
/// or after `since`.
pub fn narrowed_filter(user_filter: &str, updated: &str, since: &str) -> (r: String)
    ensures
        r@ == narrowed_filter_text(user_filter@, updated@, since@),
{
    let mut r = "(&".to_owned();
    r.push_str(user_filter);
    r.push_str("(");
    r.push_str(updated);
    r.push_str(">=");
    r.push_str(since);
    r.push_str("))");
    proof {
        reveal_strlit("(&");
        reveal_strlit("(");
        reveal_strlit(">=");
        reveal_strlit("))");
        assert(r@ =~= narrowed_filter_text(user_filter@, updated@, since@));
    }
    r
}

/// A query may be narrowed to recent updates only when deleted entries are
/// not checked for, a previous sync finished, and an update-timestamp
/// attribute is configured.
pub open spec fn narrows(config: Config, last_sync_time: Option<Timestamp>) -> bool {
    !config.check_for_deleted_entries && last_sync_time is Some && config.attributes.updated is Some
}

/// The error text for a time that cannot be written as GeneralizedTime.
pub open spec fn time_format_message() -> Seq<char> {
    "TIME_FORMAT is invalid"@
}

impl Config {
    /// The filter of the next search: the configured user filter, narrowed
    /// to entries updated since the last sync where that is allowed.
    pub fn search_filter(&self, last_sync_time: Option<Timestamp>) -> (r: Result<String, Error>)
        ensures
            !narrows(*self, last_sync_time) ==> (r matches Ok(s) && s@ == self.searches.user_filter@),
            narrows(*self, last_sync_time) ==> match timestamp_text(last_sync_time->0) {
                Some(since) => (r matches Ok(s) && s@ == narrowed_filter_text(
                    self.searches.user_filter@,
                    self.attributes.updated->0@,
                    since,
                )),
                None => (r matches Err(Error::Invalid(m)) && m@ == time_format_message()),
            },
    {
        if !self.check_for_deleted_entries {
            if let (Some(time), Some(updated)) = (last_sync_time, &self.attributes.updated) {
                return match time.generalized_time() {
                    Some(since) => Ok(
                        narrowed_filter(
                            self.searches.user_filter.as_str(),
                            updated.as_str(),
                            since.as_str(),
                        ),
                    ),
                    None => {
                        proof {
                            reveal_strlit("TIME_FORMAT is invalid");
                        }
                        Err(Error::Invalid("TIME_FORMAT is invalid".to_owned()))
                    },
                };
            }
        }
        Ok(self.searches.user_filter.clone())
    }
}

} // verus!
