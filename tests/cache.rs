use ldap_poller::{
    AttributeConfig, Cache, CacheEntries, CacheEntryStatus, CacheMethod,
    EntityMap, Error, SerializedSearchEntry, Timestamp,
};
use time::{Duration, OffsetDateTime};

fn time_text(t: OffsetDateTime) -> String {
    Timestamp { unix_nanos: t.unix_timestamp_nanos() }.generalized_time().unwrap()
}

#[test]
fn has_any_attr_changed() {
    let mut cache = EntityMap::new();

    // Construct example values
    let attributes = AttributeConfig::example();
    let now = OffsetDateTime::now_utc();
    let mut entry = SerializedSearchEntry::new("uid=foo,ou=people,dc=example,dc=com");
    entry.set_attr(&attributes.pid, vec!["john_doe".to_owned()]);
    entry.set_attr(attributes.updated.as_ref().unwrap(), vec![time_text(now)]);
    entry.set_attr("enabled", vec!["yes".to_owned()]);

    assert_eq!(
        ldap_poller::has_any_attr_changed(&mut cache, &entry, &attributes).unwrap(),
        CacheEntryStatus::Missing,
        "Newly inserted entry should be considered missing",
    );
    assert_eq!(
        ldap_poller::has_any_attr_changed(&mut cache, &entry, &attributes).unwrap(),
        CacheEntryStatus::Unchanged,
        "Unmodified entry should not be considered changed",
    );

    let old = entry.clone();
    // Change the modification time
    let now = now + Duration::seconds(30);
    entry.set_attr(attributes.updated.as_ref().unwrap(), vec![time_text(now)]);

    assert_eq!(
        ldap_poller::has_any_attr_changed(&mut cache, &entry, &attributes).unwrap(),
        CacheEntryStatus::Changed(old),
        "Modified entry should be considered changed",
    );

    assert_eq!(
        ldap_poller::has_any_attr_changed(&mut cache, &entry, &attributes).unwrap(),
        CacheEntryStatus::Unchanged,
        "Unmodified entry should not be considered changed",
    );

    let old = entry.clone();

    entry.set_attr("enabled", vec!["no".into()]);

    assert_eq!(
        ldap_poller::has_any_attr_changed(&mut cache, &entry, &attributes).unwrap(),
        CacheEntryStatus::Changed(old),
        "Modified entry should be considered changed",
    );
}

fn config() -> AttributeConfig {
    AttributeConfig {
        pid: "id".to_owned(),
        updated: None,
        additional: Vec::new(),
        attrs_to_track: vec!["x".to_owned()],
        filter_attributes: true,
    }
}

fn entity(id: &str, x: &str, other: &str) -> SerializedSearchEntry {
    let mut e = SerializedSearchEntry::new(&format!("cn={id}"));
    e.set_attr("id", vec![id.to_owned()]);
    e.set_attr("x", vec![x.to_owned()]);
    e.set_attr("other", vec![other.to_owned()]);
    e
}

fn sorted(ids: &[Vec<u8>]) -> Vec<Vec<u8>> {
    let mut v = ids.to_vec();
    v.sort();
    v
}

#[test]
fn scenario_new_unchanged_changed_removed() {
    let cfg = config();
    let mut cache = Cache::new(CacheMethod::ModificationTime);
    let a1 = entity("1", "1", "o");

    cache.start_comparison();
    assert_eq!(cache.check_entry(&a1, &cfg), Ok(CacheEntryStatus::Missing));
    assert!(cache.end_comparison_and_return_missing_entries().is_empty());

    cache.start_comparison();
    assert_eq!(cache.check_entry(&a1, &cfg), Ok(CacheEntryStatus::Unchanged));
    assert!(cache.end_comparison_and_return_missing_entries().is_empty());

    let a2 = entity("1", "2", "o");
    cache.start_comparison();
    assert_eq!(cache.check_entry(&a2, &cfg), Ok(CacheEntryStatus::Changed(a1.clone())));
    assert!(cache.end_comparison_and_return_missing_entries().is_empty());

    cache.start_comparison();
    assert_eq!(
        cache.end_comparison_and_return_missing_entries().clone(),
        vec![b"1".to_vec()]
    );
}

#[test]
fn unseen_entity_is_missing_once_and_kept() {
    let cfg = config();
    let mut cache = Cache::new(CacheMethod::ModificationTime);
    let a = entity("7", "1", "o");
    assert_eq!(cache.check_entry(&a, &cfg), Ok(CacheEntryStatus::Missing));
    match cache.entries() {
        CacheEntries::Modified(map) => assert_eq!(map.get(b"7"), Some(&a)),
        CacheEntries::Disabled => panic!("strategy changed"),
    }
    for _ in 0..3 {
        assert_ne!(cache.check_entry(&a, &cfg), Ok(CacheEntryStatus::Missing));
    }
    let a_changed = entity("7", "9", "o");
    assert_ne!(cache.check_entry(&a_changed, &cfg), Ok(CacheEntryStatus::Missing));
}

#[test]
fn unchanged_twice_in_a_row() {
    let cfg = config();
    let mut cache = Cache::new(CacheMethod::ModificationTime);
    let a = entity("1", "1", "o");
    let b = entity("2", "1", "o");
    assert_eq!(cache.check_entry(&a, &cfg), Ok(CacheEntryStatus::Missing));
    assert_eq!(cache.check_entry(&b, &cfg), Ok(CacheEntryStatus::Missing));
    for _ in 0..2 {
        assert_eq!(cache.check_entry(&a, &cfg), Ok(CacheEntryStatus::Unchanged));
        assert_eq!(cache.check_entry(&b, &cfg), Ok(CacheEntryStatus::Unchanged));
    }
}

#[test]
fn tracked_change_carries_previous_snapshot() {
    let cfg = config();
    let mut cache = Cache::new(CacheMethod::ModificationTime);
    let before = entity("1", "1", "o");
    cache.check_entry(&before, &cfg).unwrap();
    let after = entity("1", "2", "o");
    assert_eq!(cache.check_entry(&after, &cfg), Ok(CacheEntryStatus::Changed(before)));
}

#[test]
fn untracked_change_is_unchanged() {
    let cfg = config();
    let mut cache = Cache::new(CacheMethod::ModificationTime);
    cache.check_entry(&entity("1", "1", "o"), &cfg).unwrap();
    assert_eq!(
        cache.check_entry(&entity("1", "1", "p"), &cfg),
        Ok(CacheEntryStatus::Unchanged)
    );
    // the stored snapshot stays the first one
    assert_eq!(
        cache.check_entry(&entity("1", "5", "p"), &cfg),
        Ok(CacheEntryStatus::Changed(entity("1", "1", "o")))
    );
}

#[test]
fn updated_attribute_is_tracked() {
    let mut cfg = config();
    cfg.attrs_to_track = Vec::new();
    cfg.updated = Some("mtime".to_owned());
    let mut cache = Cache::new(CacheMethod::ModificationTime);
    let mut e = entity("1", "1", "o");
    e.set_attr("mtime", vec!["20130516200520Z".to_owned()]);
    cache.check_entry(&e, &cfg).unwrap();
    let mut e2 = entity("1", "2", "o");
    e2.set_attr("mtime", vec!["20130516200520Z".to_owned()]);
    assert_eq!(cache.check_entry(&e2, &cfg), Ok(CacheEntryStatus::Unchanged));
    e2.set_attr("mtime", vec!["20130516200521Z".to_owned()]);
    assert_eq!(cache.check_entry(&e2, &cfg), Ok(CacheEntryStatus::Changed(e)));
}

#[test]
fn deletions_reported_once_and_only_unobserved() {
    let cfg = config();
    let mut cache = Cache::new(CacheMethod::ModificationTime);
    for id in ["1", "2", "3", "4"] {
        cache.check_entry(&entity(id, "1", "o"), &cfg).unwrap();
    }
    cache.start_comparison();
    cache.check_entry(&entity("2", "1", "o"), &cfg).unwrap();
    cache.check_entry(&entity("2", "1", "o"), &cfg).unwrap();
    cache.check_entry(&entity("5", "1", "o"), &cfg).unwrap();
    cache.check_entry(&entity("4", "3", "o"), &cfg).unwrap();
    let missing = cache.end_comparison_and_return_missing_entries().clone();
    assert_eq!(sorted(&missing), vec![b"1".to_vec(), b"3".to_vec()]);
}

#[test]
fn entry_without_id_is_an_error() {
    let cfg = config();
    let mut cache = Cache::new(CacheMethod::ModificationTime);
    cache.check_entry(&entity("1", "1", "o"), &cfg).unwrap();
    cache.start_comparison();
    let mut no_id = SerializedSearchEntry::new("cn=anon");
    no_id.set_attr("x", vec!["1".to_owned()]);
    assert_eq!(cache.check_entry(&no_id, &cfg), Err(Error::Missing));
    assert_eq!(
        cache.end_comparison_and_return_missing_entries().clone(),
        vec![b"1".to_vec()]
    );
}

#[test]
fn binary_identity_attribute() {
    let cfg = config();
    let mut cache = Cache::new(CacheMethod::ModificationTime);
    let mut e = SerializedSearchEntry::new("cn=bin");
    e.set_bin_attr("id", vec![vec![0, 255, 1]]);
    e.set_attr("x", vec!["1".to_owned()]);
    assert_eq!(cache.check_entry(&e, &cfg), Ok(CacheEntryStatus::Missing));
    cache.start_comparison();
    assert_eq!(
        cache.end_comparison_and_return_missing_entries().clone(),
        vec![vec![0u8, 255, 1]]
    );
}

#[test]
fn disabled_strategy_always_missing() {
    let cfg = config();
    let mut cache = Cache::new(CacheMethod::Disabled);
    let a = entity("1", "1", "o");
    cache.start_comparison();
    for _ in 0..3 {
        assert_eq!(cache.check_entry(&a, &cfg), Ok(CacheEntryStatus::Missing));
    }
    assert_eq!(
        cache.check_entry(&entity("1", "2", "o"), &cfg),
        Ok(CacheEntryStatus::Missing)
    );
    assert!(cache.end_comparison_and_return_missing_entries().is_empty());
}

fn copy_entries(entries: &CacheEntries) -> CacheEntries {
    match entries {
        CacheEntries::Modified(map) => {
            let mut copy = EntityMap::new();
            for id in map.ids() {
                copy.insert(&id, map.get(&id).unwrap().clone());
            }
            CacheEntries::Modified(copy)
        }
        CacheEntries::Disabled => CacheEntries::Disabled,
    }
}

#[test]
fn restored_cache_classifies_alike() {
    let cfg = config();
    let mut cache = Cache::new(CacheMethod::ModificationTime);
    cache.check_entry(&entity("1", "1", "o"), &cfg).unwrap();
    cache.check_entry(&entity("2", "1", "o"), &cfg).unwrap();
    cache.set_last_sync_time(Timestamp { unix_nanos: 1_368_734_720_000_000_000 });

    let mut restored = Cache::restore(cache.last_sync_time(), copy_entries(cache.entries()));
    assert_eq!(restored.last_sync_time(), cache.last_sync_time());

    let inputs = [
        entity("1", "1", "o"),
        entity("2", "5", "o"),
        entity("3", "1", "o"),
        entity("1", "1", "z"),
        entity("2", "6", "o"),
    ];
    cache.start_comparison();
    restored.start_comparison();
    for e in &inputs {
        assert_eq!(cache.check_entry(e, &cfg), restored.check_entry(e, &cfg));
    }
    assert_eq!(
        sorted(cache.end_comparison_and_return_missing_entries()),
        sorted(restored.end_comparison_and_return_missing_entries())
    );
}

#[test]
fn last_sync_time_is_recorded() {
    let mut cache = Cache::new(CacheMethod::ModificationTime);
    assert_eq!(cache.last_sync_time(), None);
    cache.set_last_sync_time(Timestamp { unix_nanos: 5 });
    assert_eq!(cache.last_sync_time(), Some(Timestamp { unix_nanos: 5 }));
}

#[test]
fn entity_map_len_and_ids() {
    let mut map = EntityMap::new();
    assert_eq!(map.len(), 0);
    map.insert(b"a", SerializedSearchEntry::new("cn=a"));
    map.insert(b"b", SerializedSearchEntry::new("cn=b"));
    map.insert(b"a", SerializedSearchEntry::new("cn=a2"));
    assert_eq!(map.len(), 2);
    assert_eq!(sorted(&map.ids()), vec![b"a".to_vec(), b"b".to_vec()]);
    assert_eq!(map.get(b"a").unwrap().dn, "cn=a2");
    assert_eq!(map.get(b"c"), None);
}

#[test]
fn end_of_cycle_drops_deleted_snapshots() {
    let cfg = config();
    let mut cache = Cache::new(CacheMethod::ModificationTime);
    cache.check_entry(&entity("1", "1", "o"), &cfg).unwrap();
    cache.check_entry(&entity("2", "1", "o"), &cfg).unwrap();
    cache.start_comparison();
    cache.check_entry(&entity("2", "1", "o"), &cfg).unwrap();
    assert_eq!(
        cache.end_comparison_and_return_missing_entries().clone(),
        vec![b"1".to_vec()]
    );
    match cache.entries() {
        CacheEntries::Modified(map) => {
            assert_eq!(map.ids(), vec![b"2".to_vec()]);
            assert_eq!(map.get(b"1"), None);
        }
        CacheEntries::Disabled => panic!("strategy changed"),
    }
    // reported once: the next full cycle no longer expects it
    cache.start_comparison();
    cache.check_entry(&entity("2", "1", "o"), &cfg).unwrap();
    assert!(cache.end_comparison_and_return_missing_entries().is_empty());
    // a returning entity is new again
    assert_eq!(
        cache.check_entry(&entity("1", "1", "o"), &cfg),
        Ok(CacheEntryStatus::Missing)
    );
}
