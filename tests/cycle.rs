use std::time::Duration;

use ldap_poller::{
    event_for, observe_entry, removal_events, AttributeConfig, Cache, CacheEntryStatus,
    CacheMethod, CivilTime, Config, ConnectionConfig, EntryStatus, Error, Searches,
    SerializedSearchEntry, TLSConfig, Timestamp,
};

fn config(check_for_deleted_entries: bool) -> Config {
    Config {
        url: url::Url::parse("ldap://localhost:1389").unwrap(),
        connection: ConnectionConfig {
            timeout: 5,
            operation_timeout: Duration::from_secs(5),
            tls: TLSConfig {
                starttls: false,
                no_tls_verify: false,
                root_certificates_path: None,
                client_key_path: None,
                client_certificate_path: None,
            },
        },
        search_user: String::new(),
        search_password: String::new(),
        searches: Searches {
            page_size: None,
            user_filter: "(objectClass=inetOrgPerson)".to_owned(),
            user_base: "ou=users,dc=example,dc=org".to_owned(),
        },
        attributes: AttributeConfig {
            pid: "cn".to_owned(),
            updated: Some("modifyTimestamp".to_owned()),
            additional: vec!["displayName".to_owned()],
            attrs_to_track: vec!["displayName".to_owned()],
            filter_attributes: false,
        },
        cache_method: CacheMethod::ModificationTime,
        check_for_deleted_entries,
    }
}

const MAY_16_2013: i128 = 1_368_734_720_000_000_000;

#[test]
fn test_time_config() {
    let format = time::format_description::parse("[year][month][day][hour][minute][second]Z")
        .unwrap();
    let parsed = time::PrimitiveDateTime::parse("20130516200520Z", &format).unwrap();
    let civil = CivilTime {
        year: parsed.year(),
        month: u8::from(parsed.month()),
        day: parsed.day(),
        hour: parsed.hour(),
        minute: parsed.minute(),
        second: parsed.second(),
    };
    assert_eq!(ldap_poller::clock::generalized_time(civil), Some("20130516200520Z".to_owned()));
}

#[test]
fn timestamp_as_generalized_time() {
    let t = Timestamp { unix_nanos: MAY_16_2013 + 999_999_999 };
    assert_eq!(t.generalized_time(), Some("20130516200520Z".to_owned()));
    assert_eq!(Timestamp { unix_nanos: 0 }.generalized_time(), Some("19700101000000Z".to_owned()));
    assert_eq!(Timestamp { unix_nanos: -1 }.generalized_time(), Some("19691231235959Z".to_owned()));
}

#[test]
fn timestamp_out_of_range() {
    assert_eq!(Timestamp { unix_nanos: i128::MAX }.generalized_time(), None);
}

#[test]
fn generalized_time_formats() {
    let t = CivilTime { year: 7, month: 1, day: 2, hour: 3, minute: 4, second: 5 };
    assert_eq!(ldap_poller::clock::generalized_time(t), Some("00070102030405Z".to_owned()));
    let neg = CivilTime { year: -44, month: 3, day: 15, hour: 0, minute: 0, second: 0 };
    assert_eq!(ldap_poller::clock::generalized_time(neg), Some("-00440315000000Z".to_owned()));
    let far = CivilTime { year: 10000, month: 1, day: 1, hour: 0, minute: 0, second: 0 };
    assert_eq!(ldap_poller::clock::generalized_time(far), None);
}

#[test]
fn search_filter_full_or_narrowed() {
    let last = Some(Timestamp { unix_nanos: MAY_16_2013 });
    assert_eq!(config(false).search_filter(None), Ok("(objectClass=inetOrgPerson)".to_owned()));
    assert_eq!(config(true).search_filter(last), Ok("(objectClass=inetOrgPerson)".to_owned()));
    assert_eq!(
        config(false).search_filter(last),
        Ok("(&(objectClass=inetOrgPerson)(modifyTimestamp>=20130516200520Z))".to_owned())
    );
    let mut no_updated = config(false);
    no_updated.attributes.updated = None;
    assert_eq!(no_updated.search_filter(last), Ok("(objectClass=inetOrgPerson)".to_owned()));
}

#[test]
fn search_filter_time_error() {
    let last = Some(Timestamp { unix_nanos: i128::MAX });
    assert_eq!(
        config(false).search_filter(last),
        Err(Error::Invalid("TIME_FORMAT is invalid".to_owned()))
    );
}

#[test]
fn narrowed_filter_text() {
    assert_eq!(ldap_poller::cycle::narrowed_filter("(a=b)", "t", "x"), "(&(a=b)(t>=x))");
}

fn user(cn: &str, name: &str) -> SerializedSearchEntry {
    let mut e = SerializedSearchEntry::new(&format!("cn={cn},ou=users,dc=example,dc=org"));
    e.set_attr("cn", vec![cn.to_owned()]);
    e.set_attr("displayName", vec![name.to_owned()]);
    e
}

#[test]
fn events_for_statuses() {
    let e = user("user01", "MyName1");
    assert_eq!(event_for(e.clone(), CacheEntryStatus::Missing), Some(EntryStatus::New(e.clone())));
    assert_eq!(event_for(e.clone(), CacheEntryStatus::Unchanged), None);
    let prev = user("user01", "Old");
    assert_eq!(
        event_for(e.clone(), CacheEntryStatus::Changed(prev.clone())),
        Some(EntryStatus::Changed(e, prev))
    );
}

#[test]
fn cycle_events() {
    let cfg = config(true);
    let mut cache = Cache::new(cfg.cache_method);
    cache.start_comparison();
    let u1 = user("user01", "MyName1");
    let u2 = user("user02", "MyName2");
    assert_eq!(
        observe_entry(&mut cache, u1.clone(), &cfg.attributes),
        Ok(Some(EntryStatus::New(u1.clone())))
    );
    assert_eq!(
        observe_entry(&mut cache, u2.clone(), &cfg.attributes),
        Ok(Some(EntryStatus::New(u2.clone())))
    );
    assert!(removal_events(&mut cache, true).is_empty());

    cache.start_comparison();
    let u1_new = user("user01", "MyNameNew");
    assert_eq!(
        observe_entry(&mut cache, u1_new.clone(), &cfg.attributes),
        Ok(Some(EntryStatus::Changed(u1_new, u1)))
    );
    assert_eq!(
        removal_events(&mut cache, true),
        vec![EntryStatus::Removed(b"user02".to_vec())]
    );
    assert!(removal_events(&mut cache, false).is_empty());

    let anonymous = SerializedSearchEntry::new("cn=nobody");
    assert_eq!(observe_entry(&mut cache, anonymous, &cfg.attributes), Err(Error::Missing));
}
