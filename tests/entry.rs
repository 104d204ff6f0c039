use ldap_poller::{Error, SearchEntryExt, SerializedSearchEntry};

fn named_entry() -> SerializedSearchEntry {
    SerializedSearchEntry {
        dn: String::from("dontcare"),
        attrs: vec![(
            String::from("name"),
            vec![String::from("Foo Bar"), String::from("Bar McBaz")],
        )],
        bin_attrs: Vec::new(),
    }
}

#[test]
fn cache_attr_first() {
    let entry = named_entry();
    assert_eq!(
        entry.attr_first("attribute_does_not_exist"),
        None,
        "Undefined attributes should return None"
    );
    assert_eq!(entry.attr_first("name"), Some("Foo Bar"), "Should return the first value");
    assert_ne!(entry.attr_first("name"), Some("Bar McBaz"), "Should return the correct value");
}

#[test]
fn entry_attr_first() {
    let mut entry = SerializedSearchEntry::new("dontcare");
    entry.set_attr("name", vec![String::from("Foo Bar"), String::from("Bar McBaz")]);
    assert_eq!(
        entry.attr_first("attribute_does_not_exist"),
        None,
        "Undefined attributes should return None"
    );
    assert_eq!(entry.attr_first("name"), Some("Foo Bar"), "Should return the first value");
    assert_ne!(entry.attr_first("name"), Some("Bar McBaz"), "Should return the correct value");
}

#[test]
fn bin_attr_first_prefers_text() {
    let mut entry = SerializedSearchEntry::new("cn=a");
    entry.set_bin_attr("guid", vec![vec![1, 2, 3]]);
    assert_eq!(entry.bin_attr_first("guid"), Some(&[1u8, 2, 3][..]));
    entry.set_attr("guid", vec![String::from("ab")]);
    assert_eq!(entry.bin_attr_first("guid"), Some(&b"ab"[..]));
    assert_eq!(entry.bin_attr_first("other"), None);
}

#[test]
fn bin_attr_first_falls_back_on_empty_text() {
    let mut entry = SerializedSearchEntry::new("cn=a");
    entry.set_attr("guid", Vec::new());
    entry.set_bin_attr("guid", vec![vec![9]]);
    assert_eq!(entry.attr_first("guid"), None);
    assert_eq!(entry.bin_attr_first("guid"), Some(&[9u8][..]));
}

#[test]
fn bin_attr_first_encodes_utf8() {
    let mut entry = SerializedSearchEntry::new("cn=a");
    entry.set_attr("name", vec![String::from("é")]);
    assert_eq!(entry.bin_attr_first("name"), Some(&[0xc3u8, 0xa9][..]));
}

#[test]
fn first_pair_of_a_name_wins() {
    let entry = SerializedSearchEntry {
        dn: String::from("cn=a"),
        attrs: vec![
            (String::from("x"), vec![String::from("one")]),
            (String::from("x"), vec![String::from("two")]),
        ],
        bin_attrs: Vec::new(),
    };
    assert_eq!(entry.attr_first("x"), Some("one"));
}

#[test]
fn set_attr_replaces_values() {
    let mut entry = SerializedSearchEntry::new("cn=a");
    entry.set_attr("x", vec![String::from("1")]);
    entry.set_attr("y", vec![String::from("y")]);
    entry.set_attr("x", vec![String::from("2")]);
    assert_eq!(entry.attrs.len(), 2);
    assert_eq!(entry.attr_first("x"), Some("2"));
    assert_eq!(entry.attr_first("y"), Some("y"));
}

#[test]
fn bool_first_reads_booleans() {
    let mut entry = SerializedSearchEntry::new("cn=a");
    entry.set_attr("t", vec![String::from("TRUE")]);
    entry.set_attr("f", vec![String::from("FALSE")]);
    entry.set_attr("bad", vec![String::from("yes")]);
    assert_eq!(entry.bool_first("t"), Some(Ok(true)));
    assert_eq!(entry.bool_first("f"), Some(Ok(false)));
    assert_eq!(entry.bool_first("bad"), Some(Err(Error::Invalid(String::from("bad")))));
    assert_eq!(entry.bool_first("absent"), None);
}

#[test]
fn snapshot_is_equal() {
    let mut entry = named_entry();
    entry.set_bin_attr("guid", vec![vec![7, 8]]);
    assert_eq!(entry.snapshot(), entry);
}
