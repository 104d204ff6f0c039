//! Directory entries and the uniform reading of their attributes.
use vstd::prelude::*;
use vstd::utf8::encode_utf8;

use crate::bytes::{copy_bytes, str_equal};
use crate::error::Error;

verus! {

/// The mathematical model of an entry: its name and its two attribute lists,
/// each a sequence of (attribute name, values) pairs.
pub struct EntryView {
    pub dn: Seq<char>,
    pub attrs: Seq<(Seq<char>, Seq<Seq<char>>)>,
    pub bin_attrs: Seq<(Seq<char>, Seq<Seq<u8>>)>,
}

/// The values of the first pair in `list` whose name is `name`.
pub open spec fn values_of<V>(list: Seq<(Seq<char>, V)>, name: Seq<char>) -> Option<V> {
    if exists|i: int| is_first_named(list, name, i) {
        Some(list[choose|i: int| is_first_named(list, name, i)].1)
    } else {
        None
    }
}

/// `i` is the position of the first pair in `list` named `name`.
pub open spec fn is_first_named<V>(list: Seq<(Seq<char>, V)>, name: Seq<char>, i: int) -> bool {
    &&& 0 <= i < list.len()
    &&& list[i].0 == name
    &&& forall|j: int| 0 <= j < i ==> list[j].0 != name
}

/// The first text value of attribute `name`.
pub open spec fn text_first(e: EntryView, name: Seq<char>) -> Option<Seq<char>> {
    match values_of(e.attrs, name) {
        Some(vals) => if vals.len() > 0 {
            Some(vals[0])
        } else {
            None
        },
        None => None,
    }
}

/// The first binary value of attribute `name`, read from the binary list only.
pub open spec fn binary_first(e: EntryView, name: Seq<char>) -> Option<Seq<u8>> {
    match values_of(e.bin_attrs, name) {
        Some(vals) => if vals.len() > 0 {
            Some(vals[0])
        } else {
            None
        },
        None => None,
    }
}

/// The first value of attribute `name` as bytes: the text value, encoded as
/// UTF-8, where there is one, else the binary value.
pub open spec fn bytes_first(e: EntryView, name: Seq<char>) -> Option<Seq<u8>> {
    match text_first(e, name) {
        Some(s) => Some(encode_utf8(s)),
        None => binary_first(e, name),
    }
}

/// Finds the position of the first pair in `list` named `name`.
fn position_of<V: DeepView>(list: &Vec<(String, V)>, name: &str) -> (r: Option<usize>)
    ensures
        match r {
            Some(i) => is_first_named(list.deep_view(), name@, i as int),
            None => forall|j: int| 0 <= j < list@.len() ==> list.deep_view()[j].0 != name@,
        },
{
    let mut i: usize = 0;
    while i < list.len()
        invariant
            0 <= i <= list@.len(),
            forall|j: int| 0 <= j < i ==> list.deep_view()[j].0 != name@,
        decreases list@.len() - i,
    {
        if str_equal(list[i].0.as_str(), name) {
            return Some(i);
        }
        i = i + 1;
    }
    None
}

/// Returns an owned copy of a list of text values.
fn copy_texts(v: &Vec<String>) -> (r: Vec<String>)
    ensures
        r.deep_view() == v.deep_view(),
{
    let mut r: Vec<String> = Vec::new();
    let mut i: usize = 0;
    while i < v.len()
        invariant
            0 <= i <= v@.len(),
            r@.len() == i,
            forall|k: int| 0 <= k < i ==> r@[k]@ == v@[k]@,
        decreases v@.len() - i,
    {
        r.push(v[i].clone());
        i = i + 1;
    }
    assert(r.deep_view() =~= v.deep_view());
    r
}

/// Returns an owned copy of a list of binary values.
fn copy_binaries(v: &Vec<Vec<u8>>) -> (r: Vec<Vec<u8>>)
    ensures
        r.deep_view() == v.deep_view(),
{
    let mut r: Vec<Vec<u8>> = Vec::new();
    let mut i: usize = 0;
    while i < v.len()
        invariant
            0 <= i <= v@.len(),
            r@.len() == i,
            forall|k: int| 0 <= k < i ==> r@[k]@ == v@[k]@,
        decreases v@.len() - i,
    {
        r.push(copy_bytes(v[i].as_slice()));
        i = i + 1;
    }
    assert(r.deep_view() =~= v.deep_view());
    r
}

/// Replaces the values of the first pair named `name`, or appends a new pair.
fn put_values<V: DeepView>(list: &mut Vec<(String, V)>, name: String, values: V)
    ensures
        values_of(final(list).deep_view(), name@) == Some(values.deep_view()),
        forall|other: Seq<char>|
            other != name@ ==> values_of(final(list).deep_view(), other) == values_of(
                old(list).deep_view(),
                other,
            ),
{
    let ghost before = list.deep_view();
    match position_of(list, name.as_str()) {
        Some(i) => {
            list.set(i, (name, values));
            proof {
                let after = list.deep_view();
                assert forall|j: int| 0 <= j < before.len() && j != i implies after[j]
                    == before[j] by {
                    assert(list@[j] == old(list)@[j]);
                }
                assert(is_first_named(after, after[i as int].0, i as int));
                lemma_first_named_unique(after, after[i as int].0, i as int);
                assert forall|other: Seq<char>| other != after[i as int].0 implies values_of(
                    after,
                    other,
                ) == values_of(before, other) by {
                    lemma_same_names_same_lookup(before, after, i as int, other);
                }
            }
        },
        None => {
            list.push((name, values));
            proof {
                let after = list.deep_view();
                assert(after =~= before.push(after[before.len() as int]));
                assert(is_first_named(after, after[before.len() as int].0, before.len() as int));
                lemma_first_named_unique(after, after[before.len() as int].0, before.len() as int);
                assert forall|other: Seq<char>| other != after[before.len() as int].0 implies values_of(
                    after,
                    other,
                ) == values_of(before, other) by {
                    lemma_push_other_lookup(before, after[before.len() as int], other);
                }
            }
        },
    }
}

proof fn lemma_same_names_same_lookup<V>(
    before: Seq<(Seq<char>, V)>,
    after: Seq<(Seq<char>, V)>,
    i: int,
    other: Seq<char>,
)
    requires
        0 <= i < before.len(),
        after.len() == before.len(),
        forall|j: int| 0 <= j < before.len() && j != i ==> after[j] == before[j],
        after[i].0 == before[i].0,
        other != after[i].0,
    ensures
        values_of(after, other) == values_of(before, other),
{
    if exists|k: int| is_first_named(before, other, k) {
        let k = choose|k: int| is_first_named(before, other, k);
        assert(is_first_named(after, other, k));
        lemma_first_named_unique(before, other, k);
        lemma_first_named_unique(after, other, k);
    } else {
        if exists|k: int| is_first_named(after, other, k) {
            let k = choose|k: int| is_first_named(after, other, k);
            assert forall|j: int| 0 <= j < k implies before[j].0 != other by {
                assert(after[j].0 != other);
            }
            assert(is_first_named(before, other, k));
        }
    }
}

proof fn lemma_push_other_lookup<V>(
    before: Seq<(Seq<char>, V)>,
    pair: (Seq<char>, V),
    other: Seq<char>,
)
    requires
        other != pair.0,
    ensures
        values_of(before.push(pair), other) == values_of(before, other),
{
    let after = before.push(pair);
    if exists|k: int| is_first_named(before, other, k) {
        let k = choose|k: int| is_first_named(before, other, k);
        assert(is_first_named(after, other, k));
        lemma_first_named_unique(before, other, k);
        lemma_first_named_unique(after, other, k);
    } else {
        if exists|k: int| is_first_named(after, other, k) {
            let k = choose|k: int| is_first_named(after, other, k);
            assert(k < before.len());
            assert forall|j: int| 0 <= j < k implies before[j].0 != other by {
                assert(after[j].0 != other);
            }
            assert(is_first_named(before, other, k));
        }
    }
}

proof fn lemma_first_named_unique<V>(list: Seq<(Seq<char>, V)>, name: Seq<char>, i: int)
    requires
        is_first_named(list, name, i),
    ensures
        values_of(list, name) == Some(list[i].1),
{
    let k = choose|k: int| is_first_named(list, name, k);
    assert(is_first_named(list, name, k));
    if k < i {
        assert(list[k].0 != name);
    } else if i < k {
        assert(list[i].0 != name);
    }
}

proof fn lemma_none_named<V>(list: Seq<(Seq<char>, V)>, name: Seq<char>)
    requires
        forall|j: int| 0 <= j < list.len() ==> list[j].0 != name,
    ensures
        values_of(list, name) == None::<V>,
{
}

/// Serialized version of a search entry: its name and its attributes as
/// lists of (name, values) pairs. Where a name occurs in more than one pair
/// of a list, the first such pair is the one read.
#[derive(Debug, Clone, PartialEq, Eq)]
pub struct SerializedSearchEntry {
    /// Entry DN.
    pub dn: String,
    /// Text-valued attributes, as (name, values) pairs.
    pub attrs: Vec<(String, Vec<String>)>,
    /// Binary-valued attributes, as (name, values) pairs.
    pub bin_attrs: Vec<(String, Vec<Vec<u8>>)>,
}

impl View for SerializedSearchEntry {
    type V = EntryView;

    open spec fn view(&self) -> EntryView {
        EntryView {
            dn: self.dn@,
            attrs: self.attrs.deep_view(),
            bin_attrs: self.bin_attrs.deep_view(),
        }
    }
}

/// Uniform reading of an entry's attributes: the first value of an
/// attribute as text, as bytes, or as a boolean.
pub trait SearchEntryExt {
    /// The model of the entry read.
    spec fn entry_view(&self) -> EntryView;

    /// Get the first value of an attribute.
    fn attr_first(&self, attr: &str) -> (r: Option<&str>)
        ensures
            match r {
                Some(s) => text_first(self.entry_view(), attr@) == Some(s@),
                None => text_first(self.entry_view(), attr@) == None::<Seq<char>>,
            },
    ;

    /// Get the first value of an attribute, in binary form: the text value as
    /// UTF-8 bytes where there is one, else the binary value.
    fn bin_attr_first(&self, attr: &str) -> (r: Option<&[u8]>)
        ensures
            match r {
                Some(b) => bytes_first(self.entry_view(), attr@) == Some(b@),
                None => bytes_first(self.entry_view(), attr@) == None::<Seq<u8>>,
            },
    ;

    /// Get the first value of an attribute, interpreted as a boolean.
    fn bool_first(&self, attr: &str) -> (r: Option<Result<bool, Error>>)
        ensures
            match text_first(self.entry_view(), attr@) {
                None => r is None,
                Some(v) => if v == "TRUE"@ {
                    r == Some(Ok::<bool, Error>(true))
                } else if v == "FALSE"@ {
                    r == Some(Ok::<bool, Error>(false))
                } else {
                    r matches Some(Err(Error::Invalid(name))) && name@ == attr@
                },
            },
    {
        proof {
            reveal_strlit("TRUE");
            reveal_strlit("FALSE");
        }
        match self.attr_first(attr) {
            Some(v) => if str_equal(v, "TRUE") {
                Some(Ok(true))
            } else if str_equal(v, "FALSE") {
                Some(Ok(false))
            } else {
                Some(Err(Error::Invalid(attr.to_owned())))
            },
            None => None,
        }
    }
}

impl SearchEntryExt for SerializedSearchEntry {
    open spec fn entry_view(&self) -> EntryView {
        self@
    }

    /// Get the first value of an attribute.
    fn attr_first(&self, attr: &str) -> (r: Option<&str>) {
        match position_of(&self.attrs, attr) {
            Some(i) => {
                proof {
                    lemma_first_named_unique(self@.attrs, attr@, i as int);
                }
                let vals = &self.attrs[i].1;
                if vals.len() > 0 {
                    Some(vals[0].as_str())
                } else {
                    None
                }
            },
            None => {
                proof {
                    lemma_none_named(self@.attrs, attr@);
                }
                None
            },
        }
    }

    /// Get the first value of an attribute, in binary form: the text value as
    /// UTF-8 bytes where there is one, else the binary value.
    fn bin_attr_first(&self, attr: &str) -> (r: Option<&[u8]>) {
        if let Some(text) = self.attr_first(attr) {
            return Some(text.as_bytes());
        }
        match position_of(&self.bin_attrs, attr) {
            Some(i) => {
                proof {
                    lemma_first_named_unique(self@.bin_attrs, attr@, i as int);
                }
                let vals = &self.bin_attrs[i].1;
                if vals.len() > 0 {
                    Some(vals[0].as_slice())
                } else {
                    None
                }
            },
            None => {
                proof {
                    lemma_none_named(self@.bin_attrs, attr@);
                }
                None
            },
        }
    }
}

impl SerializedSearchEntry {
    /// An entry with the given name and no attributes.
    pub fn new(dn: &str) -> (r: Self)
        ensures
            r@.dn == dn@,
            r@.attrs.len() == 0,
            r@.bin_attrs.len() == 0,
    {
        let r = SerializedSearchEntry { dn: dn.to_owned(), attrs: Vec::new(), bin_attrs: Vec::new() };
        proof {
            assert(r@.attrs =~= Seq::empty());
            assert(r@.bin_attrs =~= Seq::empty());
        }
        r
    }

    /// Sets the text values of an attribute, replacing any it had.
    pub fn set_attr(&mut self, name: &str, values: Vec<String>)
        ensures
            final(self)@.dn == old(self)@.dn,
            final(self)@.bin_attrs == old(self)@.bin_attrs,
            values_of(final(self)@.attrs, name@) == Some(values.deep_view()),
            forall|other: Seq<char>|
                other != name@ ==> values_of(final(self)@.attrs, other) == values_of(
                    old(self)@.attrs,
                    other,
                ),
    {
        put_values(&mut self.attrs, name.to_owned(), values);
    }

    /// Sets the binary values of an attribute, replacing any it had.
    pub fn set_bin_attr(&mut self, name: &str, values: Vec<Vec<u8>>)
        ensures
            final(self)@.dn == old(self)@.dn,
            final(self)@.attrs == old(self)@.attrs,
            values_of(final(self)@.bin_attrs, name@) == Some(values.deep_view()),
            forall|other: Seq<char>|
                other != name@ ==> values_of(final(self)@.bin_attrs, other) == values_of(
                    old(self)@.bin_attrs,
                    other,
                ),
    {
        put_values(&mut self.bin_attrs, name.to_owned(), values);
    }

    /// An exact copy of this entry, kept as the stored snapshot of an entity.
    pub fn snapshot(&self) -> (r: Self)
        ensures
            r@ == self@,
    {
        let mut attrs: Vec<(String, Vec<String>)> = Vec::new();
        let mut i: usize = 0;
        while i < self.attrs.len()
            invariant
                0 <= i <= self@.attrs.len(),
                attrs@.len() == i,
                forall|k: int|
                    0 <= k < i ==> #[trigger] attrs@[k].0@ == self.attrs@[k].0@
                        && attrs@[k].1.deep_view() == self.attrs@[k].1.deep_view(),
            decreases self@.attrs.len() - i,
        {
            attrs.push((self.attrs[i].0.clone(), copy_texts(&self.attrs[i].1)));
            i = i + 1;
        }
        let mut bin_attrs: Vec<(String, Vec<Vec<u8>>)> = Vec::new();
        let mut j: usize = 0;
        while j < self.bin_attrs.len()
            invariant
                0 <= j <= self@.bin_attrs.len(),
                bin_attrs@.len() == j,
                forall|k: int|
                    0 <= k < j ==> #[trigger] bin_attrs@[k].0@ == self.bin_attrs@[k].0@
                        && bin_attrs@[k].1.deep_view() == self.bin_attrs@[k].1.deep_view(),
            decreases self@.bin_attrs.len() - j,
        {
            bin_attrs.push((self.bin_attrs[j].0.clone(), copy_binaries(&self.bin_attrs[j].1)));
            j = j + 1;
        }
        let r = SerializedSearchEntry { dn: self.dn.clone(), attrs, bin_attrs };
        proof {
            assert(r@.attrs =~= self@.attrs);
            assert(r@.bin_attrs =~= self@.bin_attrs);
        }
        r
    }
}

} // verus!
