//! The document store: key/value documents in YAML, read, overlaid and written
//! back as text. Reading and writing the file is the caller's part; a file that
//! does not exist is handed over as `None`.

use vstd::prelude::*;
use vstd::pervasive::VecAdditionalExecFns;
use crate::error::ExpmanError;
use crate::order::reversed;
use crate::text::str_eq;

verus! {

/// `serde_yaml::Value`: any YAML value. Opaque here: values are carried, never
/// looked into.
#[verifier::external_type_specification]
#[verifier::external_body]
pub struct ExYamlValue(serde_yaml::Value);

/// The error of `serde_yaml`. Opaque here.
#[verifier::external_type_specification]
#[verifier::external_body]
pub struct ExYamlError(serde_yaml::Error);

/// The entries of a document: keys with their values, in order.
pub type Entries = Vec<(String, serde_yaml::Value)>;

/// Entries as the contracts see them.
pub type EntriesView = Seq<(Seq<char>, serde_yaml::Value)>;

/// The contract-level content of a list of entries.
pub open spec fn entries_view(entries: Seq<(String, serde_yaml::Value)>) -> EntriesView {
    Seq::new(entries.len(), |i: int| (entries[i].0@, entries[i].1))
}

/// The entries of the YAML mapping that a text holds, sorted by key, each key
/// read as text; `None` where the text is no mapping or a key is no scalar.
pub uninterp spec fn yaml_entries(text: Seq<char>) -> Option<EntriesView>;

/// The YAML text of the mapping with the given entries, in their order; `None`
/// where it cannot be serialised.
pub uninterp spec fn yaml_text(entries: EntriesView) -> Option<Seq<char>>;

/// No key occurs twice.
pub open spec fn distinct_keys(entries: EntriesView) -> bool {
    forall|i: int, j: int| 0 <= i < j < entries.len() ==> (#[trigger] entries[i]).0 != (#[trigger] entries[j]).0
}

/// Calls `serde_yaml::from_str` for a `BTreeMap` from text to `Value` and lists
/// the map's entries, which come sorted by key, each key once.
#[verifier::external_body]
pub(crate) fn parse_entries(text: &str) -> (r: Result<Entries, serde_yaml::Error>)
    ensures
        match r {
            Ok(entries) => yaml_entries(text@) == Some(entries_view(entries@)) && distinct_keys(
                entries_view(entries@),
            ),
            Err(_) => yaml_entries(text@) is None,
        },
{
    let map: std::collections::BTreeMap<String, serde_yaml::Value> = serde_yaml::from_str(text)?;
    Ok(map.into_iter().collect())
}

/// Gathers the entries into a `serde_yaml::Mapping`, each key as a text value,
/// and calls `serde_yaml::to_string` on it.
#[verifier::external_body]
pub(crate) fn entries_to_text(entries: &Entries) -> (r: Result<String, serde_yaml::Error>)
    ensures
        match r {
            Ok(text) => yaml_text(entries_view(entries@)) == Some(text@),
            Err(_) => yaml_text(entries_view(entries@)) is None,
        },
{
    let mapping: serde_yaml::Mapping = entries.iter().map(
        |(k, v)| (serde_yaml::Value::String(k.clone()), v.clone()),
    ).collect();
    serde_yaml::to_string(&mapping)
}

/// Calls `to_string` on an error of `serde_yaml`.
#[verifier::external_body]
pub(crate) fn yaml_error_text(e: &serde_yaml::Error) -> String {
    e.to_string()
}

/// Index of the first entry from `from` on under `key`; the number of entries
/// where there is none.
pub open spec fn key_index(entries: EntriesView, key: Seq<char>, from: int) -> int
    decreases entries.len() - from,
{
    if from >= entries.len() {
        entries.len() as int
    } else if entries[from].0 == key {
        from
    } else {
        key_index(entries, key, from + 1)
    }
}

/// The entries with `value` under `key`: in the place of the entry that was
/// under the key, or at the end where there was none.
pub open spec fn put(entries: EntriesView, key: Seq<char>, value: serde_yaml::Value) -> EntriesView {
    let i = key_index(entries, key, 0);
    if i < entries.len() {
        entries.update(i, (key, value))
    } else {
        entries.push((key, value))
    }
}

/// The entries with the updates laid over them, one after the other.
pub open spec fn overlay(entries: EntriesView, updates: EntriesView) -> EntriesView
    decreases updates.len(),
{
    if updates.len() == 0 {
        entries
    } else {
        put(overlay(entries, updates.drop_last()), updates.last().0, updates.last().1)
    }
}

/// The mapping that a list of entries stands for: each key with the value of
/// its last entry.
pub open spec fn entries_map(entries: EntriesView) -> Map<Seq<char>, serde_yaml::Value>
    decreases entries.len(),
{
    if entries.len() == 0 {
        Map::empty()
    } else {
        entries_map(entries.drop_last()).insert(entries.last().0, entries.last().1)
    }
}

/// What `key_index` finds: nothing before it bears the key, and it bears the
/// key unless it is the end.
pub proof fn lemma_key_index(entries: EntriesView, key: Seq<char>, from: int)
    requires
        0 <= from <= entries.len(),
    ensures
        from <= key_index(entries, key, from) <= entries.len(),
        key_index(entries, key, from) < entries.len() ==> entries[key_index(entries, key, from)].0 == key,
        forall|j: int| from <= j < key_index(entries, key, from) ==> (#[trigger] entries[j]).0 != key,
    decreases entries.len() - from,
{
    if from < entries.len() && entries[from].0 != key {
        lemma_key_index(entries, key, from + 1);
    }
}

/// The first entry under a key is what `key_index` finds.
pub proof fn lemma_key_index_is(entries: EntriesView, key: Seq<char>, i: int)
    requires
        0 <= i <= entries.len(),
        i < entries.len() ==> entries[i].0 == key,
        forall|j: int| 0 <= j < i ==> (#[trigger] entries[j]).0 != key,
    ensures
        key_index(entries, key, 0) == i,
{
    lemma_key_index(entries, key, 0);
}

/// Putting a value under a key keeps the keys distinct.
pub proof fn lemma_put_distinct(entries: EntriesView, key: Seq<char>, value: serde_yaml::Value)
    requires
        distinct_keys(entries),
    ensures
        distinct_keys(put(entries, key, value)),
{
    lemma_key_index(entries, key, 0);
    let i = key_index(entries, key, 0);
    let after = put(entries, key, value);
    assert forall|a: int, b: int| 0 <= a < b < after.len() implies (#[trigger] after[a]).0 != (#[trigger] after[b]).0 by {
        if i < entries.len() {
            assert(after[a].0 == entries[a].0);
            assert(after[b].0 == entries[b].0);
        } else {
            if b < entries.len() {
                assert(after[a] == entries[a]);
                assert(after[b] == entries[b]);
            } else {
                assert(after[a] == entries[a]);
            }
        }
    }
}

/// Putting a value under a key is an insertion into the mapping.
pub proof fn lemma_put_map(entries: EntriesView, key: Seq<char>, value: serde_yaml::Value)
    requires
        distinct_keys(entries),
    ensures
        entries_map(put(entries, key, value)) == entries_map(entries).insert(key, value),
    decreases entries.len(),
{
    lemma_key_index(entries, key, 0);
    let i = key_index(entries, key, 0);
    let n = entries.len() as int;
    let after = put(entries, key, value);
    if i == n {
        assert(after.drop_last() =~= entries);
    } else if i == n - 1 {
        assert(after.drop_last() =~= entries.drop_last());
        assert(entries_map(after) =~= entries_map(entries).insert(key, value));
    } else {
        let front = entries.drop_last();
        assert(distinct_keys(front)) by {
            assert forall|a: int, b: int| 0 <= a < b < front.len() implies (#[trigger] front[a]).0 != (
            #[trigger] front[b]).0 by {
                assert(front[a] == entries[a]);
                assert(front[b] == entries[b]);
            }
        }
        assert(front[i] == entries[i]);
        assert forall|j: int| 0 <= j < i implies (#[trigger] front[j]).0 != key by {
            assert(front[j] == entries[j]);
        }
        lemma_key_index_is(front, key, i);
        assert(after.drop_last() =~= put(front, key, value));
        lemma_put_map(front, key, value);
        assert(after.last() == entries.last());
        assert(entries[i].0 != entries[n - 1].0);
        assert(entries_map(after) =~= entries_map(entries).insert(key, value));
    }
}

/// Laying updates over entries keeps the keys distinct, and in the mapping
/// every key of the updates has the value of its last update, every other key
/// the value it had.
pub proof fn lemma_overlay_map(entries: EntriesView, updates: EntriesView)
    requires
        distinct_keys(entries),
    ensures
        distinct_keys(overlay(entries, updates)),
        entries_map(overlay(entries, updates)) == entries_map(entries).union_prefer_right(
            entries_map(updates),
        ),
    decreases updates.len(),
{
    if updates.len() == 0 {
        assert(entries_map(entries) =~= entries_map(entries).union_prefer_right(entries_map(updates)));
    } else {
        let before = overlay(entries, updates.drop_last());
        lemma_overlay_map(entries, updates.drop_last());
        lemma_put_distinct(before, updates.last().0, updates.last().1);
        lemma_put_map(before, updates.last().0, updates.last().1);
        assert(entries_map(overlay(entries, updates)) =~= entries_map(entries).union_prefer_right(
            entries_map(updates),
        ));
    }
}

/// A key/value document. Its keys are distinct.
pub struct Document {
    pub entries: Entries,
}

impl Document {
    /// No key occurs twice.
    pub open spec fn wf(self) -> bool {
        distinct_keys(entries_view(self.entries@))
    }

    /// The mapping that the document stands for.
    pub open spec fn map(self) -> Map<Seq<char>, serde_yaml::Value> {
        entries_map(entries_view(self.entries@))
    }

    /// The document without entries.
    pub fn new() -> (d: Document)
        ensures
            d.entries@.len() == 0,
            d.wf(),
            d.map() == Map::<Seq<char>, serde_yaml::Value>::empty(),
    {
        Document { entries: Vec::new() }
    }

    /// Whether no key occurs twice: a caller that built a document by hand asks
    /// this before it hands the document to the store.
    pub fn is_well_formed(&self) -> (r: bool)
        ensures
            r == self.wf(),
    {
        let ghost all = entries_view(self.entries@);
        let mut j: usize = 0;
        while j < self.entries.len()
            invariant
                j <= self.entries.len(),
                all == entries_view(self.entries@),
                forall|a: int, b: int| 0 <= a < b < j ==> (#[trigger] all[a]).0 != (#[trigger] all[b]).0,
            decreases self.entries.len() - j,
        {
            let mut i: usize = 0;
            while i < j
                invariant
                    i <= j < self.entries.len(),
                    all == entries_view(self.entries@),
                    forall|a: int| 0 <= a < i ==> (#[trigger] all[a]).0 != all[j as int].0,
                decreases j - i,
            {
                assert(all[i as int].0 == self.entries@[i as int].0@);
                assert(all[j as int].0 == self.entries@[j as int].0@);
                if str_eq(self.entries[i].0.as_str(), self.entries[j].0.as_str()) {
                    return false;
                }
                i += 1;
            }
            j += 1;
        }
        true
    }

    /// Index of the entry under `key`.
    pub fn position(&self, key: &str) -> (r: Option<usize>)
        ensures
            match r {
                Some(i) => i < self.entries@.len() && key_index(entries_view(self.entries@), key@, 0) == i,
                None => key_index(entries_view(self.entries@), key@, 0) == self.entries@.len(),
            },
    {
        let ghost all = entries_view(self.entries@);
        let mut i: usize = 0;
        while i < self.entries.len()
            invariant
                i <= self.entries.len(),
                all == entries_view(self.entries@),
                key_index(all, key@, 0) == key_index(all, key@, i as int),
            decreases self.entries.len() - i,
        {
            assert(all[i as int].0 == self.entries@[i as int].0@);
            if str_eq(self.entries[i].0.as_str(), key) {
                return Some(i);
            }
            i += 1;
        }
        None
    }

    /// Whether the document has an entry under `key`.
    pub fn contains_key(&self, key: &str) -> (r: bool)
        requires
            self.wf(),
        ensures
            r == self.map().dom().contains(key@),
    {
        let found = self.position(key);
        proof {
            lemma_map_domain(entries_view(self.entries@), key@);
        }
        found.is_some()
    }

    /// The value under `key`, if there is one.
    pub fn get(&self, key: &str) -> (r: Option<&serde_yaml::Value>)
        requires
            self.wf(),
        ensures
            match r {
                Some(v) => self.map().dom().contains(key@) && self.map()[key@] == *v,
                None => !self.map().dom().contains(key@),
            },
    {
        proof {
            lemma_map_domain(entries_view(self.entries@), key@);
        }
        match self.position(key) {
            Some(i) => {
                assert(entries_view(self.entries@)[i as int].1 == self.entries@[i as int].1);
                Some(&self.entries[i].1)
            },
            None => None,
        }
    }

    /// Puts `value` under `key`, in the place of the value that was there, if
    /// any.
    pub fn insert(&mut self, key: String, value: serde_yaml::Value)
        requires
            old(self).wf(),
        ensures
            final(self).wf(),
            entries_view(final(self).entries@) == put(entries_view(old(self).entries@), key@, value),
            final(self).map() == old(self).map().insert(key@, value),
    {
        let ghost before = entries_view(self.entries@);
        proof {
            lemma_put_distinct(before, key@, value);
            lemma_put_map(before, key@, value);
        }
        match self.position(key.as_str()) {
            Some(i) => {
                self.entries.set(i, (key, value));
                assert(entries_view(self.entries@) =~= before.update(i as int, (key@, value)));
            },
            None => {
                self.entries.push((key, value));
                assert(entries_view(self.entries@) =~= before.push((key@, value)));
            },
        }
    }

    /// Lays `updates` over the document, one after the other: a key that the
    /// document has gets the new value, any other is added at the end.
    pub fn merge(&mut self, updates: Entries)
        requires
            old(self).wf(),
        ensures
            final(self).wf(),
            entries_view(final(self).entries@) == overlay(
                entries_view(old(self).entries@),
                entries_view(updates@),
            ),
            final(self).map() == old(self).map().union_prefer_right(entries_map(entries_view(updates@))),
    {
        let ghost base = entries_view(self.entries@);
        let ghost all = entries_view(updates@);
        let ghost n = all.len() as int;
        let mut stack = reversed(updates);
        assert(all.take(0) =~= Seq::empty());
        while stack.len() > 0
            invariant
                n == all.len(),
                stack@.len() <= n,
                distinct_keys(base),
                entries_view(stack@).reverse() == all.skip(n - stack@.len()),
                entries_view(self.entries@) == overlay(base, all.take(n - stack@.len())),
                self.wf(),
            decreases stack.len(),
        {
            let ghost before_stack = entries_view(stack@);
            let ghost at = n - stack@.len();
            let (key, value) = stack.pop().unwrap();
            proof {
                assert(entries_view(stack@) =~= before_stack.drop_last());
                assert(before_stack.reverse()[0] == before_stack.last());
                assert((key@, value) == all[at]);
                assert(entries_view(stack@).reverse() =~= before_stack.reverse().skip(1));
                assert(all.skip(at).skip(1) =~= all.skip(at + 1));
                assert(all.take(at + 1).drop_last() =~= all.take(at));
                assert(all.take(at + 1).last() == all[at]);
            }
            self.insert(key, value);
        }
        proof {
            assert(all.take(n) =~= all);
            lemma_overlay_map(base, all);
        }
    }
}

/// A key is in the mapping of entries exactly where some entry bears it, and
/// where the keys are distinct its value is that of the entry.
pub proof fn lemma_map_domain(entries: EntriesView, key: Seq<char>)
    requires
        distinct_keys(entries),
    ensures
        entries_map(entries).dom().contains(key) <==> key_index(entries, key, 0) < entries.len(),
        key_index(entries, key, 0) < entries.len() ==> entries_map(entries)[key] == entries[key_index(
            entries,
            key,
            0,
        )].1,
    decreases entries.len(),
{
    lemma_key_index(entries, key, 0);
    if entries.len() > 0 {
        let front = entries.drop_last();
        assert(distinct_keys(front)) by {
            assert forall|a: int, b: int| 0 <= a < b < front.len() implies (#[trigger] front[a]).0 != (
            #[trigger] front[b]).0 by {
                assert(front[a] == entries[a]);
                assert(front[b] == entries[b]);
            }
        }
        lemma_map_domain(front, key);
        lemma_key_index(front, key, 0);
        let i = key_index(entries, key, 0);
        let f = key_index(front, key, 0);
        if f < front.len() {
            assert(front[f] == entries[f]);
            assert forall|j: int| 0 <= j < f implies (#[trigger] entries[j]).0 != key by {
                assert(front[j] == entries[j]);
            }
            lemma_key_index_is(entries, key, f);
            assert(entries[f].0 != entries.last().0);
        } else {
            assert forall|j: int| 0 <= j < front.len() implies (#[trigger] entries[j]).0 != key by {
                assert(front[j] == entries[j]);
            }
        }
    }
}

/// The entries that a document file holds: none where there is no file or it
/// cannot be parsed.
pub open spec fn entries_or_empty(file: Option<Seq<char>>) -> EntriesView {
    match file {
        Some(text) => match yaml_entries(text) {
            Some(entries) => entries,
            None => Seq::empty(),
        },
        None => Seq::empty(),
    }
}

/// Reads a document from the text of its file. A file that does not exist
/// gives the empty document; one that cannot be parsed fails with `Yaml`.
pub fn load_document(file: Option<&str>) -> (r: Result<Document, ExpmanError>)
    ensures
        match r {
            Ok(d) => {
                &&& d.wf()
                &&& match file {
                    Some(text) => yaml_entries(text@) == Some(entries_view(d.entries@)),
                    None => d.entries@.len() == 0,
                }
            },
            Err(ExpmanError::Yaml(_)) => file matches Some(text) && yaml_entries(text@) is None,
            Err(_) => false,
        },
{
    match file {
        Some(text) => match parse_entries(text) {
            Ok(entries) => Ok(Document { entries }),
            Err(e) => Err(ExpmanError::Yaml(yaml_error_text(&e))),
        },
        None => Ok(Document::new()),
    }
}

/// The text to write for a document. Fails with `Yaml` where it cannot be
/// serialised.
pub fn save_document(doc: &Document) -> (r: Result<String, ExpmanError>)
    ensures
        match r {
            Ok(text) => yaml_text(entries_view(doc.entries@)) == Some(text@),
            Err(ExpmanError::Yaml(_)) => yaml_text(entries_view(doc.entries@)) is None,
            Err(_) => false,
        },
{
    match entries_to_text(&doc.entries) {
        Ok(text) => Ok(text),
        Err(e) => Err(ExpmanError::Yaml(yaml_error_text(&e))),
    }
}

/// Lays updates over the document of a file and hands back the text to write
/// in its place. A file that does not exist or cannot be parsed counts as the
/// empty document.
pub fn merge_write(file: Option<&str>, updates: Entries) -> (r: Result<String, ExpmanError>)
    ensures
        match r {
            Ok(text) => yaml_text(
                overlay(
                    entries_or_empty(
                        match file {
                            Some(t) => Some(t@),
                            None => None,
                        },
                    ),
                    entries_view(updates@),
                ),
            ) == Some(text@),
            Err(ExpmanError::Yaml(_)) => yaml_text(
                overlay(
                    entries_or_empty(
                        match file {
                            Some(t) => Some(t@),
                            None => None,
                        },
                    ),
                    entries_view(updates@),
                ),
            ) is None,
            Err(_) => false,
        },
{
    let mut doc = match load_document(file) {
        Ok(d) => d,
        Err(_) => Document::new(),
    };
    assert(entries_view(doc.entries@) =~= entries_or_empty(
        match file {
            Some(t) => Some(t@),
            None => None,
        },
    ));
    doc.merge(updates);
    save_document(&doc)
}

} // verus!
