use vstd::prelude::*;

verus! {

/// The mathematical content of a [`Toml`]: a string, an ordered table or an
/// ordered sequence.
pub enum TomlView {
    String(Seq<char>),
    Table(TableView),
    Array(Seq<TomlView>),
}

/// The mathematical content of a [`Table`]: its entries in insertion order.
pub type TableView = Seq<(Seq<char>, TomlView)>;

/// A structured value: a string, a table of named values, or a sequence.
#[derive(Debug, PartialEq, Eq)]
pub enum Toml {
    String(String),
    Table(Table),
    Array(Vec<Toml>),
}

/// An insertion-ordered mapping from keys to values in which no key occurs
/// twice.
#[derive(Debug, PartialEq, Eq)]
pub struct Table {
    entries: Vec<(String, Toml)>,
}

impl View for Toml {
    type V = TomlView;

    open spec fn view(&self) -> TomlView
        decreases self,
    {
        match self {
            Toml::String(s) => TomlView::String(s@),
            Toml::Table(t) => TomlView::Table(t@),
            Toml::Array(items) => TomlView::Array(values_view(items@)),
        }
    }
}

impl View for Table {
    type V = TableView;

    closed spec fn view(&self) -> TableView
        decreases self,
    {
        entries_view(self.entries@)
    }
}

/// The contents of a sequence of values, one for one.
pub open spec fn values_view(items: Seq<Toml>) -> Seq<TomlView>
    decreases items,
{
    Seq::new(
        items.len(),
        |i: int|
            if 0 <= i < items.len() {
                items[i]@
            } else {
                arbitrary()
            },
    )
}

/// The contents of a sequence of entries, one for one.
pub open spec fn entries_view(entries: Seq<(String, Toml)>) -> TableView
    decreases entries,
{
    Seq::new(
        entries.len(),
        |i: int|
            if 0 <= i < entries.len() {
                (entries[i].0@, entries[i].1@)
            } else {
                arbitrary()
            },
    )
}

/// No key occurs twice among the entries.
pub open spec fn keys_distinct(t: TableView) -> bool {
    forall|i: int, j: int| 0 <= i < j < t.len() ==> t[i].0 != t[j].0
}

/// Some entry of `t` has the key `key`.
pub open spec fn has_key(t: TableView, key: Seq<char>) -> bool {
    exists|i: int| 0 <= i < t.len() && t[i].0 == key
}

/// The place of an entry with the key `key`, where there is one.
pub open spec fn index_of(t: TableView, key: Seq<char>) -> int {
    choose|i: int| 0 <= i < t.len() && t[i].0 == key
}

/// The value stored under `key`, if any.
pub open spec fn lookup(t: TableView, key: Seq<char>) -> Option<TomlView> {
    if has_key(t, key) {
        Some(t[index_of(t, key)].1)
    } else {
        None
    }
}

/// Plain insertion: a new key goes to the end, a present key keeps its place
/// and gets the new value.
pub open spec fn put(t: TableView, key: Seq<char>, value: TomlView) -> TableView {
    if has_key(t, key) {
        t.update(index_of(t, key), (key, value))
    } else {
        t.push((key, value))
    }
}

/// What a stored value becomes when another value arrives under its key: a
/// sequence grows by one, anything else becomes a sequence of the two.
pub open spec fn joined(present: TomlView, value: TomlView) -> TomlView {
    match present {
        TomlView::Array(items) => TomlView::Array(items.push(value)),
        _ => TomlView::Array(seq![present, value]),
    }
}

/// Insertion that groups repeated keys: a new key goes to the end with the
/// bare value; under a present key the stored value and the new one are
/// joined into a sequence, in place.
pub open spec fn merge(t: TableView, key: Seq<char>, value: TomlView) -> TableView {
    if has_key(t, key) {
        t.update(index_of(t, key), (key, joined(t[index_of(t, key)].1, value)))
    } else {
        t.push((key, value))
    }
}

/// In a table without repeated keys, the entry at `i` is the one that
/// `index_of` finds for its key.
pub proof fn lemma_index_of_unique(t: TableView, i: int)
    requires
        keys_distinct(t),
        0 <= i < t.len(),
    ensures
        has_key(t, t[i].0),
        index_of(t, t[i].0) == i,
{
    let j = index_of(t, t[i].0);
    assert(0 <= j < t.len() && t[j].0 == t[i].0);
    assert(j == i);
}

/// A key that is new to a table is found at the end once it has been added.
pub proof fn lemma_index_of_last(t: TableView, key: Seq<char>, value: TomlView)
    requires
        !has_key(t, key),
    ensures
        has_key(t.push((key, value)), key),
        index_of(t.push((key, value)), key) == t.len(),
{
    let r = t.push((key, value));
    assert(r[t.len() as int].0 == key);
    let i = index_of(r, key);
    assert(i < t.len() ==> t[i].0 == key);
}

/// Plain insertion keeps the keys distinct.
pub proof fn lemma_put_keeps_keys_distinct(t: TableView, key: Seq<char>, value: TomlView)
    requires
        keys_distinct(t),
    ensures
        keys_distinct(put(t, key, value)),
        has_key(put(t, key, value), key),
        lookup(put(t, key, value), key) == Some(value),
{
    let at = if has_key(t, key) {
        index_of(t, key)
    } else {
        t.len() as int
    };
    lemma_index_of_unique(put(t, key, value), at);
}

/// Grouping insertion keeps the keys distinct.
pub proof fn lemma_merge_keeps_keys_distinct(t: TableView, key: Seq<char>, value: TomlView)
    requires
        keys_distinct(t),
    ensures
        keys_distinct(merge(t, key, value)),
{
}

impl Table {
    /// Every table that exists at run time has distinct keys.
    #[verifier::type_invariant]
    pub open spec fn has_distinct_keys(self) -> bool {
        keys_distinct(self@)
    }

    /// An empty table.
    pub fn new() -> (t: Table)
        ensures
            t@ == TableView::empty(),
    {
        Table { entries: Vec::new() }
    }

    /// The number of entries.
    pub fn len(&self) -> (n: usize)
        ensures
            n == self@.len(),
    {
        self.entries.len()
    }

    /// Whether the table has no entry.
    pub fn is_empty(&self) -> (b: bool)
        ensures
            b == (self@.len() == 0),
    {
        self.entries.len() == 0
    }

    /// The key of the entry at `i`.
    pub fn key_at(&self, i: usize) -> (key: &String)
        requires
            i < self@.len(),
        ensures
            key@ == self@[i as int].0,
    {
        &self.entries[i].0
    }

    /// The value of the entry at `i`.
    pub fn value_at(&self, i: usize) -> (value: &Toml)
        requires
            i < self@.len(),
        ensures
            value@ == self@[i as int].1,
    {
        &self.entries[i].1
    }

    /// The place of the entry with the key `key`, if there is one.
    pub fn position(&self, key: &str) -> (found: Option<usize>)
        ensures
            found is Some <==> has_key(self@, key@),
            found matches Some(i) ==> i == index_of(self@, key@) && i < self@.len(),
    {
        proof {
            use_type_invariant(self);
        }
        let wanted: String = key.to_owned();
        let mut i: usize = 0;
        while i < self.entries.len()
            invariant
                i <= self.entries@.len(),
                wanted@ == key@,
                keys_distinct(self@),
                forall|j: int| 0 <= j < i ==> self@[j].0 != key@,
            decreases self.entries@.len() - i,
        {
            if self.entries[i].0 == wanted {
                proof {
                    lemma_index_of_unique(self@, i as int);
                }
                return Some(i);
            }
            i += 1;
        }
        None
    }

    /// The value stored under `key`, if any.
    pub fn get(&self, key: &str) -> (found: Option<&Toml>)
        ensures
            match found {
                Some(value) => lookup(self@, key@) == Some(value@),
                None => lookup(self@, key@) is None,
            },
    {
        match self.position(key) {
            Some(i) => Some(&self.entries[i].1),
            None => None,
        }
    }

    /// Whether some entry has the key `key`.
    pub fn contains_key(&self, key: &str) -> (b: bool)
        ensures
            b == has_key(self@, key@),
    {
        self.position(key).is_some()
    }

    /// Stores `value` under `key`: at the end if the key is new, in place of
    /// the value that was there otherwise.
    pub fn insert(&mut self, key: String, value: Toml)
        ensures
            final(self)@ == put(old(self)@, key@, value@),
    {
        proof {
            use_type_invariant(&*self);
            lemma_put_keeps_keys_distinct(self@, key@, value@);
        }
        let found = self.position(key.as_str());
        let mut entries: Vec<(String, Toml)> = Vec::new();
        core::mem::swap(&mut self.entries, &mut entries);
        match found {
            Some(i) => {
                entries.set(i, (key, value));
            },
            None => {
                entries.push((key, value));
            },
        }
        assert(entries_view(entries@) =~= put(old(self)@, key@, value@));
        self.entries = entries;
    }

    /// Stores `value` under `key`, grouping repeated keys: a new key gets the
    /// bare value at the end; under a present key the stored value becomes a
    /// sequence that ends with `value`.
    pub fn merge(&mut self, key: String, value: Toml)
        ensures
            final(self)@ == merge(old(self)@, key@, value@),
    {
        proof {
            use_type_invariant(&*self);
            lemma_merge_keeps_keys_distinct(self@, key@, value@);
        }
        let found = self.position(key.as_str());
        let mut entries: Vec<(String, Toml)> = Vec::new();
        core::mem::swap(&mut self.entries, &mut entries);
        match found {
            Some(i) => {
                let (_, present) = entries.remove(i);
                let grouped = match present {
                    Toml::Array(mut items) => {
                        let ghost before = items@;
                        items.push(value);
                        assert(values_view(items@) =~= values_view(before).push(value@));
                        Toml::Array(items)
                    },
                    other => {
                        let mut items: Vec<Toml> = Vec::new();
                        items.push(other);
                        items.push(value);
                        assert(values_view(items@) =~= seq![other@, value@]);
                        Toml::Array(items)
                    },
                };
                entries.insert(i, (key, grouped));
            },
            None => {
                entries.push((key, value));
            },
        }
        assert(entries_view(entries@) =~= merge(old(self)@, key@, value@));
        self.entries = entries;
    }
}

} // verus!
