//! Structured values: the tagged union that carries every piece of
//! configuration, and the keyed collection inside it.

use vstd::prelude::*;
use vstd::std_specs::cmp::PartialEqSpecImpl;
use vstd::string::*;

verus! {

/// What a structured value is, mathematically: a tree whose inner nodes are
/// sequences and keyed mappings. Contracts throughout the crate are stated
/// over this type.
#[verifier::ext_equal]
pub enum Json {
    Null,
    Bool(bool),
    /// A number, as its decimal text.
    Number(Seq<char>),
    String(Seq<char>),
    Sequence(Seq<Json>),
    Mapping(Map<Seq<char>, Json>),
}

/// A structured value.
#[derive(Debug)]
pub enum StructuredValue {
    Null,
    Bool(bool),
    /// A number, held as its decimal text. The library never reads the
    /// digits; it only copies and compares them.
    Number(String),
    String(String),
    Sequence(Vec<StructuredValue>),
    Mapping(Mapping),
}

#[derive(Debug)]
struct Entry {
    key: String,
    value: StructuredValue,
}

/// A keyed collection of structured values. No key occurs twice, and entries
/// stay in the order in which their keys first came in.
#[derive(Debug)]
pub struct Mapping {
    entries: Vec<Entry>,
}

spec fn has_key(entries: Seq<Entry>, k: Seq<char>) -> bool {
    exists|i: int| 0 <= i < entries.len() && #[trigger] entries[i].key@ == k
}

spec fn index_of(entries: Seq<Entry>, k: Seq<char>) -> int {
    choose|i: int| 0 <= i < entries.len() && #[trigger] entries[i].key@ == k
}

spec fn distinct(entries: Seq<Entry>) -> bool {
    forall|i: int, j: int|
        0 <= i < j < entries.len() ==> #[trigger] entries[i].key@ != #[trigger] entries[j].key@
}

spec fn keys_of(entries: Seq<Entry>) -> Seq<Seq<char>> {
    Seq::new(entries.len(), |i: int| entries[i].key@)
}

/// The mapping that a run of entries stands for.
spec fn map_of(entries: Seq<Entry>) -> Map<Seq<char>, Json>
    decreases entries,
{
    Map::new(
        |k: Seq<char>| has_key(entries, k),
        |k: Seq<char>|
            {
                let i = index_of(entries, k);
                if 0 <= i < entries.len() {
                    entries[i].value@
                } else {
                    Json::Null
                }
            },
    )
}

impl View for StructuredValue {
    type V = Json;

    open spec fn view(&self) -> Json
        decreases self,
    {
        match self {
            StructuredValue::Null => Json::Null,
            StructuredValue::Bool(b) => Json::Bool(*b),
            StructuredValue::Number(text) => Json::Number(text@),
            StructuredValue::String(text) => Json::String(text@),
            StructuredValue::Sequence(items) => Json::Sequence(
                Seq::new(
                    items@.len(),
                    |i: int|
                        if 0 <= i < items@.len() {
                            items@[i]@
                        } else {
                            Json::Null
                        },
                ),
            ),
            StructuredValue::Mapping(mapping) => Json::Mapping(mapping@),
        }
    }
}

impl View for Mapping {
    type V = Map<Seq<char>, Json>;

    closed spec fn view(&self) -> Map<Seq<char>, Json>
        decreases self,
    {
        map_of(self.entries@)
    }
}

proof fn lemma_map_of_at(entries: Seq<Entry>, i: int)
    requires
        distinct(entries),
        0 <= i < entries.len(),
    ensures
        map_of(entries).contains_key(entries[i].key@),
        map_of(entries)[entries[i].key@] == entries[i].value@,
{
    let k = entries[i].key@;
    assert(has_key(entries, k));
    let j = index_of(entries, k);
    assert(j == i) by {
        if j < i {
            assert(entries[j].key@ != entries[i].key@);
        } else if i < j {
            assert(entries[i].key@ != entries[j].key@);
        }
    }
}

proof fn lemma_map_of_domain(entries: Seq<Entry>)
    ensures
        map_of(entries).dom() == keys_of(entries).to_set(),
        distinct(entries) ==> keys_of(entries).no_duplicates(),
{
    let keys = keys_of(entries);
    assert forall|k: Seq<char>| map_of(entries).dom().contains(k) <==> keys.to_set().contains(
        k,
    ) by {
        if has_key(entries, k) {
            let i = index_of(entries, k);
            assert(keys[i] == k);
        }
        if keys.contains(k) {
            let i = choose|i: int| 0 <= i < keys.len() && keys[i] == k;
            assert(entries[i].key@ == k);
        }
    }
    assert(map_of(entries).dom() =~= keys.to_set());
    if distinct(entries) {
        assert forall|i: int, j: int| 0 <= i < keys.len() && 0 <= j < keys.len() && i != j implies keys[i] != keys[j] by {
            if i < j {
                assert(entries[i].key@ != entries[j].key@);
            } else {
                assert(entries[j].key@ != entries[i].key@);
            }
        }
    }
}

proof fn lemma_map_of_push(entries: Seq<Entry>, entry: Entry)
    requires
        distinct(entries),
        !has_key(entries, entry.key@),
    ensures
        distinct(entries.push(entry)),
        map_of(entries.push(entry)) == map_of(entries).insert(entry.key@, entry.value@),
        keys_of(entries.push(entry)) == keys_of(entries).push(entry.key@),
{
    let grown = entries.push(entry);
    assert(distinct(grown)) by {
        assert forall|i: int, j: int| 0 <= i < j < grown.len() implies #[trigger] grown[i].key@
            != #[trigger] grown[j].key@ by {
            if j < entries.len() {
                assert(entries[i].key@ != entries[j].key@);
            } else {
                assert(entries[i].key@ != entry.key@);
            }
        }
    }
    assert(keys_of(grown) =~= keys_of(entries).push(entry.key@));
    let target = map_of(entries).insert(entry.key@, entry.value@);
    assert forall|k: Seq<char>| map_of(grown).contains_key(k) <==> target.contains_key(k) by {
        if has_key(grown, k) {
            let i = index_of(grown, k);
            if i < entries.len() {
                assert(entries[i].key@ == k);
            }
        }
        if has_key(entries, k) {
            let i = index_of(entries, k);
            assert(grown[i].key@ == k);
        }
        if k == entry.key@ {
            assert(grown[entries.len() as int].key@ == k);
        }
    }
    assert forall|k: Seq<char>| map_of(grown).contains_key(k) implies map_of(grown)[k]
        == target[k] by {
        let i = index_of(grown, k);
        lemma_map_of_at(grown, i);
        if i < entries.len() {
            assert(entries[i].key@ == k);
            lemma_map_of_at(entries, i);
        }
    }
    assert(map_of(grown) =~= target);
}

proof fn lemma_map_of_update(entries: Seq<Entry>, i: int, entry: Entry)
    requires
        distinct(entries),
        0 <= i < entries.len(),
        entry.key@ == entries[i].key@,
    ensures
        distinct(entries.update(i, entry)),
        map_of(entries.update(i, entry)) == map_of(entries).insert(entry.key@, entry.value@),
        keys_of(entries.update(i, entry)) == keys_of(entries),
{
    let changed = entries.update(i, entry);
    assert(distinct(changed)) by {
        assert forall|a: int, b: int| 0 <= a < b < changed.len() implies #[trigger] changed[a].key@
            != #[trigger] changed[b].key@ by {
            assert(entries[a].key@ != entries[b].key@);
        }
    }
    assert(keys_of(changed) =~= keys_of(entries));
    let target = map_of(entries).insert(entry.key@, entry.value@);
    assert forall|k: Seq<char>| map_of(changed).contains_key(k) <==> target.contains_key(k) by {
        if has_key(changed, k) {
            let j = index_of(changed, k);
            assert(entries[j].key@ == k);
        }
        if has_key(entries, k) {
            let j = index_of(entries, k);
            assert(changed[j].key@ == k);
        }
        if k == entry.key@ {
            assert(changed[i].key@ == k);
        }
    }
    assert forall|k: Seq<char>| map_of(changed).contains_key(k) implies map_of(changed)[k]
        == target[k] by {
        let j = index_of(changed, k);
        lemma_map_of_at(changed, j);
        if j != i {
            assert(entries[j].key@ == k);
            lemma_map_of_at(entries, j);
        }
    }
    assert(map_of(changed) =~= target);
}

impl Mapping {
    #[verifier::type_invariant]
    spec fn distinct_keys(self) -> bool {
        distinct(self.entries@)
    }

    /// The keys, in the order in which the entries are held.
    pub closed spec fn keys(&self) -> Seq<Seq<char>> {
        keys_of(self.entries@)
    }

    /// An empty mapping.
    pub fn new() -> (r: Mapping)
        ensures
            r@ == Map::<Seq<char>, Json>::empty(),
            r.keys() == Seq::<Seq<char>>::empty(),
    {
        let r = Mapping { entries: Vec::new() };
        assert(r@ =~= Map::<Seq<char>, Json>::empty());
        assert(r.keys() =~= Seq::<Seq<char>>::empty());
        r
    }

    /// The number of entries. No key occurs twice, so this is also the
    /// number of keys.
    pub fn len(&self) -> (n: usize)
        ensures
            n == self.keys().len(),
            self.keys().no_duplicates(),
            self@.dom() == self.keys().to_set(),
    {
        proof {
            use_type_invariant(self);
            lemma_map_of_domain(self.entries@);
        }
        self.entries.len()
    }

    /// The key of the entry at position `i`.
    pub fn key_at(&self, i: usize) -> (key: &String)
        requires
            i < self.keys().len(),
        ensures
            key@ == self.keys()[i as int],
    {
        &self.entries[i].key
    }

    /// The value of the entry at position `i`.
    pub fn value_at(&self, i: usize) -> (value: &StructuredValue)
        requires
            i < self.keys().len(),
        ensures
            self@.contains_key(self.keys()[i as int]),
            value@ == self@[self.keys()[i as int]],
    {
        proof {
            use_type_invariant(self);
            lemma_map_of_at(self.entries@, i as int);
        }
        &self.entries[i].value
    }

    fn position(&self, key: &String) -> (r: Option<usize>)
        ensures
            match r {
                Some(i) => i < self.entries@.len() && self.entries@[i as int].key@ == key@,
                None => !has_key(self.entries@, key@),
            },
    {
        let mut i: usize = 0;
        while i < self.entries.len()
            invariant
                i <= self.entries@.len(),
                forall|j: int| 0 <= j < i ==> (#[trigger] self.entries@[j]).key@ != key@,
            decreases self.entries@.len() - i,
        {
            if self.entries[i].key == *key {
                return Some(i);
            }
            i += 1;
        }
        None
    }

    /// The value under `key`, if there is one.
    pub fn get(&self, key: &str) -> (r: Option<&StructuredValue>)
        ensures
            match r {
                Some(value) => self@.contains_key(key@) && value@ == self@[key@],
                None => !self@.contains_key(key@),
            },
    {
        let owned = key.to_owned();
        match self.position(&owned) {
            Some(i) => {
                proof {
                    use_type_invariant(self);
                    lemma_map_of_at(self.entries@, i as int);
                }
                Some(&self.entries[i].value)
            },
            None => None,
        }
    }

    /// Puts `value` under `key` and hands back what was there before. A key
    /// that is already present keeps its place; a new one goes to the end.
    pub fn insert(&mut self, key: String, value: StructuredValue) -> (previous: Option<
        StructuredValue,
    >)
        ensures
            final(self)@ == old(self)@.insert(key@, value@),
            match previous {
                Some(before) => old(self)@.contains_key(key@) && before@ == old(self)@[key@],
                None => !old(self)@.contains_key(key@),
            },
            final(self).keys() == (if old(self)@.contains_key(key@) {
                old(self).keys()
            } else {
                old(self).keys().push(key@)
            }),
    {
        proof {
            use_type_invariant(&*self);
        }
        let found = self.position(&key);
        let mut entries: Vec<Entry> = Vec::new();
        core::mem::swap(&mut self.entries, &mut entries);
        let ghost before = entries@;
        let previous = match found {
            Some(i) => {
                let mut slot = value;
                core::mem::swap(&mut entries[i].value, &mut slot);
                proof {
                    lemma_map_of_at(before, i as int);
                    lemma_map_of_update(before, i as int, entries@[i as int]);
                    assert(entries@ =~= before.update(i as int, entries@[i as int]));
                }
                Some(slot)
            },
            None => {
                let entry = Entry { key, value };
                proof {
                    lemma_map_of_push(before, entry);
                }
                entries.push(entry);
                None
            },
        };
        core::mem::swap(&mut self.entries, &mut entries);
        previous
    }

    /// Takes the value under `key` out, leaving `Null` in its place. Where
    /// the key is absent the mapping stays as it is and `Null` comes back.
    pub fn take(&mut self, key: &str) -> (taken: StructuredValue)
        ensures
            taken@ == (if old(self)@.contains_key(key@) {
                old(self)@[key@]
            } else {
                Json::Null
            }),
            final(self)@ == (if old(self)@.contains_key(key@) {
                old(self)@.insert(key@, Json::Null)
            } else {
                old(self)@
            }),
            final(self).keys() == old(self).keys(),
    {
        proof {
            use_type_invariant(&*self);
        }
        let owned = key.to_owned();
        let found = self.position(&owned);
        let mut slot = StructuredValue::Null;
        match found {
            Some(i) => {
                let mut entries: Vec<Entry> = Vec::new();
                core::mem::swap(&mut self.entries, &mut entries);
                let ghost before = entries@;
                core::mem::swap(&mut entries[i].value, &mut slot);
                proof {
                    lemma_map_of_at(before, i as int);
                    lemma_map_of_update(before, i as int, entries@[i as int]);
                    assert(entries@ =~= before.update(i as int, entries@[i as int]));
                }
                core::mem::swap(&mut self.entries, &mut entries);
            },
            None => {},
        }
        slot
    }
}

impl Mapping {
    /// Whether two mappings hold the same values under the same keys, in
    /// whatever order.
    pub fn same(&self, other: &Mapping) -> (r: bool)
        ensures
            r == (self@ == other@),
        decreases self,
    {
        proof {
            use_type_invariant(self);
            use_type_invariant(other);
            lemma_map_of_domain(self.entries@);
            lemma_map_of_domain(other.entries@);
            keys_of(self.entries@).unique_seq_to_set();
            keys_of(other.entries@).unique_seq_to_set();
        }
        if self.entries.len() != other.entries.len() {
            return false;
        }
        let mut i: usize = 0;
        while i < self.entries.len()
            invariant
                i <= self.entries@.len(),
                distinct(self.entries@),
                distinct(other.entries@),
                forall|j: int|
                    0 <= j < i ==> other@.contains_key((#[trigger] self.entries@[j]).key@)
                        && other@[self.entries@[j].key@] == self.entries@[j].value@,
            decreases self.entries@.len() - i,
        {
            proof {
                lemma_map_of_at(self.entries@, i as int);
            }
            match other.position(&self.entries[i].key) {
                Some(j) => {
                    proof {
                        lemma_map_of_at(other.entries@, j as int);
                    }
                    if !self.entries[i].value.same(&other.entries[j].value) {
                        return false;
                    }
                },
                None => {
                    return false;
                },
            }
            i += 1;
        }
        proof {
            assert forall|k: Seq<char>| self@.contains_key(k) implies other@.contains_key(k)
                && other@[k] == self@[k] by {
                let j = index_of(self.entries@, k);
                lemma_map_of_at(self.entries@, j);
                assert(other@.contains_key(self.entries@[j].key@));
            }
            assert(self@.dom().subset_of(other@.dom()));
            vstd::seq_lib::seq_to_set_is_finite(keys_of(self.entries@));
            vstd::seq_lib::seq_to_set_is_finite(keys_of(other.entries@));
            vstd::set_lib::lemma_subset_equality(self@.dom(), other@.dom());
            assert(self@ =~= other@);
        }
        true
    }
}

impl StructuredValue {
    /// Whether two values are the same value. The order in which a mapping
    /// holds its entries does not count.
    pub fn same(&self, other: &StructuredValue) -> (r: bool)
        ensures
            r == (self@ == other@),
        decreases self,
    {
        match (self, other) {
            (StructuredValue::Null, StructuredValue::Null) => true,
            (StructuredValue::Bool(a), StructuredValue::Bool(b)) => *a == *b,
            (StructuredValue::Number(a), StructuredValue::Number(b)) => *a == *b,
            (StructuredValue::String(a), StructuredValue::String(b)) => *a == *b,
            (StructuredValue::Sequence(a), StructuredValue::Sequence(b)) => {
                if a.len() != b.len() {
                    assert(self@->Sequence_0.len() != other@->Sequence_0.len());
                    return false;
                }
                let mut i: usize = 0;
                while i < a.len()
                    invariant
                        i <= a@.len(),
                        a@.len() == b@.len(),
                        forall|j: int| 0 <= j < i ==> (#[trigger] a@[j])@ == b@[j]@,
                        self@ is Sequence,
                        other@ is Sequence,
                        self@->Sequence_0.len() == a@.len(),
                        other@->Sequence_0.len() == b@.len(),
                        forall|j: int|
                            0 <= j < a@.len() ==> #[trigger] self@->Sequence_0[j] == a@[j]@,
                        forall|j: int|
                            0 <= j < b@.len() ==> #[trigger] other@->Sequence_0[j] == b@[j]@,
                        forall|j: int| 0 <= j < a@.len() ==> decreases_to!(self => #[trigger] a@[j]),
                    decreases a@.len() - i,
                {
                    if !a[i].same(&b[i]) {
                        assert(self@->Sequence_0[i as int] != other@->Sequence_0[i as int]);
                        return false;
                    }
                    i += 1;
                }
                assert(self@->Sequence_0 =~= other@->Sequence_0);
                true
            },
            (StructuredValue::Mapping(a), StructuredValue::Mapping(b)) => a.same(b),
            _ => false,
        }
    }
}

impl PartialEq for Mapping {
    fn eq(&self, other: &Mapping) -> (r: bool) {
        self.same(other)
    }
}

impl PartialEqSpecImpl for Mapping {
    open spec fn obeys_eq_spec() -> bool {
        true
    }

    open spec fn eq_spec(&self, other: &Mapping) -> bool {
        self@ == other@
    }
}

impl PartialEq for StructuredValue {
    fn eq(&self, other: &StructuredValue) -> (r: bool) {
        self.same(other)
    }
}

impl PartialEqSpecImpl for StructuredValue {
    open spec fn obeys_eq_spec() -> bool {
        true
    }

    open spec fn eq_spec(&self, other: &StructuredValue) -> bool {
        self@ == other@
    }
}

impl Clone for Mapping {
    fn clone(&self) -> (r: Mapping)
        ensures
            r@ == self@,
            r.keys() == self.keys(),
        decreases self,
    {
        proof {
            use_type_invariant(self);
        }
        let mut entries: Vec<Entry> = Vec::new();
        let mut i: usize = 0;
        while i < self.entries.len()
            invariant
                i <= self.entries@.len(),
                entries@.len() == i,
                forall|j: int|
                    0 <= j < i ==> (#[trigger] entries@[j]).key@ == self.entries@[j].key@
                        && entries@[j].value@ == self.entries@[j].value@,
            decreases self.entries@.len() - i,
        {
            let entry = Entry {
                key: self.entries[i].key.clone(),
                value: self.entries[i].value.clone(),
            };
            entries.push(entry);
            i += 1;
        }
        proof {
            lemma_same_entries(self.entries@, entries@);
        }
        Mapping { entries }
    }
}

impl Clone for StructuredValue {
    fn clone(&self) -> (r: StructuredValue)
        ensures
            r@ == self@,
        decreases self,
    {
        match self {
            StructuredValue::Null => StructuredValue::Null,
            StructuredValue::Bool(b) => StructuredValue::Bool(*b),
            StructuredValue::Number(text) => StructuredValue::Number(text.clone()),
            StructuredValue::String(text) => StructuredValue::String(text.clone()),
            StructuredValue::Sequence(items) => {
                let mut copies: Vec<StructuredValue> = Vec::new();
                let mut i: usize = 0;
                while i < items.len()
                    invariant
                        i <= items@.len(),
                        copies@.len() == i,
                        forall|j: int| 0 <= j < i ==> (#[trigger] copies@[j])@ == items@[j]@,
                        forall|j: int|
                            0 <= j < items@.len() ==> decreases_to!(self => #[trigger] items@[j]),
                    decreases items@.len() - i,
                {
                    copies.push(items[i].clone());
                    i += 1;
                }
                let r = StructuredValue::Sequence(copies);
                assert(r@->Sequence_0 =~= self@->Sequence_0);
                r
            },
            StructuredValue::Mapping(mapping) => StructuredValue::Mapping(mapping.clone()),
        }
    }
}

/// The decimal digit `d`.
pub open spec fn digit(d: nat) -> char {
    seq!['0', '1', '2', '3', '4', '5', '6', '7', '8', '9'][d as int]
}

/// The decimal text of `n`, without leading zeros.
pub open spec fn decimal(n: nat) -> Seq<char>
    decreases n,
{
    if n < 10 {
        seq![digit(n)]
    } else {
        decimal(n / 10).push(digit(n % 10))
    }
}

fn digit_text(d: u64) -> (r: &'static str)
    requires
        d < 10,
    ensures
        r@ == seq![digit(d as nat)],
{
    proof {
        reveal_strlit("0");
        reveal_strlit("1");
        reveal_strlit("2");
        reveal_strlit("3");
        reveal_strlit("4");
        reveal_strlit("5");
        reveal_strlit("6");
        reveal_strlit("7");
        reveal_strlit("8");
        reveal_strlit("9");
    }
    let r = if d == 0 {
        "0"
    } else if d == 1 {
        "1"
    } else if d == 2 {
        "2"
    } else if d == 3 {
        "3"
    } else if d == 4 {
        "4"
    } else if d == 5 {
        "5"
    } else if d == 6 {
        "6"
    } else if d == 7 {
        "7"
    } else if d == 8 {
        "8"
    } else {
        "9"
    };
    assert(r@ =~= seq![digit(d as nat)]);
    r
}

fn decimal_text(n: u64) -> (r: String)
    ensures
        r@ == decimal(n as nat),
    decreases n,
{
    if n < 10 {
        digit_text(n).to_owned()
    } else {
        let mut text = decimal_text(n / 10);
        text.append(digit_text(n % 10));
        assert(text@ =~= decimal(n as nat));
        text
    }
}

impl StructuredValue {
    /// The number `n`.
    pub fn from_u64(n: u64) -> (r: StructuredValue)
        ensures
            r@ == Json::Number(decimal(n as nat)),
    {
        StructuredValue::Number(decimal_text(n))
    }
}

/// Two runs of entries with the same keys and values, position by position,
/// stand for the same mapping.
proof fn lemma_same_entries(a: Seq<Entry>, b: Seq<Entry>)
    requires
        distinct(a),
        a.len() == b.len(),
        forall|j: int|
            0 <= j < a.len() ==> (#[trigger] b[j]).key@ == a[j].key@ && b[j].value@ == a[j].value@,
    ensures
        distinct(b),
        map_of(b) == map_of(a),
        keys_of(b) == keys_of(a),
{
    assert(distinct(b)) by {
        assert forall|i: int, j: int| 0 <= i < j < b.len() implies #[trigger] b[i].key@
            != #[trigger] b[j].key@ by {
            assert(a[i].key@ != a[j].key@);
        }
    }
    assert(keys_of(b) =~= keys_of(a));
    assert forall|k: Seq<char>| map_of(b).contains_key(k) <==> map_of(a).contains_key(k) by {
        if has_key(b, k) {
            let j = index_of(b, k);
            assert(a[j].key@ == k);
        }
        if has_key(a, k) {
            let j = index_of(a, k);
            assert(b[j].key@ == k);
        }
    }
    assert forall|k: Seq<char>| map_of(b).contains_key(k) implies map_of(b)[k] == map_of(a)[k] by {
        let j = index_of(b, k);
        lemma_map_of_at(b, j);
        assert(a[j].key@ == k);
        lemma_map_of_at(a, j);
    }
    assert(map_of(b) =~= map_of(a));
}

} // verus!
