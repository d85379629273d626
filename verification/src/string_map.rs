//! A mapping from text to text that remembers the order in which its keys
//! first came in.

use crate::text::{split, split_chars, split_once, split_once_chars, views};
use crate::unicode::{chars_of, str_eq, string_of, trim, trim_chars};
use vstd::prelude::*;
use vstd::std_specs::cmp::PartialEqSpecImpl;

verus! {

/// The texts that a sequence of string pairs stands for.
pub open spec fn pair_views(pairs: Seq<(String, String)>) -> Seq<(Seq<char>, Seq<char>)> {
    pairs.map_values(|p: (String, String)| (p.0@, p.1@))
}

/// No key stands in two entries.
pub open spec fn distinct_keys(entries: Seq<(Seq<char>, Seq<char>)>) -> bool {
    forall|i: int, j: int| 0 <= i < j < entries.len() ==> (#[trigger] entries[i]).0 != (
    #[trigger] entries[j]).0
}

/// The entry at index `i` has the key `key`.
pub open spec fn has_key_at(entries: Seq<(Seq<char>, Seq<char>)>, key: Seq<char>, i: int) -> bool {
    0 <= i < entries.len() && entries[i].0 == key
}

/// The mapping that a sequence of entries describes; of two entries with one
/// key the later one counts.
pub open spec fn map_of(entries: Seq<(Seq<char>, Seq<char>)>) -> Map<Seq<char>, Seq<char>>
    decreases entries.len(),
{
    if entries.len() == 0 {
        Map::empty()
    } else {
        map_of(entries.drop_last()).insert(entries.last().0, entries.last().1)
    }
}

/// The entries after `key` got the value `value`: in the place of the entry
/// that had the key, or behind the last entry if none had it.
pub open spec fn insert_entry(
    entries: Seq<(Seq<char>, Seq<char>)>,
    key: Seq<char>,
    value: Seq<char>,
) -> Seq<(Seq<char>, Seq<char>)> {
    if exists|i: int| has_key_at(entries, key, i) {
        entries.update(choose|i: int| has_key_at(entries, key, i), (key, value))
    } else {
        entries.push((key, value))
    }
}

/// The entries after each entry of `more` was inserted, from first to last.
pub open spec fn extend_entries(
    entries: Seq<(Seq<char>, Seq<char>)>,
    more: Seq<(Seq<char>, Seq<char>)>,
) -> Seq<(Seq<char>, Seq<char>)>
    decreases more.len(),
{
    if more.len() == 0 {
        entries
    } else {
        insert_entry(extend_entries(entries, more.drop_last()), more.last().0, more.last().1)
    }
}

/// The keys of `map_of` are the keys of the entries, and with distinct keys
/// each entry's value is the value of its key.
pub proof fn lemma_map_of(entries: Seq<(Seq<char>, Seq<char>)>)
    ensures
        forall|k: Seq<char>| #[trigger]
            map_of(entries).contains_key(k) <==> exists|i: int| has_key_at(entries, k, i),
        distinct_keys(entries) ==> forall|i: int|
            0 <= i < entries.len() ==> map_of(entries)[(#[trigger] entries[i]).0] == entries[i].1,
        map_of(entries).dom().finite(),
    decreases entries.len(),
{
    if entries.len() > 0 {
        let front = entries.drop_last();
        lemma_map_of(front);
        assert forall|k: Seq<char>| #[trigger]
            map_of(entries).contains_key(k) <==> exists|i: int| has_key_at(entries, k, i) by {
            if map_of(entries).contains_key(k) {
                if k == entries.last().0 {
                    assert(has_key_at(entries, k, entries.len() - 1));
                } else {
                    assert(map_of(front).contains_key(k));
                    let i = choose|i: int| has_key_at(front, k, i);
                    assert(has_key_at(entries, k, i));
                }
            }
            if exists|i: int| has_key_at(entries, k, i) {
                let i = choose|i: int| has_key_at(entries, k, i);
                if i < entries.len() - 1 {
                    assert(has_key_at(front, k, i));
                }
            }
        }
        if distinct_keys(entries) {
            assert(distinct_keys(front)) by {
                assert forall|i: int, j: int| 0 <= i < j < front.len() implies (
                #[trigger] front[i]).0 != (#[trigger] front[j]).0 by {
                    assert(front[i] == entries[i] && front[j] == entries[j]);
                }
            }
            assert forall|i: int| 0 <= i < entries.len() implies map_of(entries)[(
            #[trigger] entries[i]).0] == entries[i].1 by {
                if i < entries.len() - 1 {
                    assert(front[i] == entries[i]);
                    assert(entries[i].0 != entries[entries.len() - 1].0);
                }
            }
        }
    }
}

/// With distinct keys the mapping has as many keys as there are entries.
pub proof fn lemma_map_of_len(entries: Seq<(Seq<char>, Seq<char>)>)
    requires
        distinct_keys(entries),
    ensures
        map_of(entries).dom().finite(),
        map_of(entries).len() == entries.len(),
    decreases entries.len(),
{
    lemma_map_of(entries);
    if entries.len() > 0 {
        let front = entries.drop_last();
        assert(distinct_keys(front)) by {
            assert forall|i: int, j: int| 0 <= i < j < front.len() implies (
            #[trigger] front[i]).0 != (#[trigger] front[j]).0 by {
                assert(front[i] == entries[i] && front[j] == entries[j]);
            }
        }
        lemma_map_of_len(front);
        lemma_map_of(front);
        assert(!map_of(front).contains_key(entries.last().0)) by {
            if map_of(front).contains_key(entries.last().0) {
                let i = choose|i: int| has_key_at(front, entries.last().0, i);
                assert(entries[i].0 != entries[entries.len() - 1].0);
            }
        }
        assert(map_of(entries).dom() =~= map_of(front).dom().insert(entries.last().0));
    }
}

/// Inserting keeps the keys distinct and gives the key its value.
pub proof fn lemma_insert_entry(entries: Seq<(Seq<char>, Seq<char>)>, key: Seq<char>, value: Seq<char>)
    requires
        distinct_keys(entries),
    ensures
        distinct_keys(insert_entry(entries, key, value)),
        map_of(insert_entry(entries, key, value)) == map_of(entries).insert(key, value),
{
    if exists|i: int| has_key_at(entries, key, i) {
        let i = choose|i: int| has_key_at(entries, key, i);
        lemma_update(entries, i, value);
        assert(entries.update(i, (key, value)) =~= entries.update(i, (entries[i].0, value)));
    } else {
        let after = entries.push((key, value));
        assert(after.drop_last() =~= entries);
        assert forall|i: int, j: int| 0 <= i < j < after.len() implies (#[trigger] after[i]).0 != (
        #[trigger] after[j]).0 by {
            if j == entries.len() {
                assert(!has_key_at(entries, key, i));
            } else {
                assert(entries[i].0 != entries[j].0);
            }
        }
    }
}

/// Inserting the same key and value once more changes nothing.
pub proof fn lemma_insert_entry_again(
    entries: Seq<(Seq<char>, Seq<char>)>,
    key: Seq<char>,
    value: Seq<char>,
)
    requires
        distinct_keys(entries),
    ensures
        insert_entry(insert_entry(entries, key, value), key, value) == insert_entry(
            entries,
            key,
            value,
        ),
{
    let once = insert_entry(entries, key, value);
    lemma_insert_entry(entries, key, value);
    let i = if exists|i: int| has_key_at(entries, key, i) {
        choose|i: int| has_key_at(entries, key, i)
    } else {
        entries.len() as int
    };
    assert(has_key_at(once, key, i));
    let j = choose|j: int| has_key_at(once, key, j);
    if j < i {
        assert(once[j].0 != once[i].0);
    } else if i < j {
        assert(once[i].0 != once[j].0);
    }
    assert(once.update(j, (key, value)) =~= once);
}

/// Inserting a sequence of entries keeps the keys distinct, and each of its
/// keys takes the value of its last entry.
pub proof fn lemma_extend_entries(
    entries: Seq<(Seq<char>, Seq<char>)>,
    more: Seq<(Seq<char>, Seq<char>)>,
)
    requires
        distinct_keys(entries),
    ensures
        distinct_keys(extend_entries(entries, more)),
        map_of(extend_entries(entries, more)) == map_of(entries).union_prefer_right(map_of(more)),
    decreases more.len(),
{
    if more.len() == 0 {
        assert(map_of(entries).union_prefer_right(map_of(more)) =~= map_of(entries));
    } else {
        lemma_extend_entries(entries, more.drop_last());
        lemma_insert_entry(
            extend_entries(entries, more.drop_last()),
            more.last().0,
            more.last().1,
        );
        assert(map_of(entries).union_prefer_right(map_of(more.drop_last())).insert(
            more.last().0,
            more.last().1,
        ) =~= map_of(entries).union_prefer_right(map_of(more)));
    }
}

/// The entries read from pieces have distinct keys.
pub proof fn lemma_entries_of_pieces(pieces: Seq<Seq<char>>, key_value_separator: Seq<char>)
    ensures
        distinct_keys(entries_of_pieces(pieces, key_value_separator)),
    decreases pieces.len(),
{
    if pieces.len() > 0 {
        lemma_entries_of_pieces(pieces.drop_last(), key_value_separator);
        let before = entries_of_pieces(pieces.drop_last(), key_value_separator);
        match split_once(pieces.last(), key_value_separator) {
            Some((key, value)) => {
                lemma_insert_entry(before, trim(key), trim(value));
            },
            None => {},
        }
    }
}

/// Of two pieces with one key the later one gives the value: after the last
/// piece was read, its key has its value.
pub proof fn lemma_last_piece_wins(pieces: Seq<Seq<char>>, key_value_separator: Seq<char>)
    requires
        pieces.len() > 0,
        split_once(pieces.last(), key_value_separator) is Some,
    ensures
        ({
            let (key, value) = split_once(pieces.last(), key_value_separator)->0;
            let map = map_of(entries_of_pieces(pieces, key_value_separator));
            map.contains_key(trim(key)) && map[trim(key)] == trim(value)
        }),
{
    let (key, value) = split_once(pieces.last(), key_value_separator)->0;
    lemma_entries_of_pieces(pieces.drop_last(), key_value_separator);
    lemma_insert_entry(
        entries_of_pieces(pieces.drop_last(), key_value_separator),
        trim(key),
        trim(value),
    );
}

/// A mapping from strings to strings. Inserting under a key that is present
/// replaces the value and keeps the entry's place.
#[derive(Debug)]
pub struct StringMap {
    entries: Vec<(String, String)>,
}

impl View for StringMap {
    type V = Map<Seq<char>, Seq<char>>;

    open spec fn view(&self) -> Map<Seq<char>, Seq<char>> {
        map_of(self.entries())
    }
}

impl StringMap {
    /// The entries in the order in which their keys were first inserted.
    pub closed spec fn entries(&self) -> Seq<(Seq<char>, Seq<char>)> {
        pair_views(self.entries@)
    }

    /// No key occurs twice.
    #[verifier::type_invariant]
    pub open spec fn wf(&self) -> bool {
        distinct_keys(self.entries())
    }

    /// The empty mapping.
    pub fn new() -> (m: StringMap)
        ensures
            m.entries() == Seq::<(Seq<char>, Seq<char>)>::empty(),
            m@ == Map::<Seq<char>, Seq<char>>::empty(),
    {
        let m = StringMap { entries: Vec::new() };
        assert(m.entries() =~= Seq::empty());
        m
    }

    /// The number of entries, which is the number of keys.
    pub fn len(&self) -> (n: usize)
        ensures
            n == self.entries().len(),
            n == self@.len(),
    {
        proof {
            use_type_invariant(self);
            lemma_map_of_len(self.entries());
        }
        self.entries.len()
    }

    /// Whether the mapping has no entry.
    pub fn is_empty(&self) -> (b: bool)
        ensures
            b == (self.entries().len() == 0),
            b == (self@ == Map::<Seq<char>, Seq<char>>::empty()),
    {
        proof {
            lemma_map_of(self.entries());
            if self.entries().len() > 0 {
                assert(has_key_at(self.entries(), self.entries()[0].0, 0));
                assert(self@.contains_key(self.entries()[0].0));
            } else {
                assert(self@ =~= Map::empty());
            }
        }
        self.entries.len() == 0
    }

    /// The place of the entry with key `key`.
    fn position(&self, key: &str) -> (r: Option<usize>)
        ensures
            match r {
                Some(i) => has_key_at(self.entries(), key@, i as int),
                None => forall|i: int| !has_key_at(self.entries(), key@, i),
            },
    {
        let mut i: usize = 0;
        while i < self.entries.len()
            invariant
                i <= self.entries@.len(),
                forall|j: int| 0 <= j < i ==> !has_key_at(self.entries(), key@, j),
            decreases self.entries.len() - i,
        {
            if str_eq(self.entries[i].0.as_str(), key) {
                return Some(i);
            }
            i += 1;
        }
        None
    }

    /// The key and the value of the entry at place `i`; `None` past the end.
    pub fn entry(&self, i: usize) -> (r: Option<(&String, &String)>)
        ensures
            match r {
                Some((k, v)) => i < self.entries().len() && (k@, v@) == self.entries()[i as int],
                None => i >= self.entries().len(),
            },
    {
        if i < self.entries.len() {
            Some((&self.entries[i].0, &self.entries[i].1))
        } else {
            None
        }
    }

    /// Whether `key` has a value.
    pub fn contains_key(&self, key: &str) -> (b: bool)
        ensures
            b == self@.contains_key(key@),
    {
        proof {
            lemma_map_of(self.entries());
        }
        self.position(key).is_some()
    }

    /// The value of `key`.
    pub fn get(&self, key: &str) -> (r: Option<&String>)
        ensures
            match r {
                Some(v) => self@.contains_key(key@) && v@ == self@[key@],
                None => !self@.contains_key(key@),
            },
    {
        proof {
            use_type_invariant(self);
            lemma_map_of(self.entries());
        }
        match self.position(key) {
            Some(i) => Some(&self.entries[i].1),
            None => None,
        }
    }

    /// Gives `key` the value `value`, in place of the value it had, if any.
    pub fn insert(&mut self, key: String, value: String)
        ensures
            final(self)@ == old(self)@.insert(key@, value@),
            final(self).entries() == insert_entry(old(self).entries(), key@, value@),
    {
        proof {
            use_type_invariant(&*self);
            lemma_insert_entry(self.entries(), key@, value@);
        }
        let ghost before = self.entries();
        let ghost pair = (key@, value@);
        let place = self.position(key.as_str());
        let mut entries: Vec<(String, String)> = Vec::new();
        core::mem::swap(&mut self.entries, &mut entries);
        match place {
            Some(i) => {
                entries.set(i, (key, value));
                proof {
                    let k = choose|k: int| has_key_at(before, pair.0, k);
                    assert(has_key_at(before, pair.0, i as int));
                    assert(k == i) by {
                        if k < i {
                            assert(before[k].0 != before[i as int].0);
                        } else if i < k {
                            assert(before[i as int].0 != before[k].0);
                        }
                    }
                    assert(pair_views(entries@) =~= before.update(i as int, pair));
                }
            },
            None => {
                entries.push((key, value));
                assert(pair_views(entries@) =~= before.push(pair));
            },
        }
        core::mem::swap(&mut self.entries, &mut entries);
    }

    /// Inserts every entry of `other`, in its order.
    pub fn extend(&mut self, other: StringMap)
        ensures
            final(self)@ == old(self)@.union_prefer_right(other@),
            final(self).entries() == extend_entries(old(self).entries(), other.entries()),
    {
        proof {
            use_type_invariant(&other);
            lemma_map_of(other.entries());
        }
        let mut other = other;
        let ghost all = other.entries();
        let ghost start = self@;
        let ghost first = self.entries();
        let n = other.entries.len();
        let mut i: usize = 0;
        assert(all.take(0) =~= Seq::empty());
        assert(start.union_prefer_right(Map::empty()) =~= start);
        while i < n
            invariant
                i <= n == all.len(),
                other.entries() == all,
                self@ == start.union_prefer_right(map_of(all.take(i as int))),
                self.entries() == extend_entries(first, all.take(i as int)),
            decreases n - i,
        {
            let key = other.entries[i].0.clone();
            let value = other.entries[i].1.clone();
            proof {
                let ghost taken = all.take(i + 1);
                assert(taken.drop_last() =~= all.take(i as int));
                assert(taken.last() == all[i as int]);
                assert(start.union_prefer_right(map_of(all.take(i as int))).insert(key@, value@)
                    =~= start.union_prefer_right(map_of(taken)));
            }
            self.insert(key, value);
            i += 1;
        }
        assert(all.take(n as int) =~= all);
    }

    /// Whether both mappings give the same keys the same values.
    pub fn same_as(&self, other: &StringMap) -> (b: bool)
        ensures
            b == (self@ == other@),
    {
        proof {
            use_type_invariant(self);
            use_type_invariant(other);
            lemma_map_of(self.entries());
            lemma_map_of(other.entries());
        }
        let mut i: usize = 0;
        while i < self.entries.len()
            invariant
                i <= self.entries@.len(),
                self.wf(),
                other.wf(),
                forall|j: int|
                    0 <= j < i ==> other@.contains_key((#[trigger] self.entries()[j]).0)
                        && other@[self.entries()[j].0] == self.entries()[j].1,
            decreases self.entries.len() - i,
        {
            proof {
                lemma_map_of(self.entries());
                lemma_map_of(other.entries());
                assert(has_key_at(self.entries(), self.entries()[i as int].0, i as int));
            }
            match other.get(self.entries[i].0.as_str()) {
                Some(v) => {
                    if !str_eq(v.as_str(), self.entries[i].1.as_str()) {
                        assert(self@[self.entries()[i as int].0] == self.entries()[i as int].1);
                        return false;
                    }
                },
                None => {
                    assert(has_key_at(self.entries(), self.entries()[i as int].0, i as int));
                    return false;
                },
            }
            i += 1;
        }
        let mut j: usize = 0;
        while j < other.entries.len()
            invariant
                j <= other.entries@.len(),
                forall|k: int| 0 <= k < j ==> self@.contains_key((#[trigger] other.entries()[k]).0),
            decreases other.entries.len() - j,
        {
            proof {
                lemma_map_of(other.entries());
            }
            if !self.contains_key(other.entries[j].0.as_str()) {
                assert(has_key_at(other.entries(), other.entries()[j as int].0, j as int));
                return false;
            }
            j += 1;
        }
        proof {
            assert forall|k: Seq<char>| self@.contains_key(k) implies other@.contains_key(k) by {
                let i = choose|i: int| has_key_at(self.entries(), k, i);
                assert(other@.contains_key(self.entries()[i].0));
            }
            assert forall|k: Seq<char>| other@.contains_key(k) implies self@.contains_key(k) by {
                let i = choose|i: int| has_key_at(other.entries(), k, i);
                assert(self@.contains_key(other.entries()[i].0));
            }
            assert forall|k: Seq<char>| self@.contains_key(k) implies self@[k] == other@[k] by {
                let i = choose|i: int| has_key_at(self.entries(), k, i);
                assert(other@[self.entries()[i].0] == self.entries()[i].1);
            }
            assert(self@ =~= other@);
        }
        true
    }
}

/// The entries read from `pieces`, from first to last: a piece that holds
/// `key_value_separator` gives the text before its first occurrence as key
/// and the text after it as value, both trimmed; any other piece gives
/// nothing. A key that comes again takes the later value.
pub open spec fn entries_of_pieces(
    pieces: Seq<Seq<char>>,
    key_value_separator: Seq<char>,
) -> Seq<(Seq<char>, Seq<char>)>
    decreases pieces.len(),
{
    if pieces.len() == 0 {
        Seq::empty()
    } else {
        let before = entries_of_pieces(pieces.drop_last(), key_value_separator);
        match split_once(pieces.last(), key_value_separator) {
            Some((key, value)) => insert_entry(before, trim(key), trim(value)),
            None => before,
        }
    }
}

/// The entries that `target` lists: its pieces between the occurrences of
/// `entries_separator`, each read as a key and a value.
pub open spec fn parse_entries(
    target: Seq<char>,
    entries_separator: Seq<char>,
    key_value_separator: Seq<char>,
) -> Seq<(Seq<char>, Seq<char>)> {
    entries_of_pieces(split(target, entries_separator), key_value_separator)
}

/// Reads a list of keys and values from characters; see [`parse_entries`].
pub fn parse_pairs(target: &[char], entries_separator: &[char], key_value_separator: &[char]) -> (m:
    StringMap)
    ensures
        m.entries() == parse_entries(target@, entries_separator@, key_value_separator@),
{
    let pieces = split_chars(target, entries_separator);
    let mut m = StringMap::new();
    let mut i: usize = 0;
    assert(views(pieces@).take(0) =~= Seq::empty());
    while i < pieces.len()
        invariant
            i <= pieces@.len(),
            m.entries() == entries_of_pieces(views(pieces@).take(i as int), key_value_separator@),
        decreases pieces.len() - i,
    {
        proof {
            let taken = views(pieces@).take(i + 1);
            assert(taken.drop_last() =~= views(pieces@).take(i as int));
            assert(taken.last() == pieces@[i as int]@);
        }
        match split_once_chars(pieces[i].as_slice(), key_value_separator) {
            Some((key, value)) => {
                let key = string_of(trim_chars(key.as_slice()).as_slice());
                let value = string_of(trim_chars(value.as_slice()).as_slice());
                m.insert(key, value);
            },
            None => {},
        }
        i += 1;
    }
    assert(views(pieces@).take(i as int) =~= views(pieces@));
    m
}

/// Reads a list of keys and values, such as `a=1; b=2` with the separators
/// `;` and `=`. Entries without a key-value separator are passed over.
pub fn parse_hashmap(target: &str, entries_separator: &str, key_value_separator: &str) -> (m:
    StringMap)
    ensures
        m.entries() == parse_entries(target@, entries_separator@, key_value_separator@),
{
    let target = chars_of(target);
    let entries_separator = chars_of(entries_separator);
    let key_value_separator = chars_of(key_value_separator);
    parse_pairs(target.as_slice(), entries_separator.as_slice(), key_value_separator.as_slice())
}

impl PartialEq for StringMap {
    /// Two mappings are equal if they give the same keys the same values, in
    /// whatever order the keys came in.
    fn eq(&self, other: &StringMap) -> (b: bool) {
        self.same_as(other)
    }
}

impl PartialEqSpecImpl for StringMap {
    open spec fn obeys_eq_spec() -> bool {
        true
    }

    open spec fn eq_spec(&self, other: &StringMap) -> bool {
        self@ == other@
    }
}

/// Replacing the value of an entry replaces the value of its key.
proof fn lemma_update(entries: Seq<(Seq<char>, Seq<char>)>, i: int, value: Seq<char>)
    requires
        0 <= i < entries.len(),
        distinct_keys(entries),
    ensures
        distinct_keys(entries.update(i, (entries[i].0, value))),
        map_of(entries.update(i, (entries[i].0, value))) == map_of(entries).insert(
            entries[i].0,
            value,
        ),
{
    let after = entries.update(i, (entries[i].0, value));
    assert(distinct_keys(after)) by {
        assert forall|a: int, b: int| 0 <= a < b < after.len() implies (#[trigger] after[a]).0 != (
        #[trigger] after[b]).0 by {
            assert(entries[a].0 != entries[b].0);
        }
    }
    lemma_map_of(entries);
    lemma_map_of(after);
    let want = map_of(entries).insert(entries[i].0, value);
    assert forall|k: Seq<char>| map_of(after).contains_key(k) <==> want.contains_key(k) by {
        if map_of(after).contains_key(k) {
            let j = choose|j: int| has_key_at(after, k, j);
            assert(has_key_at(entries, k, j));
        }
        if want.contains_key(k) {
            if k == entries[i].0 {
                assert(has_key_at(after, k, i));
            } else {
                let j = choose|j: int| has_key_at(entries, k, j);
                assert(has_key_at(after, k, j));
            }
        }
    }
    assert forall|k: Seq<char>| map_of(after).contains_key(k) implies map_of(after)[k] == want[k] by {
        let j = choose|j: int| has_key_at(after, k, j);
        assert(map_of(after)[after[j].0] == after[j].1);
        if j != i {
            assert(entries[j].0 != entries[i].0);
            assert(map_of(entries)[entries[j].0] == entries[j].1);
        }
    }
    assert(map_of(after) =~= want);
}

} // verus!
