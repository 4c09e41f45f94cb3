//! A map from names to values, both text, that is walked in the order of the names.

use vstd::prelude::*;
use crate::text::{characters, same_text};

verus! {

/// What a map holds: a value for each of its names.
pub type Entries = Map<Seq<char>, Seq<char>>;

/// The order of strings: character by character, by code point, a prefix first.
pub open spec fn precedes(a: Seq<char>, b: Seq<char>) -> bool
    decreases a.len(),
{
    if b.len() == 0 {
        false
    } else if a.len() == 0 {
        true
    } else {
        a[0] < b[0] || (a[0] == b[0] && precedes(a.skip(1), b.skip(1)))
    }
}

/// Every name precedes the names behind it; so no name occurs twice.
pub open spec fn ordered(names: Seq<Seq<char>>) -> bool {
    forall|i: int, j: int| 0 <= i < j < names.len() ==> #[trigger] precedes(names[i], names[j])
}

/// The names of a map, in order.
pub open spec fn sorted_names(m: Entries) -> Seq<Seq<char>> {
    choose|names: Seq<Seq<char>>| ordered(names) && #[trigger] names.to_set() == m.dom()
}

/// No string precedes itself.
proof fn lemma_precedes_irreflexive(a: Seq<char>)
    ensures
        !precedes(a, a),
    decreases a.len(),
{
    if a.len() > 0 {
        lemma_precedes_irreflexive(a.skip(1));
    }
}

/// The order is transitive.
proof fn lemma_precedes_transitive(a: Seq<char>, b: Seq<char>, c: Seq<char>)
    requires
        precedes(a, b),
        precedes(b, c),
    ensures
        precedes(a, c),
    decreases a.len(),
{
    if a.len() > 0 && a[0] == b[0] && b[0] == c[0] {
        lemma_precedes_transitive(a.skip(1), b.skip(1), c.skip(1));
    }
}

/// Of two different strings one precedes the other.
proof fn lemma_precedes_total(a: Seq<char>, b: Seq<char>)
    ensures
        a == b || precedes(a, b) || precedes(b, a),
    decreases a.len(),
{
    if a.len() == 0 {
        if b.len() == 0 {
            assert(a =~= b);
        }
    } else if b.len() > 0 && a[0] == b[0] {
        lemma_precedes_total(a.skip(1), b.skip(1));
        if a.skip(1) == b.skip(1) {
            assert(a =~= seq![a[0]] + a.skip(1));
            assert(b =~= seq![b[0]] + b.skip(1));
        }
    }
}

/// Two ordered sequences of the same names are equal.
proof fn lemma_ordered_unique(a: Seq<Seq<char>>, b: Seq<Seq<char>>)
    requires
        ordered(a),
        ordered(b),
        a.to_set() == b.to_set(),
    ensures
        a == b,
    decreases a.len(),
{
    if a.len() == 0 {
        if b.len() > 0 {
            assert(b.to_set().contains(b[0]));
            assert(a.contains(b[0]));
        }
        assert(a =~= b);
    } else {
        assert(a.to_set().contains(a[0]));
        assert(b.contains(a[0]));
        let j = choose|j: int| 0 <= j < b.len() && b[j] == a[0];
        assert(b.to_set().contains(b[0]));
        assert(a.contains(b[0]));
        let i = choose|i: int| 0 <= i < a.len() && a[i] == b[0];
        if i > 0 && j > 0 {
            assert(precedes(a[0], a[i]));
            assert(precedes(b[0], b[j]));
            lemma_precedes_transitive(a[0], b[0], a[0]);
            lemma_precedes_irreflexive(a[0]);
        }
        assert(a[0] == b[0]);
        let s = a.skip(1);
        let t = b.skip(1);
        assert forall|x: Seq<char>| s.to_set().contains(x) implies t.to_set().contains(x) by {
            lemma_rest_transfers(a, b, x);
        }
        assert forall|x: Seq<char>| t.to_set().contains(x) implies s.to_set().contains(x) by {
            lemma_rest_transfers(b, a, x);
        }
        assert(s.to_set() =~= t.to_set());
        assert forall|m: int, n: int|
            0 <= m < n < s.len() implies #[trigger] precedes(s[m], s[n]) by {
            assert(precedes(a[m + 1], a[n + 1]));
        }
        assert forall|m: int, n: int|
            0 <= m < n < t.len() implies #[trigger] precedes(t[m], t[n]) by {
            assert(precedes(b[m + 1], b[n + 1]));
        }
        lemma_ordered_unique(s, t);
        assert(a =~= seq![a[0]] + s);
        assert(b =~= seq![b[0]] + t);
    }
}

/// A name behind the first of one ordered sequence is behind the first of the other.
proof fn lemma_rest_transfers(a: Seq<Seq<char>>, b: Seq<Seq<char>>, x: Seq<char>)
    requires
        ordered(a),
        a.len() > 0,
        b.len() > 0,
        a[0] == b[0],
        a.to_set() == b.to_set(),
        a.skip(1).contains(x),
    ensures
        b.skip(1).contains(x),
{
    let i = choose|i: int| 0 <= i < a.skip(1).len() && a.skip(1)[i] == x;
    assert(a[i + 1] == x);
    assert(precedes(a[0], a[i + 1]));
    lemma_precedes_irreflexive(x);
    assert(a.to_set().contains(x));
    assert(b.contains(x));
    let j = choose|j: int| 0 <= j < b.len() && b[j] == x;
    assert(j > 0);
    assert(b.skip(1)[j - 1] == x);
}

/// A new name put between the names that precede it and the others keeps the order.
pub proof fn lemma_ordered_insert(names: Seq<Seq<char>>, k: int, name: Seq<char>)
    requires
        ordered(names),
        0 <= k <= names.len(),
        forall|i: int| 0 <= i < k ==> precedes(#[trigger] names[i], name),
        k < names.len() ==> precedes(name, names[k]),
    ensures
        ordered(names.insert(k, name)),
        names.insert(k, name).to_set() == names.to_set().insert(name),
{
    let out = names.insert(k, name);
    assert forall|i: int, j: int|
        0 <= i < j < out.len() implies #[trigger] precedes(out[i], out[j]) by {
        let old_i = if i < k {
            i
        } else {
            i - 1
        };
        let old_j = if j < k {
            j
        } else {
            j - 1
        };
        if i != k && j != k {
            assert(precedes(names[old_i], names[old_j]));
        } else if i == k {
            if old_j > k {
                assert(precedes(names[k], names[old_j]));
                lemma_precedes_transitive(name, names[k], names[old_j]);
            }
        } else {
            assert(precedes(names[i], name));
        }
    }
    assert forall|x: Seq<char>|
        out.to_set().contains(x) <==> names.to_set().insert(name).contains(x) by {
        if out.contains(x) {
            let i = choose|i: int| 0 <= i < out.len() && out[i] == x;
            if i < k {
                assert(names[i] == x);
            } else if i > k {
                assert(names[i - 1] == x);
            }
        }
        if names.contains(x) {
            let i = choose|i: int| 0 <= i < names.len() && names[i] == x;
            if i < k {
                assert(out[i] == x);
            } else {
                assert(out[i + 1] == x);
            }
        }
        assert(out[k] == name);
    }
    assert(out.to_set() =~= names.to_set().insert(name));
}

/// How many of the ordered names precede `name`.
proof fn lemma_insertion_point(names: Seq<Seq<char>>, name: Seq<char>) -> (k: int)
    requires
        ordered(names),
        !names.contains(name),
    ensures
        0 <= k <= names.len(),
        forall|i: int| 0 <= i < k ==> precedes(#[trigger] names[i], name),
        k < names.len() ==> precedes(name, names[k]),
    decreases names.len(),
{
    if names.len() == 0 || precedes(name, names[0]) {
        0
    } else {
        lemma_precedes_total(name, names[0]);
        let rest = names.skip(1);
        assert forall|m: int, n: int|
            0 <= m < n < rest.len() implies #[trigger] precedes(rest[m], rest[n]) by {
            assert(precedes(names[m + 1], names[n + 1]));
        }
        assert(!rest.contains(name)) by {
            if rest.contains(name) {
                let i = choose|i: int| 0 <= i < rest.len() && rest[i] == name;
                assert(names[i + 1] == name);
            }
        }
        assert(names[0] != name);
        let k = lemma_insertion_point(rest, name);
        assert forall|i: int| 0 <= i < k + 1 implies precedes(#[trigger] names[i], name) by {
            if i > 0 {
                assert(names[i] == rest[i - 1]);
            }
        }
        k + 1
    }
}

/// The names of every finite set can be put in order.
proof fn lemma_order_exists(s: Set<Seq<char>>) -> (names: Seq<Seq<char>>)
    requires
        s.finite(),
    ensures
        ordered(names),
        names.to_set() == s,
    decreases s.len(),
{
    if s.len() == 0 {
        assert(s =~= Set::empty());
        let names = Seq::<Seq<char>>::empty();
        assert(names.to_set() =~= s);
        names
    } else {
        let name = s.choose();
        assert(s.contains(name));
        let rest = lemma_order_exists(s.remove(name));
        assert(!rest.contains(name)) by {
            if rest.contains(name) {
                assert(rest.to_set().contains(name));
            }
        }
        let k = lemma_insertion_point(rest, name);
        lemma_ordered_insert(rest, k, name);
        assert(s.remove(name).insert(name) =~= s);
        rest.insert(k, name)
    }
}

/// The sorted names of a finite map are its names, in order.
pub proof fn lemma_sorted_names(m: Entries)
    requires
        m.dom().finite(),
    ensures
        ordered(sorted_names(m)),
        sorted_names(m).to_set() == m.dom(),
{
    let names = lemma_order_exists(m.dom());
    assert(ordered(names) && names.to_set() == m.dom());
}

/// Ordered names that are those of a map are its sorted names.
pub proof fn lemma_sorted_names_is(m: Entries, names: Seq<Seq<char>>)
    requires
        ordered(names),
        names.to_set() == m.dom(),
    ensures
        sorted_names(m) == names,
{
    lemma_ordered_unique(sorted_names(m), names);
}

/// Decides [`precedes`].
pub fn is_before(a: &str, b: &str) -> (yes: bool)
    ensures
        yes == precedes(a@, b@),
{
    let v = characters(a);
    let w = characters(b);
    let mut i: usize = 0;
    proof {
        assert(a@.skip(0) =~= a@);
        assert(b@.skip(0) =~= b@);
    }
    while i < v.len() && i < w.len() && v[i] == w[i]
        invariant
            v@ == a@,
            w@ == b@,
            i <= v.len(),
            i <= w.len(),
            precedes(a@, b@) == precedes(a@.skip(i as int), b@.skip(i as int)),
        ensures
            i < v.len() && i < w.len() ==> v@[i as int] != w@[i as int],
        decreases v.len() - i,
    {
        proof {
            assert(a@.skip(i as int).skip(1) =~= a@.skip(i + 1));
            assert(b@.skip(i as int).skip(1) =~= b@.skip(i + 1));
        }
        i = i + 1;
    }
    if i == w.len() {
        false
    } else if i == v.len() {
        true
    } else {
        proof {
            assert(a@.skip(i as int)[0] == v@[i as int]);
            assert(b@.skip(i as int)[0] == w@[i as int]);
        }
        is_smaller(v[i], w[i])
    }
}

/// Compares two characters by code point.
fn is_smaller(a: char, b: char) -> (yes: bool)
    ensures
        yes == (a < b),
{
    (a as u32) < (b as u32)
}

/// A map from names to values.
#[derive(Debug)]
pub struct EnvMap {
    entries: Vec<(String, String)>,
}

spec fn names_of(entries: Seq<(String, String)>) -> Seq<Seq<char>> {
    Seq::new(entries.len(), |i: int| entries[i].0@)
}

spec fn map_of(entries: Seq<(String, String)>) -> Entries {
    Map::new(
        |name: Seq<char>| names_of(entries).contains(name),
        |name: Seq<char>| entries[names_of(entries).index_of(name)].1@,
    )
}

impl View for EnvMap {
    type V = Entries;

    closed spec fn view(&self) -> Entries {
        map_of(self.entries@)
    }
}

/// In an ordered sequence of entries the map gives each name the value beside it.
proof fn lemma_map_of(entries: Seq<(String, String)>)
    requires
        ordered(names_of(entries)),
    ensures
        map_of(entries).dom().finite(),
        map_of(entries).dom().len() == entries.len(),
        map_of(entries).dom() == names_of(entries).to_set(),
        sorted_names(map_of(entries)) == names_of(entries),
        forall|i: int|
            0 <= i < entries.len() ==> map_of(entries).contains_key(#[trigger] entries[i].0@)
                && map_of(entries)[entries[i].0@] == entries[i].1@,
{
    let names = names_of(entries);
    let m = map_of(entries);
    assert(m.dom() =~= names.to_set());
    lemma_sorted_names_is(m, names);
    vstd::seq_lib::seq_to_set_is_finite(names);
    assert(names.no_duplicates()) by {
        assert forall|i: int, j: int|
            0 <= i < names.len() && 0 <= j < names.len() && i != j implies names[i] != names[j] by {
            lemma_precedes_irreflexive(names[i]);
            if i < j {
                assert(precedes(names[i], names[j]));
            } else {
                assert(precedes(names[j], names[i]));
            }
        }
    }
    names.unique_seq_to_set();
    assert forall|i: int| 0 <= i < entries.len() implies m.contains_key(#[trigger] entries[i].0@)
        && m[entries[i].0@] == entries[i].1@ by {
        assert(names[i] == entries[i].0@);
        let k = names.index_of(names[i]);
        assert(names.contains(names[i]));
        assert(names[k] == names[i]);
        assert(k == i);
    }
}

impl EnvMap {
    #[verifier::type_invariant]
    spec fn in_order(&self) -> bool {
        ordered(names_of(self.entries@))
    }

    /// An empty map.
    pub fn new() -> (out: EnvMap)
        ensures
            out@ == Map::<Seq<char>, Seq<char>>::empty(),
    {
        let out = EnvMap { entries: Vec::new() };
        proof {
            assert(out@ =~= Map::<Seq<char>, Seq<char>>::empty());
        }
        out
    }

    /// How many names the map holds.
    pub fn len(&self) -> (n: usize)
        ensures
            self@.dom().finite(),
            n == self@.dom().len(),
            n == sorted_names(self@).len(),
    {
        proof {
            use_type_invariant(self);
            lemma_map_of(self.entries@);
        }
        self.entries.len()
    }

    /// Whether the map holds no name.
    pub fn is_empty(&self) -> (yes: bool)
        ensures
            yes == (self@ == Map::<Seq<char>, Seq<char>>::empty()),
    {
        proof {
            use_type_invariant(self);
            lemma_map_of(self.entries@);
            if self.entries@.len() == 0 {
                assert(self@ =~= Map::<Seq<char>, Seq<char>>::empty());
            } else {
                assert(self@.contains_key(self.entries@[0].0@));
            }
        }
        self.entries.len() == 0
    }

    /// The name and the value at an index, in the order of the names.
    pub fn entry(&self, i: usize) -> (out: (&String, &String))
        requires
            i < sorted_names(self@).len(),
        ensures
            out.0@ == sorted_names(self@)[i as int],
            self@.contains_key(out.0@),
            out.1@ == self@[out.0@],
    {
        proof {
            use_type_invariant(self);
            lemma_map_of(self.entries@);
            assert(names_of(self.entries@)[i as int] == self.entries@[i as int].0@);
        }
        (&self.entries[i].0, &self.entries[i].1)
    }

    /// The value of a name.
    pub fn get(&self, name: &str) -> (out: Option<&String>)
        ensures
            match out {
                Some(value) => self@.contains_key(name@) && value@ == self@[name@],
                None => !self@.contains_key(name@),
            },
    {
        proof {
            use_type_invariant(self);
            lemma_map_of(self.entries@);
        }
        let mut i: usize = 0;
        while i < self.entries.len()
            invariant
                i <= self.entries.len(),
                ordered(names_of(self.entries@)),
                forall|j: int| 0 <= j < i ==> self.entries@[j].0@ != name@,
            decreases self.entries.len() - i,
        {
            if same_text(self.entries[i].0.as_str(), name) {
                proof {
                    lemma_map_of(self.entries@);
                    assert(self@.contains_key(self.entries@[i as int].0@));
                }
                return Some(&self.entries[i].1);
            }
            i = i + 1;
        }
        proof {
            if self@.contains_key(name@) {
                let names = names_of(self.entries@);
                let j = choose|j: int| 0 <= j < names.len() && names[j] == name@;
                assert(self.entries@[j].0@ == name@);
            }
        }
        None
    }

    /// Whether the map holds a name.
    pub fn contains_key(&self, name: &str) -> (yes: bool)
        ensures
            yes == self@.contains_key(name@),
    {
        self.get(name).is_some()
    }

    /// Gives a name a value, in place of any value that it had.
    pub fn insert(&mut self, name: String, value: String)
        ensures
            final(self)@ == old(self)@.insert(name@, value@),
    {
        proof {
            use_type_invariant(&*self);
        }
        let mut entries: Vec<(String, String)> = Vec::new();
        std::mem::swap(&mut entries, &mut self.entries);
        let ghost before = entries@;
        let mut k: usize = 0;
        while k < entries.len() && is_before(entries[k].0.as_str(), name.as_str())
            invariant
                entries@ == before,
                k <= entries.len(),
                forall|j: int| 0 <= j < k ==> precedes(#[trigger] before[j].0@, name@),
            ensures
                k < entries.len() ==> !precedes(before[k as int].0@, name@),
            decreases entries.len() - k,
        {
            k = k + 1;
        }
        if k < entries.len() && same_text(entries[k].0.as_str(), name.as_str()) {
            entries[k] = (name, value);
            proof {
                lemma_replaced(before, entries@, k as int, name@, value@);
            }
        } else {
            proof {
                if k < entries.len() {
                    lemma_precedes_total(before[k as int].0@, name@);
                }
            }
            entries.insert(k, (name, value));
            proof {
                lemma_inserted(before, entries@, k as int, name@, value@);
            }
        }
        self.entries = entries;
    }
}

/// Replacing the entry of a name gives the name a new value.
proof fn lemma_replaced(
    before: Seq<(String, String)>,
    after: Seq<(String, String)>,
    k: int,
    name: Seq<char>,
    value: Seq<char>,
)
    requires
        ordered(names_of(before)),
        0 <= k < before.len(),
        before[k].0@ == name,
        after.len() == before.len(),
        after[k].0@ == name,
        after[k].1@ == value,
        forall|i: int| 0 <= i < before.len() && i != k ==> after[i] == before[i],
    ensures
        ordered(names_of(after)),
        map_of(after) == map_of(before).insert(name, value),
{
    assert(names_of(after) =~= names_of(before));
    lemma_map_of(before);
    assert(map_of(before).contains_key(before[k].0@));
    assert(map_of(before).insert(name, value).dom() =~= map_of(before).dom());
    assert forall|i: int| 0 <= i < after.len()
        implies map_of(before).insert(name, value)[#[trigger] after[i].0@] == after[i].1@ by {
        if i != k {
            assert(after[i] == before[i]);
            assert(names_of(before)[i] == before[i].0@ && names_of(before)[k] == name);
            lemma_precedes_irreflexive(name);
            if i < k {
                assert(precedes(names_of(before)[i], names_of(before)[k]));
            } else {
                assert(precedes(names_of(before)[k], names_of(before)[i]));
            }
        }
    }
    lemma_same_maps(after, map_of(before).insert(name, value));
}

/// A new entry in its place gives a new name its value.
proof fn lemma_inserted(
    before: Seq<(String, String)>,
    after: Seq<(String, String)>,
    k: int,
    name: Seq<char>,
    value: Seq<char>,
)
    requires
        ordered(names_of(before)),
        0 <= k <= before.len(),
        after.len() == before.len() + 1,
        after[k].0@ == name,
        after[k].1@ == value,
        forall|i: int| 0 <= i < k ==> after[i] == before[i],
        forall|i: int| k <= i < before.len() ==> after[i + 1] == before[i],
        forall|i: int| 0 <= i < k ==> precedes(#[trigger] before[i].0@, name),
        k < before.len() ==> precedes(name, before[k].0@),
    ensures
        ordered(names_of(after)),
        map_of(after) == map_of(before).insert(name, value),
{
    let names = names_of(before);
    assert(names_of(after) =~= names.insert(k, name));
    assert forall|i: int| 0 <= i < k implies precedes(#[trigger] names[i], name) by {
        assert(precedes(before[i].0@, name));
    }
    lemma_ordered_insert(names, k, name);
    lemma_map_of(before);
    lemma_map_of(after);
    assert forall|i: int| 0 <= i < after.len()
        implies map_of(before).insert(name, value)[#[trigger] after[i].0@] == after[i].1@ by {
        if i != k {
            let j = if i < k {
                i
            } else {
                i - 1
            };
            assert(after[i] == before[j]);
            if i < k {
                assert(precedes(before[j].0@, name));
            } else {
                if j > k {
                    assert(precedes(names[k], names[j]));
                    lemma_precedes_transitive(name, names[k], names[j]);
                }
                assert(precedes(name, before[j].0@));
            }
            lemma_precedes_irreflexive(name);
        }
    }
    lemma_same_maps(after, map_of(before).insert(name, value));
}

/// Entries whose names are those of a map, each with the map's value, make up the map.
proof fn lemma_same_maps(entries: Seq<(String, String)>, m: Entries)
    requires
        ordered(names_of(entries)),
        names_of(entries).to_set() == m.dom(),
        forall|i: int| 0 <= i < entries.len() ==> m[#[trigger] entries[i].0@] == entries[i].1@,
    ensures
        map_of(entries) == m,
{
    lemma_map_of(entries);
    assert forall|name: Seq<char>|
        map_of(entries).contains_key(name) implies map_of(entries)[name] == m[name] by {
        let i = choose|i: int| 0 <= i < names_of(entries).len() && names_of(entries)[i] == name;
        assert(entries[i].0@ == name);
    }
    assert(map_of(entries) =~= m);
}

/// The order is decided by the first character at which two strings differ, by its code point; a
/// string that is the start of another precedes it.
pub proof fn law_first_difference_decides(a: Seq<char>, b: Seq<char>, k: int)
    requires
        0 <= k <= a.len(),
        k < b.len(),
        a.take(k) == b.take(k),
        k == a.len() || a[k] < b[k],
    ensures
        precedes(a, b),
        !precedes(b, a),
    decreases k,
{
    if k > 0 {
        assert(a[0] == a.take(k)[0]);
        assert(b[0] == b.take(k)[0]);
        assert(a.skip(1).take(k - 1) =~= a.take(k).skip(1));
        assert(b.skip(1).take(k - 1) =~= b.take(k).skip(1));
        law_first_difference_decides(a.skip(1), b.skip(1), k - 1);
    }
}

} // verus!
