//! Small lookup tables and sets of names, kept in vectors.

use vstd::prelude::*;
use vstd::map::*;
use crate::txt;

verus! {

/// A table's key: it can be compared, and it carries a name.
pub trait Key: View {
    /// The name that a key carries.
    spec fn name_of(key: Self::V) -> Seq<char>;

    /// Whether two keys are the same.
    fn same_key(&self, other: &Self) -> (r: bool)
        ensures
            r == (self@ == other@),
    ;

    /// Whether the key carries `name`.
    fn is_named(&self, name: &str) -> (r: bool)
        ensures
            r == (Self::name_of(self@) == name@),
    ;
}

impl Key for String {
    open spec fn name_of(key: Seq<char>) -> Seq<char> {
        key
    }

    fn same_key(&self, other: &String) -> (r: bool) {
        txt::same(self.as_str(), other.as_str())
    }

    fn is_named(&self, name: &str) -> (r: bool) {
        txt::same(self.as_str(), name)
    }
}

impl Key for (String, u64) {
    open spec fn name_of(key: (Seq<char>, u64)) -> Seq<char> {
        key.0
    }

    fn same_key(&self, other: &(String, u64)) -> (r: bool) {
        self.1 == other.1 && txt::same(self.0.as_str(), other.0.as_str())
    }

    fn is_named(&self, name: &str) -> (r: bool) {
        txt::same(self.0.as_str(), name)
    }
}

impl Key for (String, u64, u16) {
    open spec fn name_of(key: (Seq<char>, u64, u16)) -> Seq<char> {
        key.0
    }

    fn same_key(&self, other: &(String, u64, u16)) -> (r: bool) {
        self.1 == other.1 && self.2 == other.2 && txt::same(self.0.as_str(), other.0.as_str())
    }

    fn is_named(&self, name: &str) -> (r: bool) {
        txt::same(self.0.as_str(), name)
    }
}

/// A table from keys to values.
pub struct Table<K, V> {
    entries: Vec<(K, V)>,
}

/// The table that the first `n` entries make; a later entry hides an earlier one
/// with the same key.
pub open spec fn table_upto<K: Key, V: View>(entries: Seq<(K, V)>, n: int) -> Map<K::V, V::V>
    decreases n,
{
    if n <= 0 {
        Map::empty()
    } else {
        table_upto(entries, n - 1).insert(entries[n - 1].0@, entries[n - 1].1@)
    }
}

impl<K: Key, V: View> View for Table<K, V> {
    type V = Map<K::V, V::V>;

    closed spec fn view(&self) -> Map<K::V, V::V> {
        table_upto(self.entries@, self.entries@.len() as int)
    }
}

proof fn lemma_absent<K: Key, V: View>(entries: Seq<(K, V)>, n: int, key: K::V)
    requires
        0 <= n <= entries.len(),
        forall|i: int| 0 <= i < n ==> (#[trigger] entries[i]).0@ != key,
    ensures
        !table_upto(entries, n).contains_key(key),
    decreases n,
{
    if n > 0 {
        assert(entries[n - 1].0@ != key);
        lemma_absent(entries, n - 1, key);
    }
}

proof fn lemma_last<K: Key, V: View>(entries: Seq<(K, V)>, n: int, at: int)
    requires
        0 <= at < n <= entries.len(),
        forall|i: int| at < i < n ==> (#[trigger] entries[i]).0@ != entries[at].0@,
    ensures
        table_upto(entries, n).contains_key(entries[at].0@),
        table_upto(entries, n)[entries[at].0@] == entries[at].1@,
    decreases n,
{
    if n - 1 > at {
        assert(entries[n - 1].0@ != entries[at].0@);
        lemma_last(entries, n - 1, at);
    }
}

proof fn lemma_prefix<K: Key, V: View>(a: Seq<(K, V)>, b: Seq<(K, V)>, n: int)
    requires
        0 <= n <= a.len(),
        n <= b.len(),
        forall|i: int| 0 <= i < n ==> a[i] == b[i],
    ensures
        table_upto(a, n) == table_upto(b, n),
    decreases n,
{
    if n > 0 {
        lemma_prefix(a, b, n - 1);
    }
}

/// `m` without the keys named `name`.
pub open spec fn without_name<K: Key, W>(m: Map<K::V, W>, name: Seq<char>) -> Map<K::V, W> {
    Map::new(|k: K::V| m.contains_key(k) && K::name_of(k) != name, |k: K::V| m[k])
}

impl<K: Key, V: View> Table<K, V> {
    /// The empty table.
    pub fn new() -> (r: Self)
        ensures
            r@ == Map::<K::V, V::V>::empty(),
    {
        Table { entries: Vec::new() }
    }

    /// Looks up `key`.
    pub fn get(&self, key: &K) -> (r: Option<&V>)
        ensures
            r is Some <==> self@.contains_key(key@),
            r matches Some(v) ==> v@ == self@[key@],
    {
        let mut i = self.entries.len();
        while i > 0
            invariant
                0 <= i <= self.entries@.len(),
                forall|j: int| i <= j < self.entries@.len() ==> (#[trigger] self.entries@[j]).0@
                    != key@,
            decreases i,
        {
            if self.entries[i - 1].0.same_key(key) {
                proof {
                    lemma_last(self.entries@, self.entries@.len() as int, i - 1);
                }
                return Some(&self.entries[i - 1].1);
            }
            i = i - 1;
        }
        proof {
            lemma_absent(self.entries@, self.entries@.len() as int, key@);
        }
        None
    }

    /// Whether `key` has a value.
    pub fn contains(&self, key: &K) -> (r: bool)
        ensures
            r == self@.contains_key(key@),
    {
        match self.get(key) {
            Some(_) => true,
            None => false,
        }
    }

    /// Sets the value of `key`.
    pub fn insert(&mut self, key: K, value: V)
        ensures
            final(self)@ == old(self)@.insert(key@, value@),
    {
        let n = self.entries.len();
        let mut i: usize = 0;
        while i < n
            invariant
                n == self.entries@.len(),
                i <= n,
                self.entries@ == old(self).entries@,
                forall|j: int| 0 <= j < i ==> (#[trigger] self.entries@[j]).0@ != key@,
            decreases n - i,
        {
            if self.entries[i].0.same_key(&key) {
                let ghost k = key@;
                let ghost v = value@;
                let ghost was = self.entries@;
                let _gone = self.entries.remove(i);
                self.entries.push((key, value));
                proof {
                    lemma_replaced(was, i as int, self.entries@.last());
                }
                return;
            }
            i = i + 1;
        }
        let ghost was = self.entries@;
        self.entries.push((key, value));
        proof {
            lemma_prefix(was, self.entries@, was.len() as int);
        }
    }

    /// Drops every key named `name`.
    pub fn drop_named(&mut self, name: &str)
        ensures
            final(self)@ == without_name::<K, V::V>(old(self)@, name@),
    {
        let ghost first = self@;
        let mut i: usize = 0;
        while i < self.entries.len()
            invariant
                i <= self.entries@.len(),
                first == old(self)@,
                forall|j: int| 0 <= j < i ==> K::name_of((#[trigger] self.entries@[j]).0@) != name@,
                without_name::<K, V::V>(self@, name@) =~= without_name::<K, V::V>(first, name@),
            decreases self.entries@.len() - i,
        {
            if self.entries[i].0.is_named(name) {
                let ghost was = self.entries@;
                let ghost k = self.entries@[i as int].0@;
                let _gone = self.entries.remove(i);
                proof {
                    assert(self.entries@ == was.remove(i as int));
                    let a = table_upto(was, was.len() as int);
                    let b = self@;
                    assert_maps_equal!(
                        without_name::<K, V::V>(a, name@),
                        without_name::<K, V::V>(b, name@),
                        x => {
                            if x != k {
                                lemma_removed(was, i as int, was.len() as int, x);
                            }
                        }
                    );
                }
            } else {
                i = i + 1;
            }
        }
        proof {
            assert forall|k: K::V| self@.contains_key(k) implies K::name_of(k) != name@ by {
                if forall|j: int|
                    0 <= j < self.entries@.len() ==> (#[trigger] self.entries@[j]).0@ != k {
                    lemma_absent(self.entries@, self.entries@.len() as int, k);
                }
            }
            assert(self@ =~= without_name::<K, V::V>(self@, name@));
        }
    }
}

/// Removing an entry changes nothing at other keys.
proof fn lemma_removed<K: Key, V: View>(entries: Seq<(K, V)>, at: int, n: int, x: K::V)
    requires
        0 <= at < n <= entries.len(),
        x != entries[at].0@,
    ensures
        table_upto(entries, n).contains_key(x) == table_upto(
            entries.remove(at),
            n - 1,
        ).contains_key(x),
        table_upto(entries, n).contains_key(x) ==> table_upto(entries, n)[x] == table_upto(
            entries.remove(at),
            n - 1,
        )[x],
    decreases n,
{
    let less = entries.remove(at);
    if n - 1 == at {
        lemma_prefix(entries, less, at);
    } else {
        lemma_removed(entries, at, n - 1, x);
        assert(less[n - 2] == entries[n - 1]);
    }
}

/// Removing an entry and adding one with the same key at the end sets the value
/// of that key.
proof fn lemma_replaced<K: Key, V: View>(entries: Seq<(K, V)>, at: int, new: (K, V))
    requires
        0 <= at < entries.len(),
        entries[at].0@ == new.0@,
    ensures
        table_upto(entries.remove(at).push(new), entries.len() as int) == table_upto(
            entries,
            entries.len() as int,
        ).insert(new.0@, new.1@),
{
    let n = entries.len() as int;
    let less = entries.remove(at);
    lemma_prefix(less, less.push(new), n - 1);
    assert_maps_equal!(
        table_upto(less.push(new), n),
        table_upto(entries, n).insert(new.0@, new.1@),
        x => {
            if x != new.0@ {
                lemma_removed(entries, at, n, x);
            }
        }
    );
}

// --- sets of names -------------------------------------------------------------

/// A set of names.
pub struct NameSet {
    items: Vec<String>,
}

impl View for NameSet {
    type V = Set<Seq<char>>;

    closed spec fn view(&self) -> Set<Seq<char>> {
        Set::new(|s: Seq<char>| exists|i: int| 0 <= i < self.items@.len() && #[trigger] self.items@[i]@ == s)
    }
}

impl NameSet {
    /// The empty set.
    pub fn new() -> (r: NameSet)
        ensures
            r@ == Set::<Seq<char>>::empty(),
    {
        let r = NameSet { items: Vec::new() };
        assert(r@ =~= Set::<Seq<char>>::empty());
        r
    }

    /// Whether the set holds nothing.
    pub fn is_empty(&self) -> (r: bool)
        ensures
            r == (self@ == Set::<Seq<char>>::empty()),
    {
        if self.items.len() == 0 {
            assert(self@ =~= Set::<Seq<char>>::empty());
            true
        } else {
            assert(self@.contains(self.items@[0]@));
            false
        }
    }

    /// The first `n` names.
    closed spec fn first(&self, n: int) -> Set<Seq<char>>
        decreases n,
    {
        if n <= 0 {
            Set::empty()
        } else {
            self.first(n - 1).insert(self.items@[n - 1]@)
        }
    }

    proof fn lemma_first(&self, n: int)
        requires
            0 <= n <= self.items@.len(),
        ensures
            self.first(n).finite(),
            forall|s: Seq<char>|
                #[trigger] self.first(n).contains(s) <==> exists|i: int|
                    0 <= i < n && #[trigger] self.items@[i]@ == s,
        decreases n,
    {
        if n > 0 {
            self.lemma_first(n - 1);
            assert forall|s: Seq<char>| #[trigger] self.first(n).contains(s) <==> exists|i: int|
                0 <= i < n && #[trigger] self.items@[i]@ == s by {
                if s == self.items@[n - 1]@ {
                    assert(self.first(n).contains(s));
                } else if self.first(n - 1).contains(s) {
                    let i = choose|i: int| 0 <= i < n - 1 && #[trigger] self.items@[i]@ == s;
                    assert(self.items@[i]@ == s);
                }
            }
        }
    }

    /// How many names the set holds.
    pub fn len(&self) -> (r: usize)
        ensures
            self@.finite(),
            r == self@.len(),
    {
        let mut n: usize = 0;
        let mut i: usize = 0;
        while i < self.items.len()
            invariant
                n <= i <= self.items@.len(),
                n == self.first(i as int).len(),
            decreases self.items@.len() - i,
        {
            proof {
                self.lemma_first(i as int);
            }
            let mut seen = false;
            let mut j: usize = 0;
            while j < i
                invariant
                    j <= i < self.items@.len(),
                    seen == (exists|k: int|
                        0 <= k < j && #[trigger] self.items@[k]@ == self.items@[i as int]@),
                decreases i - j,
            {
                if txt::same(self.items[j].as_str(), self.items[i].as_str()) {
                    assert(self.items@[j as int]@ == self.items@[i as int]@);
                    seen = true;
                }
                j = j + 1;
            }
            if !seen {
                n = n + 1;
            }
            i = i + 1;
        }
        proof {
            self.lemma_first(i as int);
            assert(self.first(i as int) =~= self@);
        }
        n
    }

    fn position(&self, name: &str) -> (r: Option<usize>)
        ensures
            match r {
                Some(i) => i < self.items@.len() && self.items@[i as int]@ == name@,
                None => forall|i: int|
                    0 <= i < self.items@.len() ==> #[trigger] self.items@[i]@ != name@,
            },
    {
        let mut i: usize = 0;
        while i < self.items.len()
            invariant
                i <= self.items@.len(),
                forall|j: int| 0 <= j < i ==> #[trigger] self.items@[j]@ != name@,
            decreases self.items@.len() - i,
        {
            if txt::same(self.items[i].as_str(), name) {
                return Some(i);
            }
            i = i + 1;
        }
        None
    }

    /// Whether the set holds `name`.
    pub fn contains(&self, name: &str) -> (r: bool)
        ensures
            r == self@.contains(name@),
    {
        match self.position(name) {
            Some(_) => true,
            None => false,
        }
    }

    /// Adds `name`.
    pub fn insert(&mut self, name: &str)
        ensures
            final(self)@ == old(self)@.insert(name@),
    {
        let ghost was = self.items@;
        match self.position(name) {
            Some(_) => {
                assert(self@ =~= old(self)@.insert(name@));
            },
            None => {
                let ghost before = self@;
                self.items.push(name.to_owned());
                proof {
                    assert forall|s: Seq<char>| #[trigger]
                        self@.contains(s) == before.insert(name@).contains(s) by {
                        if before.contains(s) {
                            let i = choose|i: int| 0 <= i < was.len() && #[trigger] was[i]@ == s;
                            assert(self.items@[i]@ == s);
                        }
                        if s == name@ {
                            assert(self.items@[was.len() as int]@ == s);
                        }
                    }
                    assert(self@ =~= before.insert(name@));
                }
            },
        }
    }

    /// Removes `name`; reports whether it was there.
    pub fn remove(&mut self, name: &str) -> (r: bool)
        ensures
            r == old(self)@.contains(name@),
            final(self)@ == old(self)@.remove(name@),
    {
        let there = self.contains(name);
        let mut i: usize = 0;
        while i < self.items.len()
            invariant
                i <= self.items@.len(),
                self@.remove(name@) =~= old(self)@.remove(name@),
                forall|j: int| 0 <= j < i ==> #[trigger] self.items@[j]@ != name@,
            decreases self.items@.len() - i,
        {
            if txt::same(self.items[i].as_str(), name) {
                let ghost was = self.items@;
                let ghost before = self@;
                let _gone = self.items.remove(i);
                proof {
                    assert forall|s: Seq<char>| s != name@ implies #[trigger] self@.contains(s)
                        == before.contains(s) by {
                        if before.contains(s) {
                            let j = choose|j: int| 0 <= j < was.len() && #[trigger] was[j]@ == s;
                            if j < i {
                                assert(self.items@[j]@ == s);
                            } else {
                                assert(self.items@[j - 1]@ == s);
                            }
                        }
                        if self@.contains(s) {
                            let j = choose|j: int|
                                0 <= j < self.items@.len() && #[trigger] self.items@[j]@ == s;
                            if j < i {
                                assert(was[j]@ == s);
                            } else {
                                assert(was[j + 1]@ == s);
                            }
                        }
                    }
                }
            } else {
                i = i + 1;
            }
        }
        assert(!self@.contains(name@));
        assert(self@ =~= old(self)@.remove(name@));
        there
    }

    /// Keeps only the names that `list` holds too.
    pub fn retain_in(&mut self, list: &Vec<String>)
        ensures
            final(self)@ == old(self)@.filter(|s: Seq<char>| txt::texts(list@).contains(s)),
    {
        let ghost known = txt::texts(list@);
        let mut kept: NameSet = NameSet::new();
        let mut i: usize = 0;
        while i < self.items.len()
            invariant
                i <= self.items@.len(),
                known == txt::texts(list@),
                *self == *old(self),
                forall|s: Seq<char>|
                    #[trigger] kept@.contains(s) <==> known.contains(s) && (exists|j: int|
                        0 <= j < i && #[trigger] self.items@[j]@ == s),
            decreases self.items@.len() - i,
        {
            let ghost before = kept@;
            let ghost name = self.items@[i as int]@;
            if txt::list_holds(list, self.items[i].as_str()) {
                kept.insert(self.items[i].as_str());
            }
            proof {
                assert forall|s: Seq<char>| #[trigger] kept@.contains(s) <==> known.contains(s) && (
                exists|j: int| 0 <= j < i + 1 && #[trigger] self.items@[j]@ == s) by {
                    if s == name {
                        assert(self.items@[i as int]@ == s);
                    }
                }
            }
            i = i + 1;
        }
        *self = kept;
        assert(self@ =~= old(self)@.filter(|s: Seq<char>| known.contains(s)));
    }
}

} // verus!
