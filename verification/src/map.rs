//! A map from names to values that remembers the order of insertion.

use crate::text::{same, texts};
use vstd::prelude::*;

verus! {

/// A map from names to values. Each name occurs once, and the entries stay in
/// the order in which their names were first inserted.
#[derive(Debug, PartialEq)]
pub struct NameMap<V> {
    entries: Vec<(String, V)>,
}

spec fn distinct<V>(es: Seq<(String, V)>) -> bool {
    forall|i: int, j: int|
        0 <= i < j < es.len() ==> (#[trigger] es[i]).0@ != (#[trigger] es[j]).0@
}

spec fn listed<V>(es: Seq<(String, V)>) -> Seq<(Seq<char>, V)> {
    Seq::new(es.len(), |i: int| (es[i].0@, es[i].1))
}

/// The map that a list of entries stands for; of two entries with one name the
/// later counts.
pub open spec fn entries_map<V>(s: Seq<(Seq<char>, V)>) -> Map<Seq<char>, V>
    decreases s.len(),
{
    if s.len() == 0 {
        Map::empty()
    } else {
        entries_map(s.drop_last()).insert(s.last().0, s.last().1)
    }
}

/// Whether no name occurs twice in a list of entries.
pub open spec fn names_unique<V>(s: Seq<(Seq<char>, V)>) -> bool {
    forall|i: int, j: int| 0 <= i < j < s.len() ==> (#[trigger] s[i]).0 != (#[trigger] s[j]).0
}

/// A name that no entry has is not in the map.
pub proof fn lemma_name_absent<V>(s: Seq<(Seq<char>, V)>, k: Seq<char>)
    requires
        forall|i: int| 0 <= i < s.len() ==> (#[trigger] s[i]).0 != k,
    ensures
        !entries_map(s).contains_key(k),
    decreases s.len(),
{
    if s.len() > 0 {
        lemma_name_absent(s.drop_last(), k);
        assert(s[s.len() - 1].0 != k);
    }
}

/// A list with unique names has as many entries as its map.
pub proof fn lemma_entries_counted<V>(s: Seq<(Seq<char>, V)>)
    requires
        names_unique(s),
    ensures
        entries_map(s).dom().finite(),
        entries_map(s).dom().len() == s.len(),
    decreases s.len(),
{
    if s.len() > 0 {
        let init = s.drop_last();
        assert(names_unique(init)) by {
            assert forall|i: int, j: int| 0 <= i < j < init.len() implies (#[trigger] init[i]).0
                != (#[trigger] init[j]).0 by {
                assert(s[i].0 != s[j].0);
            }
        }
        lemma_entries_counted(init);
        assert forall|i: int| 0 <= i < init.len() implies (#[trigger] init[i]).0 != s.last().0 by {
            assert(s[i].0 != s[s.len() - 1].0);
        }
        lemma_name_absent(init, s.last().0);
        assert(entries_map(s).dom() =~= entries_map(init).dom().insert(s.last().0));
    }
}

/// Every entry of a list with unique names is in the map.
pub proof fn lemma_name_present<V>(s: Seq<(Seq<char>, V)>, i: int)
    requires
        names_unique(s),
        0 <= i < s.len(),
    ensures
        entries_map(s).contains_key(s[i].0),
        entries_map(s)[s[i].0] == s[i].1,
    decreases s.len(),
{
    if i < s.len() - 1 {
        assert(names_unique(s.drop_last()));
        lemma_name_present(s.drop_last(), i);
        assert(s[i].0 != s[s.len() - 1].0);
    }
}

/// Every name of the map is listed.
pub proof fn lemma_name_listed<V>(s: Seq<(Seq<char>, V)>, key: Seq<char>) -> (i: int)
    requires
        entries_map(s).contains_key(key),
    ensures
        0 <= i < s.len(),
        s[i].0 == key,
    decreases s.len(),
{
    if s.last().0 == key {
        s.len() - 1
    } else {
        lemma_name_listed(s.drop_last(), key)
    }
}

proof fn lemma_value_replaced<V>(s: Seq<(Seq<char>, V)>, i: int, v: V)
    requires
        names_unique(s),
        0 <= i < s.len(),
    ensures
        entries_map(s.update(i, (s[i].0, v))) == entries_map(s).insert(s[i].0, v),
    decreases s.len(),
{
    let t = s.update(i, (s[i].0, v));
    if i < s.len() - 1 {
        assert(names_unique(s.drop_last()));
        lemma_value_replaced(s.drop_last(), i, v);
        assert(t.drop_last() =~= s.drop_last().update(i, (s[i].0, v)));
        assert(s[i].0 != s[s.len() - 1].0);
        assert(entries_map(t) =~= entries_map(s).insert(s[i].0, v));
    } else {
        assert(t.drop_last() =~= s.drop_last());
        assert(entries_map(t) =~= entries_map(s).insert(s[i].0, v));
    }
}

proof fn lemma_entry_removed<V>(s: Seq<(Seq<char>, V)>, i: int)
    requires
        names_unique(s),
        0 <= i < s.len(),
    ensures
        names_unique(s.remove(i)),
        entries_map(s.remove(i)) == entries_map(s).remove(s[i].0),
    decreases s.len(),
{
    let t = s.remove(i);
    assert forall|a: int, b: int| 0 <= a < b < t.len() implies (#[trigger] t[a]).0 != (
    #[trigger] t[b]).0 by {
        let x = if a < i {
            a
        } else {
            a + 1
        };
        let y = if b < i {
            b
        } else {
            b + 1
        };
        assert(s[x].0 != s[y].0);
    }
    let init = s.drop_last();
    assert(names_unique(init));
    if i < s.len() - 1 {
        lemma_entry_removed(init, i);
        assert(t.drop_last() =~= init.remove(i));
        assert(s[i].0 != s[s.len() - 1].0);
        assert(entries_map(t) =~= entries_map(s).remove(s[i].0));
    } else {
        assert(t =~= init);
        assert forall|k: int| 0 <= k < init.len() implies (#[trigger] init[k]).0 != s[i].0 by {
            assert(s[k].0 != s[i].0);
        }
        lemma_name_absent(init, s[i].0);
        assert(entries_map(t) =~= entries_map(s).remove(s[i].0));
    }
}

impl<V> View for NameMap<V> {
    type V = Map<Seq<char>, V>;

    closed spec fn view(&self) -> Map<Seq<char>, V> {
        entries_map(listed(self.entries@))
    }
}

impl<V> NameMap<V> {
    #[verifier::type_invariant]
    spec fn inv(self) -> bool {
        distinct(self.entries@)
    }

    /// The entries in order.
    pub closed spec fn list(self) -> Seq<(Seq<char>, V)> {
        listed(self.entries@)
    }

    /// An empty map.
    pub fn new() -> (r: Self)
        ensures
            r@ == Map::<Seq<char>, V>::empty(),
            r.list() == Seq::<(Seq<char>, V)>::empty(),
    {
        let r = NameMap { entries: Vec::new() };
        assert(r.list() =~= Seq::<(Seq<char>, V)>::empty());
        r
    }

    /// The number of entries.
    pub fn len(&self) -> (n: usize)
        ensures
            n == self.list().len(),
            names_unique(self.list()),
            self@ == entries_map(self.list()),
            self@.dom().finite(),
            n == self@.dom().len(),
    {
        proof {
            use_type_invariant(self);
            let es = self.entries@;
            assert forall|i: int, j: int| 0 <= i < j < self.list().len() implies (
            #[trigger] self.list()[i]).0 != (#[trigger] self.list()[j]).0 by {
                assert(es[i].0@ != es[j].0@);
            }
            lemma_entries_counted(self.list());
        }
        self.entries.len()
    }

    /// The name of the entry at a position.
    pub fn name(&self, i: usize) -> (r: &String)
        requires
            i < self.list().len(),
        ensures
            r@ == self.list()[i as int].0,
    {
        &self.entries[i].0
    }

    /// The value of the entry at a position.
    pub fn value(&self, i: usize) -> (r: &V)
        requires
            i < self.list().len(),
        ensures
            *r == self.list()[i as int].1,
    {
        &self.entries[i].1
    }

    /// The names in order.
    pub fn names(&self) -> (r: Vec<String>)
        ensures
            texts(r@) == self.list().map_values(|e: (Seq<char>, V)| e.0),
            texts(r@).to_set() == self@.dom(),
    {
        let mut names: Vec<String> = Vec::new();
        let n: usize = self.len();
        let ghost list = self.list();
        let mut i: usize = 0;
        while i < n
            invariant
                i <= n == list.len(),
                list == self.list(),
                names@.len() == i,
                forall|j: int| 0 <= j < i ==> (#[trigger] names@[j])@ == list[j].0,
            decreases n - i,
        {
            names.push(self.name(i).clone());
            i += 1;
        }
        proof {
            assert(texts(names@) =~= list.map_values(|e: (Seq<char>, V)| e.0));
            assert forall|x: Seq<char>| #[trigger]
                texts(names@).contains(x) <==> self@.contains_key(x) by {
                if texts(names@).contains(x) {
                    let j = choose|j: int| 0 <= j < texts(names@).len() && texts(names@)[j] == x;
                    assert(names@[j]@ == x);
                    lemma_name_present(list, j);
                }
                if self@.contains_key(x) {
                    let j = lemma_name_listed(list, x);
                    assert(texts(names@)[j] == x);
                }
            }
            assert(texts(names@).to_set() =~= self@.dom());
        }
        names
    }

    fn find(&self, key: &str) -> (r: Option<usize>)
        ensures
            match r {
                Some(i) => i < self.list().len() && self.list()[i as int].0 == key@,
                None => !self@.contains_key(key@),
            },
            names_unique(self.list()),
    {
        let n: usize = self.len();
        let mut i: usize = 0;
        while i < n
            invariant
                i <= n == self.list().len(),
                names_unique(self.list()),
                forall|j: int| 0 <= j < i ==> (#[trigger] self.list()[j]).0 != key@,
            decreases n - i,
        {
            if same(self.name(i), key) {
                return Some(i);
            }
            i += 1;
        }
        proof {
            lemma_name_absent(self.list(), key@);
        }
        None
    }

    /// The value of a name.
    pub fn get(&self, key: &str) -> (r: Option<&V>)
        ensures
            match r {
                Some(v) => self@.contains_key(key@) && *v == self@[key@],
                None => !self@.contains_key(key@),
            },
    {
        match self.find(key) {
            Some(i) => {
                proof {
                    lemma_name_present(self.list(), i as int);
                }
                Some(&self.entries[i].1)
            },
            None => None,
        }
    }

    /// Whether a name has a value.
    pub fn contains(&self, key: &str) -> (r: bool)
        ensures
            r == self@.contains_key(key@),
    {
        match self.get(key) {
            Some(_) => true,
            None => false,
        }
    }

    /// Sets the value of a name, in place of an earlier one.
    pub fn insert(&mut self, key: String, value: V)
        ensures
            final(self)@ == old(self)@.insert(key@, value),
            !old(self)@.contains_key(key@) ==> final(self).list() == old(self).list().push(
                (key@, value),
            ),
    {
        let at = self.find(&key);
        proof {
            use_type_invariant(&*self);
        }
        let mut entries: Vec<(String, V)> = Vec::new();
        std::mem::swap(&mut entries, &mut self.entries);
        let ghost before = entries@;
        let ghost lst = listed(before);
        match at {
            Some(i) => {
                proof {
                    lemma_value_replaced(lst, i as int, value);
                    lemma_name_present(lst, i as int);
                    assert(listed(before.update(i as int, (key, value))) =~= lst.update(
                        i as int,
                        (lst[i as int].0, value),
                    ));
                }
                entries.set(i, (key, value));
            },
            None => {
                proof {
                    assert forall|j: int| 0 <= j < before.len() implies (#[trigger] before[j]).0@
                        != key@ by {
                        lemma_name_present(lst, j);
                        assert(lst[j].0 == before[j].0@);
                    }
                    assert(listed(before.push((key, value))) =~= lst.push((key@, value)));
                    assert(lst.push((key@, value)).drop_last() =~= lst);
                }
                entries.push((key, value));
            },
        }
        self.entries = entries;
    }

    /// Takes the value of a name out of the map.
    pub fn remove(&mut self, key: &str) -> (r: Option<V>)
        ensures
            final(self)@ == old(self)@.remove(key@),
            match r {
                Some(v) => old(self)@.contains_key(key@) && v == old(self)@[key@],
                None => !old(self)@.contains_key(key@),
            },
    {
        match self.find(key) {
            Some(i) => {
                proof {
                    use_type_invariant(&*self);
                }
                let mut entries: Vec<(String, V)> = Vec::new();
                std::mem::swap(&mut entries, &mut self.entries);
                let ghost before = entries@;
                let ghost lst = listed(before);
                proof {
                    lemma_name_present(lst, i as int);
                    lemma_entry_removed(lst, i as int);
                    assert(listed(before.remove(i as int)) =~= lst.remove(i as int));
                    let after = before.remove(i as int);
                    assert forall|a: int, b: int| 0 <= a < b < after.len() implies (
                    #[trigger] after[a]).0@ != (#[trigger] after[b]).0@ by {
                        assert(lst.remove(i as int)[a].0 != lst.remove(i as int)[b].0);
                    }
                }
                let (_, value) = entries.remove(i);
                self.entries = entries;
                Some(value)
            },
            None => {
                proof {
                    assert(self@.remove(key@) =~= self@);
                }
                None
            },
        }
    }
}

/// The texts held by a map of strings.
pub open spec fn text_map(m: Map<Seq<char>, String>) -> Map<Seq<char>, Seq<char>> {
    m.map_values(|s: String| s@)
}

} // verus!
