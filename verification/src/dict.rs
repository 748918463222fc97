//! A verified string-keyed dictionary, used throughout in place of a hash
//! map: headers, query parameters, path parameters, endpoint tables and the
//! project cache all hold their entries in one of these. Keys are unique and
//! the abstract value is a `Map` from key characters to the value's view.

use vstd::prelude::*;

use crate::text::str_eq;

verus! {

/// The map described by an association sequence, later entries winning.
pub open spec fn assoc_map<K, W>(s: Seq<(K, W)>) -> Map<K, W>
    decreases s.len(),
{
    if s.len() == 0 {
        Map::empty()
    } else {
        assoc_map(s.drop_last()).insert(s.last().0, s.last().1)
    }
}

pub proof fn lemma_assoc_contains<K, W>(s: Seq<(K, W)>, k: K)
    ensures
        assoc_map(s).contains_key(k) <==> exists|i: int| 0 <= i < s.len() && (#[trigger] s[i]).0
            == k,
    decreases s.len(),
{
    if s.len() > 0 {
        lemma_assoc_contains(s.drop_last(), k);
        if s.last().0 == k {
            assert(s[s.len() - 1].0 == k);
        } else if assoc_map(s).contains_key(k) {
            let i = choose|i: int| 0 <= i < s.drop_last().len() && (#[trigger] s.drop_last()[i]).0
                == k;
            assert(s[i].0 == k);
        } else {
            if exists|i: int| 0 <= i < s.len() && (#[trigger] s[i]).0 == k {
                let i = choose|i: int| 0 <= i < s.len() && (#[trigger] s[i]).0 == k;
                assert(s.drop_last()[i].0 == k);
            }
        }
    }
}

pub proof fn lemma_assoc_get<K, W>(s: Seq<(K, W)>, i: int)
    requires
        0 <= i < s.len(),
        forall|a: int, b: int| 0 <= a < b < s.len() ==> (#[trigger] s[a]).0 != (#[trigger] s[b]).0,
    ensures
        assoc_map(s).contains_key(s[i].0),
        assoc_map(s)[s[i].0] == s[i].1,
    decreases s.len(),
{
    if i == s.len() - 1 {
        lemma_assoc_contains(s, s[i].0);
    } else {
        assert(forall|a: int, b: int|
            0 <= a < b < s.drop_last().len() ==> (#[trigger] s.drop_last()[a]).0
                != (#[trigger] s.drop_last()[b]).0);
        lemma_assoc_get(s.drop_last(), i);
        assert(s[i].0 != s.last().0);
    }
}

pub proof fn lemma_assoc_dom_len<K, W>(s: Seq<(K, W)>)
    requires
        forall|a: int, b: int| 0 <= a < b < s.len() ==> (#[trigger] s[a]).0 != (#[trigger] s[b]).0,
    ensures
        assoc_map(s).dom().finite(),
        assoc_map(s).dom().len() == s.len(),
    decreases s.len(),
{
    if s.len() > 0 {
        let d = s.drop_last();
        assert(forall|a: int, b: int|
            0 <= a < b < d.len() ==> (#[trigger] d[a]).0 != (#[trigger] d[b]).0);
        lemma_assoc_dom_len(d);
        lemma_assoc_contains(d, s.last().0);
        if assoc_map(d).contains_key(s.last().0) {
            let i = choose|i: int| 0 <= i < d.len() && (#[trigger] d[i]).0 == s.last().0;
            assert(s[i].0 == s[s.len() - 1].0);
            assert(false);
        }
        assert(assoc_map(s).dom() =~= assoc_map(d).dom().insert(s.last().0));
        vstd::set::axiom_set_insert_finite(assoc_map(d).dom(), s.last().0);
        vstd::set::axiom_set_insert_len(assoc_map(d).dom(), s.last().0);
    } else {
        assert(assoc_map(s).dom() =~= Set::<K>::empty());
        assert(Set::<K>::empty().len() == 0) by {
            broadcast use vstd::set::axiom_set_empty_len;

        }
    }
}

/// String-keyed dictionary with unique keys.
pub struct Dict<V> {
    entries: Vec<(String, V)>,
}

impl<V: View> View for Dict<V> {
    type V = Map<Seq<char>, V::V>;

    closed spec fn view(&self) -> Map<Seq<char>, V::V> {
        assoc_map(self.spec_entries())
    }
}

impl<V: View> Dict<V> {
    /// The entries in insertion order, abstracted to their views.
    pub closed spec fn spec_entries(&self) -> Seq<(Seq<char>, V::V)> {
        self.entries@.map_values(|e: (String, V)| (e.0@, e.1@))
    }

    /// Keys are pairwise distinct.
    pub closed spec fn wf(&self) -> bool {
        forall|a: int, b: int|
            0 <= a < b < self.entries@.len() ==> (#[trigger] self.entries@[a]).0@
                != (#[trigger] self.entries@[b]).0@
    }

    /// Every entry is in the map, and every key of the map names an entry.
    pub proof fn lemma_view(&self)
        requires
            self.wf(),
        ensures
            forall|i: int|
                0 <= i < self.spec_entries().len() ==> self@.contains_key(
                    (#[trigger] self.spec_entries()[i]).0,
                ) && self@[self.spec_entries()[i].0] == self.spec_entries()[i].1,
            forall|k: Seq<char>|
                self@.contains_key(k) ==> exists|i: int|
                    0 <= i < self.spec_entries().len() && (#[trigger] self.spec_entries()[i]).0
                        == k,
            self@.dom().finite(),
            self@.dom().len() == self.spec_entries().len(),
    {
        let s = self.spec_entries();
        assert(forall|a: int, b: int|
            0 <= a < b < s.len() ==> (#[trigger] s[a]).0 != (#[trigger] s[b]).0);
        assert forall|i: int| 0 <= i < s.len() implies self@.contains_key((#[trigger] s[i]).0)
            && self@[s[i].0] == s[i].1 by {
            lemma_assoc_get(s, i);
        }
        assert forall|k: Seq<char>| self@.contains_key(k) implies exists|i: int|
            0 <= i < s.len() && (#[trigger] s[i]).0 == k by {
            lemma_assoc_contains(s, k);
        }
        lemma_assoc_dom_len(s);
    }

    /// The abstract map is the association map of the entries.
    pub proof fn lemma_view_assoc(&self)
        ensures
            self@ == assoc_map(self.spec_entries()),
    {
    }

    pub fn new() -> (r: Dict<V>)
        ensures
            r.wf(),
            r@ == Map::<Seq<char>, V::V>::empty(),
            r.spec_entries() == Seq::<(Seq<char>, V::V)>::empty(),
    {
        let r = Dict { entries: Vec::new() };
        proof {
            assert(r.spec_entries() =~= Seq::<(Seq<char>, V::V)>::empty());
        }
        r
    }

    pub fn len(&self) -> (r: usize)
        ensures
            r == self.spec_entries().len(),
    {
        self.entries.len()
    }

    pub fn is_empty(&self) -> (r: bool)
        requires
            self.wf(),
        ensures
            r <==> (self@ == Map::<Seq<char>, V::V>::empty()),
            r <==> self.spec_entries().len() == 0,
    {
        proof {
            self.lemma_view();
            if self.spec_entries().len() == 0 {
                assert(self@ =~= Map::<Seq<char>, V::V>::empty());
            } else {
                assert(self@.contains_key(self.spec_entries()[0].0));
            }
        }
        self.entries.len() == 0
    }

    pub fn key_at(&self, i: usize) -> (r: &String)
        requires
            i < self.spec_entries().len(),
        ensures
            r@ == self.spec_entries()[i as int].0,
    {
        &self.entries[i].0
    }

    pub fn val_at(&self, i: usize) -> (r: &V)
        requires
            i < self.spec_entries().len(),
        ensures
            r@ == self.spec_entries()[i as int].1,
    {
        &self.entries[i].1
    }

    /// Looks a key up.
    pub fn get(&self, k: &str) -> (r: Option<&V>)
        requires
            self.wf(),
        ensures
            match r {
                Some(v) => self@.contains_key(k@) && v@ == self@[k@],
                None => !self@.contains_key(k@),
            },
    {
        proof {
            self.lemma_view();
        }
        let n = self.entries.len();
        let mut i: usize = 0;
        while i < n
            invariant
                0 <= i <= n,
                n == self.entries@.len(),
                self.wf(),
                forall|j: int| 0 <= j < i ==> (#[trigger] self.spec_entries()[j]).0 != k@,
            decreases n - i,
        {
            if str_eq(self.entries[i].0.as_str(), k) {
                proof {
                    self.lemma_view();
                    assert(self.spec_entries()[i as int].0 == k@);
                }
                return Some(&self.entries[i].1);
            }
            proof {
                assert(self.spec_entries()[i as int].0 != k@);
            }
            i = i + 1;
        }
        proof {
            self.lemma_view();
            if self@.contains_key(k@) {
                let j = choose|j: int|
                    0 <= j < self.spec_entries().len() && (#[trigger] self.spec_entries()[j]).0
                        == k@;
                assert(false);
            }
        }
        None
    }

    /// Binds a key to a value, replacing any previous binding in place.
    pub fn insert(&mut self, k: String, v: V)
        requires
            old(self).wf(),
        ensures
            final(self).wf(),
            final(self)@ == old(self)@.insert(k@, v@),
            !old(self)@.contains_key(k@) ==> final(self).spec_entries() == old(
                self,
            ).spec_entries().push((k@, v@)),
            old(self)@.contains_key(k@) ==> final(self).spec_entries().len() == old(
                self,
            ).spec_entries().len(),
    {
        proof {
            self.lemma_view();
        }
        let n = self.entries.len();
        let mut i: usize = 0;
        while i < n
            invariant
                0 <= i <= n,
                n == self.entries@.len(),
                self.wf(),
                self == old(self),
                forall|j: int| 0 <= j < i ==> (#[trigger] self.spec_entries()[j]).0 != k@,
            decreases n - i,
        {
            if str_eq(self.entries[i].0.as_str(), k.as_str()) {
                proof {
                    assert(self.spec_entries()[i as int].0 == k@);
                }
                self.entries[i] = (k, v);
                proof {
                    lemma_assoc_update(
                        old(self).spec_entries(),
                        i as int,
                        k@,
                        v@,
                    );
                    assert(self.spec_entries() =~= old(self).spec_entries().update(
                        i as int,
                        (k@, v@),
                    ));
                    old(self).lemma_view();
                    assert(self@ =~= old(self)@.insert(k@, v@));
                }
                return ;
            }
            proof {
                assert(self.spec_entries()[i as int].0 != k@);
            }
            i = i + 1;
        }
        self.entries.push((k, v));
        proof {
            assert forall|a: int, b: int| 0 <= a < b < self.entries@.len() implies (
            #[trigger] self.entries@[a]).0@ != (#[trigger] self.entries@[b]).0@ by {
                if b == self.entries@.len() - 1 {
                    assert(old(self).spec_entries()[a].0 == self.entries@[a].0@);
                } else {
                    assert(old(self).entries@[a].0@ != old(self).entries@[b].0@);
                }
            }
            assert(self.spec_entries() =~= old(self).spec_entries().push((k@, v@)));
            assert(self.spec_entries().drop_last() =~= old(self).spec_entries());
            assert(self@ =~= old(self)@.insert(k@, v@));
            old(self).lemma_view();
            if old(self)@.contains_key(k@) {
                let j = choose|j: int|
                    0 <= j < old(self).spec_entries().len() && (#[trigger] old(
                        self,
                    ).spec_entries()[j]).0 == k@;
                assert(false);
            }
        }
    }

    /// Removes a binding, if present.
    pub fn remove(&mut self, k: &str)
        requires
            old(self).wf(),
        ensures
            final(self).wf(),
            final(self)@ == old(self)@.remove(k@),
    {
        proof {
            self.lemma_view();
        }
        let n = self.entries.len();
        let mut i: usize = 0;
        while i < n
            invariant
                0 <= i <= n,
                n == self.entries@.len(),
                self.wf(),
                self == old(self),
                forall|j: int| 0 <= j < i ==> (#[trigger] self.spec_entries()[j]).0 != k@,
            decreases n - i,
        {
            if str_eq(self.entries[i].0.as_str(), k) {
                proof {
                    assert(self.spec_entries()[i as int].0 == k@);
                }
                self.entries.remove(i);
                proof {
                    lemma_assoc_remove(old(self).spec_entries(), i as int);
                    assert(self.spec_entries() =~= old(self).spec_entries().remove(i as int));
                    assert(self@ =~= old(self)@.remove(k@));
                }
                return ;
            }
            proof {
                assert(self.spec_entries()[i as int].0 != k@);
            }
            i = i + 1;
        }
        proof {
            self.lemma_view();
            if old(self)@.contains_key(k@) {
                let j = choose|j: int|
                    0 <= j < self.spec_entries().len() && (#[trigger] self.spec_entries()[j]).0
                        == k@;
                assert(false);
            }
            assert(self@ =~= old(self)@.remove(k@));
        }
    }
}

/// Replacing the entry that holds a key rebinds exactly that key.
proof fn lemma_assoc_update<K, W>(s: Seq<(K, W)>, i: int, k: K, v: W)
    requires
        0 <= i < s.len(),
        s[i].0 == k,
        forall|a: int, b: int| 0 <= a < b < s.len() ==> (#[trigger] s[a]).0 != (#[trigger] s[b]).0,
    ensures
        assoc_map(s.update(i, (k, v))) == assoc_map(s).insert(k, v),
    decreases s.len(),
{
    let t = s.update(i, (k, v));
    if i == s.len() - 1 {
        assert(t.drop_last() =~= s.drop_last());
        assert(assoc_map(t) =~= assoc_map(s).insert(k, v));
    } else {
        let d = s.drop_last();
        assert(forall|a: int, b: int|
            0 <= a < b < d.len() ==> (#[trigger] d[a]).0 != (#[trigger] d[b]).0);
        lemma_assoc_update(d, i, k, v);
        assert(t.drop_last() =~= d.update(i, (k, v)));
        assert(t.last() == s.last());
        assert(s.last().0 != k);
        assert(assoc_map(t) == assoc_map(d.update(i, (k, v))).insert(s.last().0, s.last().1));
        assert(assoc_map(t) =~= assoc_map(s).insert(k, v));
    }
}

/// Removing the entry that holds a key unbinds exactly that key.
proof fn lemma_assoc_remove<K, W>(s: Seq<(K, W)>, i: int)
    requires
        0 <= i < s.len(),
        forall|a: int, b: int| 0 <= a < b < s.len() ==> (#[trigger] s[a]).0 != (#[trigger] s[b]).0,
    ensures
        assoc_map(s.remove(i)) == assoc_map(s).remove(s[i].0),
    decreases s.len(),
{
    let t = s.remove(i);
    if i == s.len() - 1 {
        assert(t =~= s.drop_last());
        lemma_assoc_contains(s.drop_last(), s[i].0);
        if assoc_map(s.drop_last()).contains_key(s[i].0) {
            let j = choose|j: int|
                0 <= j < s.drop_last().len() && (#[trigger] s.drop_last()[j]).0 == s[i].0;
            assert(s[j].0 == s[i].0);
            assert(false);
        }
        assert(assoc_map(t) =~= assoc_map(s).remove(s[i].0));
    } else {
        let d = s.drop_last();
        assert(forall|a: int, b: int|
            0 <= a < b < d.len() ==> (#[trigger] d[a]).0 != (#[trigger] d[b]).0);
        lemma_assoc_remove(d, i);
        assert(t.drop_last() =~= d.remove(i));
        assert(t.last() == s.last());
        assert(s.last().0 != s[i].0);
        assert(assoc_map(t) == assoc_map(d.remove(i)).insert(s.last().0, s.last().1));
        assert(assoc_map(t) =~= assoc_map(s).remove(s[i].0));
    }
}

impl Dict<String> {
    /// A deep copy.
    pub fn duplicate(&self) -> (r: Dict<String>)
        requires
            self.wf(),
        ensures
            r.wf(),
            r@ == self@,
            r.spec_entries() == self.spec_entries(),
    {
        let n = self.entries.len();
        let mut out: Vec<(String, String)> = Vec::new();
        let mut i: usize = 0;
        while i < n
            invariant
                0 <= i <= n,
                n == self.entries@.len(),
                out@.len() == i,
                forall|j: int|
                    0 <= j < i ==> (#[trigger] out@[j]).0@ == self.entries@[j].0@ && out@[j].1@
                        == self.entries@[j].1@,
            decreases n - i,
        {
            let k = self.entries[i].0.clone();
            let v = self.entries[i].1.clone();
            out.push((k, v));
            i = i + 1;
        }
        let r = Dict { entries: out };
        proof {
            assert(r.spec_entries() =~= self.spec_entries());
        }
        r
    }
}

} // verus!
