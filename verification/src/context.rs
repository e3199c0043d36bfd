//! The merged key/value store consumed by template rendering: an ordered
//! mapping from string keys to structured values. Keys are unique; adding
//! an existing key replaces its value in place, and extending by another
//! context folds that context's entries in, overwriting on collision
//! (last-write-wins).

use vstd::prelude::*;
use crate::node::{Node, NodeView};

verus! {

broadcast use vstd::std_specs::vec::group_vec_axioms, vstd::seq::group_seq_axioms;

/// The entry sequence read as a finite map: entries nearer the end of the
/// sequence override earlier ones with the same key.
pub open spec fn entries_map(es: Seq<(String, Node)>) -> Map<Seq<char>, NodeView>
    decreases es.len(),
{
    if es.len() == 0 {
        Map::empty()
    } else {
        entries_map(es.drop_last()).insert(es.last().0@, es.last().1@)
    }
}

/// No two entries share a key.
pub open spec fn unique_keys(es: Seq<(String, Node)>) -> bool {
    forall|i: int, j: int| 0 <= i < j < es.len() ==> es[i].0@ != es[j].0@
}

/// Some entry carries the key `k`.
pub open spec fn has_entry(es: Seq<(String, Node)>, k: Seq<char>) -> bool {
    exists|i: int| 0 <= i < es.len() && es[i].0@ == k
}

/// A key is in the map exactly when some entry carries it.
pub proof fn lemma_entries_map_domain(es: Seq<(String, Node)>)
    ensures
        forall|k: Seq<char>| #[trigger] entries_map(es).contains_key(k) <==> has_entry(es, k),
    decreases es.len(),
{
    if es.len() > 0 {
        lemma_entries_map_domain(es.drop_last());
        assert forall|k: Seq<char>| #[trigger] entries_map(es).contains_key(k) implies has_entry(
            es,
            k,
        ) by {
            if k == es.last().0@ {
                assert(es[es.len() - 1].0@ == k);
            } else {
                assert(entries_map(es.drop_last()).contains_key(k));
                assert(has_entry(es.drop_last(), k));
                let i = choose|i: int| 0 <= i < es.len() - 1 && es.drop_last()[i].0@ == k;
                assert(es[i] == es.drop_last()[i]);
                assert(es[i].0@ == k);
            }
        }
        assert forall|k: Seq<char>| has_entry(es, k) implies #[trigger] entries_map(
            es,
        ).contains_key(k) by {
            if k != es.last().0@ {
                let i = choose|i: int| 0 <= i < es.len() && es[i].0@ == k;
                assert(i < es.len() - 1);
                assert(es.drop_last()[i].0@ == k);
                assert(has_entry(es.drop_last(), k));
                assert(entries_map(es.drop_last()).contains_key(k));
            }
        }
    }
}

/// With unique keys, the entry at index `i` gives the map's value at its key.
pub proof fn lemma_entries_map_index(es: Seq<(String, Node)>, i: int)
    requires
        unique_keys(es),
        0 <= i < es.len(),
    ensures
        entries_map(es).contains_key(es[i].0@),
        entries_map(es)[es[i].0@] == es[i].1@,
    decreases es.len(),
{
    if i == es.len() - 1 {
    } else {
        assert(es.drop_last()[i] == es[i]);
        assert(unique_keys(es.drop_last())) by {
            assert(forall|p: int, q: int|
                0 <= p < q < es.len() - 1 ==> es.drop_last()[p] == es[p] && es.drop_last()[q]
                    == es[q]);
        }
        lemma_entries_map_index(es.drop_last(), i);
        assert(es[i].0@ != es.last().0@);
    }
}

/// With unique keys, replacing the entry that carries a key is the map's
/// `insert` at that key.
pub proof fn lemma_entries_map_update(es: Seq<(String, Node)>, i: int, e: (String, Node))
    requires
        unique_keys(es),
        0 <= i < es.len(),
        es[i].0@ == e.0@,
    ensures
        entries_map(es.update(i, e)) == entries_map(es).insert(e.0@, e.1@),
    decreases es.len(),
{
    let up = es.update(i, e);
    if i == es.len() - 1 {
        assert(up.drop_last() =~= es.drop_last());
        assert(up.last() == e);
        assert(entries_map(up) == entries_map(es.drop_last()).insert(e.0@, e.1@));
        assert(entries_map(es).insert(e.0@, e.1@) =~= entries_map(es.drop_last()).insert(
            e.0@,
            e.1@,
        ));
    } else {
        assert(up.drop_last() =~= es.drop_last().update(i, e));
        assert(up.last() == es.last());
        assert(unique_keys(es.drop_last())) by {
            assert(forall|p: int, q: int|
                0 <= p < q < es.len() - 1 ==> es.drop_last()[p] == es[p] && es.drop_last()[q]
                    == es[q]);
        }
        assert(es.drop_last()[i] == es[i]);
        lemma_entries_map_update(es.drop_last(), i, e);
        assert(es[i].0@ != es.last().0@);
        assert(entries_map(up) =~= entries_map(es).insert(e.0@, e.1@));
    }
}

/// The merged key/value store.
#[derive(Debug)]
pub struct Context {
    entries: Vec<(String, Node)>,
}

impl View for Context {
    type V = Map<Seq<char>, NodeView>;

    closed spec fn view(&self) -> Map<Seq<char>, NodeView> {
        entries_map(self.entries@)
    }
}

impl Context {
    /// The unique-keys invariant.
    pub closed spec fn wf(&self) -> bool {
        unique_keys(self.entries@)
    }

    /// The entries in insertion order, keys viewed as character sequences.
    pub closed spec fn order(&self) -> Seq<(Seq<char>, NodeView)> {
        Seq::new(self.entries@.len(), |i: int| (self.entries@[i].0@, self.entries@[i].1@))
    }

    /// A fresh, empty context.
    pub fn new() -> (c: Context)
        ensures
            c.wf(),
            c@ == Map::<Seq<char>, NodeView>::empty(),
            c.order() == Seq::<(Seq<char>, NodeView)>::empty(),
    {
        let c = Context { entries: Vec::new() };
        proof {
            assert(c.order() =~= Seq::<(Seq<char>, NodeView)>::empty());
        }
        c
    }

    /// Insert a key: the value under an existing key is replaced in place,
    /// a new key is appended at the end.
    pub fn add(&mut self, key: String, value: Node)
        requires
            old(self).wf(),
        ensures
            final(self).wf(),
            final(self)@ == old(self)@.insert(key@, value@),
    {
        let mut i: usize = 0;
        let n = self.entries.len();
        while i < n
            invariant
                n == self.entries@.len(),
                i <= n,
                *self == *old(self),
                old(self).wf(),
                forall|j: int| 0 <= j < i ==> self.entries@[j].0@ != key@,
            decreases n - i,
        {
            if self.entries[i].0 == key {
                let ghost es = self.entries@;
                self.entries[i] = (key, value);
                proof {
                    assert(es == old(self).entries@);
                    assert(unique_keys(es));
                    assert(self.entries@ == es.update(i as int, (key, value)));
                    assert(es[i as int].0@ == key@);
                    lemma_entries_map_update(es, i as int, (key, value));
                    assert(unique_keys(self.entries@)) by {
                        assert(forall|p: int, q: int|
                            0 <= p < q < es.len() && p != i && q != i ==> self.entries@[p] == es[p]
                                && self.entries@[q] == es[q]);
                    }
                }
                return ;
            }
            i += 1;
        }
        let ghost es = self.entries@;
        self.entries.push((key, value));
        proof {
            assert(self.entries@.drop_last() =~= es);
            assert(!has_entry(es, key@));
            lemma_entries_map_domain(es);
            assert(unique_keys(self.entries@)) by {
                assert(forall|j: int| 0 <= j < es.len() ==> self.entries@[j] == es[j]);
            }
        }
    }

    /// Fold every entry of `other` into `self`, in `other`'s own order,
    /// overwriting on collision: entries of `other` win.
    pub fn extend(&mut self, other: Context)
        requires
            old(self).wf(),
        ensures
            final(self).wf(),
            final(self)@ == old(self)@.union_prefer_right(other@),
    {
        let mut rest = other.entries;
        let n0 = rest.len();
        let ghost os = rest@;
        let ghost init = self@;
        let mut i: usize = 0;
        proof {
            assert(entries_map(os.take(0)) =~= Map::<Seq<char>, NodeView>::empty());
            assert(init.union_prefer_right(entries_map(os.take(0))) =~= init);
        }
        while rest.len() > 0
            invariant
                self.wf(),
                i <= n0,
                os.len() == n0,
                rest@ =~= os.skip(i as int),
                self@ == init.union_prefer_right(entries_map(os.take(i as int))),
            decreases rest@.len(),
        {
            let e = rest.remove(0);
            proof {
                assert(e == os[i as int]);
            }
            self.add(e.0, e.1);
            proof {
                let t1 = os.take(i as int);
                let t2 = os.take(i + 1 as int);
                assert(t2.drop_last() =~= t1);
                assert(t2.last() == os[i as int]);
                assert(entries_map(t2) == entries_map(t1).insert(e.0@, e.1@));
                assert(init.union_prefer_right(entries_map(t1)).insert(e.0@, e.1@)
                    =~= init.union_prefer_right(entries_map(t2)));
            }
            i += 1;
        }
        proof {
            assert(os.take(i as int) =~= os);
            assert(entries_map(os) == other@);
        }
    }

    /// Look a key up.
    pub fn get(&self, key: &String) -> (r: Option<&Node>)
        requires
            self.wf(),
        ensures
            match r {
                Some(v) => self@.contains_key(key@) && v@ == self@[key@],
                None => !self@.contains_key(key@),
            },
    {
        let mut i: usize = 0;
        let n = self.entries.len();
        while i < n
            invariant
                n == self.entries@.len(),
                i <= n,
                self.wf(),
                forall|j: int| 0 <= j < i ==> self.entries@[j].0@ != key@,
            decreases n - i,
        {
            if self.entries[i].0 == *key {
                proof {
                    lemma_entries_map_index(self.entries@, i as int);
                }
                return Some(&self.entries[i].1);
            }
            i += 1;
        }
        proof {
            lemma_entries_map_domain(self.entries@);
        }
        None
    }

    /// The number of entries.
    pub fn len(&self) -> (n: usize)
        ensures
            n == self.order().len(),
    {
        self.entries.len()
    }

    /// The entries in insertion order, for handing the context to the
    /// template engine.
    pub fn entries(&self) -> (es: &Vec<(String, Node)>)
        ensures
            es@.len() == self.order().len(),
            forall|i: int|
                0 <= i < es@.len() ==> (#[trigger] es@[i].0@, es@[i].1@) == self.order()[i],
    {
        &self.entries
    }
}

} // verus!
