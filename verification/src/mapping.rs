//! A name-to-pointer mapping (variable scopes and object attributes).
//!
//! Entries keep insertion order and no name occurs twice.
use vstd::prelude::*;

verus! {

/// Names bound to heap pointers, in insertion order, each name at most once.
#[derive(Debug, Clone)]
pub struct Mapping {
    pub entries: Vec<(String, usize)>,
}

/// The mapping that a sequence of entries denotes: a later entry wins.
pub open spec fn map_of(s: Seq<(String, usize)>) -> Map<Seq<char>, usize>
    decreases s.len(),
{
    if s.len() == 0 {
        Map::empty()
    } else {
        map_of(s.drop_last()).insert(s.last().0@, s.last().1)
    }
}

/// No name occurs twice among the entries.
pub open spec fn keys_unique(s: Seq<(String, usize)>) -> bool {
    forall|i: int, j: int| 0 <= i < s.len() && 0 <= j < s.len() && i != j ==> s[i].0@ != s[j].0@
}

/// The pointers that the entries hold, in order.
pub open spec fn targets_of(s: Seq<(String, usize)>) -> Seq<usize> {
    s.map_values(|e: (String, usize)| e.1)
}

/// The entries of a mapping, names as characters.
pub open spec fn entries_view(s: Seq<(String, usize)>) -> Seq<(Seq<char>, usize)> {
    s.map_values(|e: (String, usize)| (e.0@, e.1))
}

/// No name occurs twice among the entries.
pub open spec fn names_unique(s: Seq<(Seq<char>, usize)>) -> bool {
    forall|i: int, j: int| 0 <= i < s.len() && 0 <= j < s.len() && i != j ==> s[i].0 != s[j].0
}

/// The pointer bound to `k` among entries with distinct names.
pub open spec fn entry_of(s: Seq<(Seq<char>, usize)>, k: Seq<char>) -> Option<usize> {
    if exists|i: int| 0 <= i < s.len() && s[i].0 == k {
        Some(s[choose|i: int| 0 <= i < s.len() && s[i].0 == k].1)
    } else {
        None
    }
}

/// The entries after binding `k` to `p`: an existing entry of `k` is updated in
/// place, otherwise the binding is appended.
pub open spec fn insert_entry(s: Seq<(Seq<char>, usize)>, k: Seq<char>, p: usize) -> Seq<(Seq<char>, usize)> {
    if exists|i: int| 0 <= i < s.len() && s[i].0 == k {
        s.update(choose|i: int| 0 <= i < s.len() && s[i].0 == k, (k, p))
    } else {
        s.push((k, p))
    }
}

/// An entry found at position `i` is the one `entry_of` and `insert_entry` pick.
pub proof fn lemma_entry_at(s: Seq<(Seq<char>, usize)>, i: int)
    requires
        names_unique(s),
        0 <= i < s.len(),
    ensures
        entry_of(s, s[i].0) == Some(s[i].1),
        insert_entry(s, s[i].0, s[i].1) == s,
        forall|p: usize| #[trigger] insert_entry(s, s[i].0, p) == s.update(i, (s[i].0, p)),
{
    let k = s[i].0;
    assert(exists|j: int| 0 <= j < s.len() && s[j].0 == k);
    let j = choose|j: int| 0 <= j < s.len() && s[j].0 == k;
    assert(j == i);
    assert(s.update(i, (k, s[i].1)) =~= s);
}

/// Every entry after binding `k` to `p` is that binding or an entry of `s` at the same place.
pub proof fn lemma_insert_entry_shape(s: Seq<(Seq<char>, usize)>, k: Seq<char>, p: usize)
    ensures
        insert_entry(s, k, p).len() >= s.len(),
        forall|j: int| 0 <= j < insert_entry(s, k, p).len() ==>
            #[trigger] insert_entry(s, k, p)[j] == (k, p) || (j < s.len() && insert_entry(s, k, p)[j] == s[j]),
{
}

/// Binding a new name keeps names distinct; binding an existing one changes no name.
pub proof fn lemma_insert_entry_unique(s: Seq<(Seq<char>, usize)>, k: Seq<char>, p: usize)
    requires
        names_unique(s),
    ensures
        names_unique(insert_entry(s, k, p)),
        entry_of(insert_entry(s, k, p), k) == Some(p),
        forall|k2: Seq<char>| k2 != k ==> #[trigger] entry_of(insert_entry(s, k, p), k2) == entry_of(s, k2),
{
    let t = insert_entry(s, k, p);
    if exists|i: int| 0 <= i < s.len() && s[i].0 == k {
        let i = choose|i: int| 0 <= i < s.len() && s[i].0 == k;
        assert(t == s.update(i, (k, p)));
        lemma_entry_at(t, i);
        assert forall|k2: Seq<char>| k2 != k implies #[trigger] entry_of(t, k2) == entry_of(s, k2) by {
            if exists|j: int| 0 <= j < s.len() && s[j].0 == k2 {
                let j = choose|j: int| 0 <= j < s.len() && s[j].0 == k2;
                assert(t[j] == s[j]);
                lemma_entry_at(s, j);
                lemma_entry_at(t, j);
            } else {
                assert(!exists|j: int| 0 <= j < t.len() && t[j].0 == k2) by {
                    if exists|j: int| 0 <= j < t.len() && t[j].0 == k2 {
                        let j = choose|j: int| 0 <= j < t.len() && t[j].0 == k2;
                        assert(s[j].0 == k2);
                    }
                }
            }
        }
    } else {
        assert(t == s.push((k, p)));
        assert(names_unique(t));
        lemma_entry_at(t, s.len() as int);
        assert forall|k2: Seq<char>| k2 != k implies #[trigger] entry_of(t, k2) == entry_of(s, k2) by {
            if exists|j: int| 0 <= j < s.len() && s[j].0 == k2 {
                let j = choose|j: int| 0 <= j < s.len() && s[j].0 == k2;
                assert(t[j] == s[j]);
                lemma_entry_at(s, j);
                lemma_entry_at(t, j);
            } else {
                assert(!exists|j: int| 0 <= j < t.len() && t[j].0 == k2) by {
                    if exists|j: int| 0 <= j < t.len() && t[j].0 == k2 {
                        let j = choose|j: int| 0 <= j < t.len() && t[j].0 == k2;
                        assert(j < s.len());
                        assert(s[j].0 == k2);
                    }
                }
            }
        }
    }
}

/// Distinct names of a mapping are distinct character sequences.
pub proof fn lemma_unique_view(s: Seq<(String, usize)>)
    ensures
        keys_unique(s) <==> names_unique(entries_view(s)),
{
    if keys_unique(s) {
        assert forall|i: int, j: int| 0 <= i < entries_view(s).len() && 0 <= j < entries_view(s).len() && i != j
            implies entries_view(s)[i].0 != entries_view(s)[j].0 by {
            assert(s[i].0@ != s[j].0@);
        }
    }
    if names_unique(entries_view(s)) {
        assert forall|i: int, j: int| 0 <= i < s.len() && 0 <= j < s.len() && i != j implies s[i].0@ != s[j].0@ by {
            assert(entries_view(s)[i].0 != entries_view(s)[j].0);
        }
    }
}

pub proof fn lemma_map_of_dom(s: Seq<(String, usize)>, k: Seq<char>)
    ensures
        map_of(s).dom().contains(k) <==> exists|i: int| 0 <= i < s.len() && s[i].0@ == k,
    decreases s.len(),
{
    if s.len() > 0 {
        lemma_map_of_dom(s.drop_last(), k);
        if map_of(s).dom().contains(k) && s.last().0@ != k {
            let i = choose|i: int| 0 <= i < s.drop_last().len() && s.drop_last()[i].0@ == k;
            assert(s[i].0@ == k);
        }
        if exists|i: int| 0 <= i < s.len() && s[i].0@ == k {
            let i = choose|i: int| 0 <= i < s.len() && s[i].0@ == k;
            if i < s.len() - 1 {
                assert(s.drop_last()[i].0@ == k);
            }
        }
    }
}

proof fn lemma_map_of_at(s: Seq<(String, usize)>, i: int)
    requires
        keys_unique(s),
        0 <= i < s.len(),
    ensures
        map_of(s).dom().contains(s[i].0@),
        map_of(s)[s[i].0@] == s[i].1,
    decreases s.len(),
{
    if i < s.len() - 1 {
        let t = s.drop_last();
        assert(t[i] == s[i]);
        lemma_map_of_at(t, i);
        assert(s.last().0@ != s[i].0@);
    }
}

proof fn lemma_map_of_update(s: Seq<(String, usize)>, i: int, p: usize)
    requires
        keys_unique(s),
        0 <= i < s.len(),
    ensures
        map_of(s.update(i, (s[i].0, p))) == map_of(s).insert(s[i].0@, p),
        keys_unique(s.update(i, (s[i].0, p))),
    decreases s.len(),
{
    let u = s.update(i, (s[i].0, p));
    if i == s.len() - 1 {
        assert(u.drop_last() =~= s.drop_last());
        assert(map_of(u) =~= map_of(s).insert(s[i].0@, p));
    } else {
        let t = s.drop_last();
        assert(u.drop_last() =~= t.update(i, (t[i].0, p)));
        lemma_map_of_update(t, i, p);
        assert(s.last().0@ != s[i].0@);
        assert(map_of(u) =~= map_of(s).insert(s[i].0@, p));
    }
}

impl Mapping {
    /// The names and their pointers.
    pub open spec fn view_map(&self) -> Map<Seq<char>, usize> {
        map_of(self.entries@)
    }

    /// The pointers held by the mapping.
    pub open spec fn targets(&self) -> Seq<usize> {
        targets_of(self.entries@)
    }

    /// Well-formed: no name is bound twice.
    pub open spec fn wf(&self) -> bool {
        keys_unique(self.entries@)
    }

    /// An empty mapping.
    pub fn new() -> (r: Self)
        ensures
            r.entries@.len() == 0,
            r.wf(),
            r.view_map() == Map::<Seq<char>, usize>::empty(),
    {
        Mapping { entries: Vec::new() }
    }

    /// Number of names bound.
    pub fn len(&self) -> (r: usize)
        ensures
            r == self.entries@.len(),
    {
        self.entries.len()
    }

    /// Position of `name` among the entries.
    pub fn position(&self, name: &String) -> (r: Option<usize>)
        requires
            self.wf(),
        ensures
            match r {
                Some(i) => i < self.entries@.len() && self.entries@[i as int].0@ == name@,
                None => forall|i: int| 0 <= i < self.entries@.len() ==> self.entries@[i].0@ != name@,
            },
            r is Some <==> self.view_map().dom().contains(name@),
    {
        proof {
            lemma_map_of_dom(self.entries@, name@);
        }
        let mut i: usize = 0;
        while i < self.entries.len()
            invariant
                i <= self.entries@.len(),
                forall|j: int| 0 <= j < i ==> self.entries@[j].0@ != name@,
            decreases self.entries@.len() - i,
        {
            if self.entries[i].0 == *name {
                assert(self.entries@[i as int].0@ == name@);
                proof {
                    lemma_map_of_dom(self.entries@, name@);
                }
                return Some(i);
            }
            i = i + 1;
        }
        None
    }

    /// The pointer bound to `name`, if any.
    pub fn get(&self, name: &String) -> (r: Option<usize>)
        requires
            self.wf(),
        ensures
            r == (if self.view_map().dom().contains(name@) {
                Some(self.view_map()[name@])
            } else {
                None
            }),
            r == entry_of(entries_view(self.entries@), name@),
    {
        proof {
            lemma_unique_view(self.entries@);
        }
        match self.position(name) {
            Some(i) => {
                proof {
                    lemma_map_of_at(self.entries@, i as int);
                    lemma_entry_at(entries_view(self.entries@), i as int);
                }
                Some(self.entries[i].1)
            },
            None => {
                assert(!exists|i: int| 0 <= i < entries_view(self.entries@).len() && entries_view(self.entries@)[i].0 == name@) by {
                    if exists|i: int| 0 <= i < entries_view(self.entries@).len() && entries_view(self.entries@)[i].0 == name@ {
                        let i = choose|i: int| 0 <= i < entries_view(self.entries@).len() && entries_view(self.entries@)[i].0 == name@;
                        assert(self.entries@[i].0@ == name@);
                    }
                }
                None
            },
        }
    }

    /// Binds `name` to `p`, replacing an earlier binding of the same name in place.
    pub fn insert(&mut self, name: String, p: usize)
        requires
            old(self).wf(),
        ensures
            final(self).wf(),
            final(self).view_map() == old(self).view_map().insert(name@, p),
            forall|q: usize| #[trigger] final(self).targets().contains(q) ==> q == p || old(self).targets().contains(q),
            final(self).entries@.len() == old(self).entries@.len() + (if old(self).view_map().dom().contains(name@) { 0int } else { 1int }),
            entries_view(final(self).entries@) == insert_entry(entries_view(old(self).entries@), name@, p),
    {
        proof {
            lemma_unique_view(self.entries@);
        }
        let ghost name_v = name@;
        match self.position(&name) {
            Some(i) => {
                let ghost s = self.entries@;
                proof {
                    lemma_entry_at(entries_view(s), i as int);
                    assert(entries_view(s.update(i as int, (s[i as int].0, p))) =~= entries_view(s).update(i as int, (entries_view(s)[i as int].0, p)));
                }
                proof {
                    lemma_map_of_update(s, i as int, p);
                }
                let key = self.entries[i].0.clone();
                self.entries.set(i, (key, p));
                assert(self.entries@ =~= s.update(i as int, (s[i as int].0, p)));
                assert forall|q: usize| #[trigger] self.targets().contains(q) implies q == p || targets_of(s).contains(q) by {
                    let k = choose|k: int| 0 <= k < self.targets().len() && self.targets()[k] == q;
                    if k != i {
                        assert(targets_of(s)[k] == q);
                    }
                }
            },
            None => {
                let ghost s = self.entries@;
                assert(!exists|i: int| 0 <= i < entries_view(s).len() && entries_view(s)[i].0 == name_v) by {
                    if exists|i: int| 0 <= i < entries_view(s).len() && entries_view(s)[i].0 == name_v {
                        let i = choose|i: int| 0 <= i < entries_view(s).len() && entries_view(s)[i].0 == name_v;
                        assert(s[i].0@ == name_v);
                    }
                }
                self.entries.push((name, p));
                assert(self.entries@.drop_last() =~= s);
                assert(entries_view(self.entries@) =~= entries_view(s).push((name_v, p)));
                assert forall|q: usize| #[trigger] self.targets().contains(q) implies q == p || targets_of(s).contains(q) by {
                    let k = choose|k: int| 0 <= k < self.targets().len() && self.targets()[k] == q;
                    if k < s.len() {
                        assert(targets_of(s)[k] == q);
                    }
                }
            },
        }
    }
}

} // verus!
