//! Small association tables.
//!
//! The replay engine derives fresh mappings — grid coordinate to placed tile,
//! grid coordinate to token list, tile name to count — on every pass.  They
//! are kept as vectors of entries with pairwise-distinct keys and are read
//! through their abstraction as a `Map`.

use vstd::prelude::*;

verus! {

/// The map denoted by a sequence of entries: later entries win.
pub open spec fn coord_map_of<V>(s: Seq<((u32, u32), V)>) -> Map<(u32, u32), V>
    decreases s.len(),
{
    if s.len() == 0 {
        Map::empty()
    } else {
        coord_map_of(s.drop_last()).insert(s.last().0, s.last().1)
    }
}

/// Pairwise-distinct keys.
pub open spec fn coord_keys_unique<V>(s: Seq<((u32, u32), V)>) -> bool {
    forall|i: int, j: int| 0 <= i < j < s.len() ==> (#[trigger] s[i]).0 != (#[trigger] s[j]).0
}

pub proof fn lemma_coord_map_of_entry<V>(s: Seq<((u32, u32), V)>, i: int)
    requires
        coord_keys_unique(s),
        0 <= i < s.len(),
    ensures
        coord_map_of(s).contains_key(s[i].0),
        coord_map_of(s)[s[i].0] == s[i].1,
    decreases s.len(),
{
    if i == s.len() - 1 {
    } else {
        lemma_coord_map_of_entry(s.drop_last(), i);
    }
}

pub proof fn lemma_coord_map_of_absent<V>(s: Seq<((u32, u32), V)>, k: (u32, u32))
    requires
        forall|i: int| 0 <= i < s.len() ==> (#[trigger] s[i]).0 != k,
    ensures
        !coord_map_of(s).contains_key(k),
    decreases s.len(),
{
    if s.len() > 0 {
        lemma_coord_map_of_absent(s.drop_last(), k);
    }
}

/// Every key of the denoted map stands in some entry.
pub proof fn lemma_coord_map_of_covered<V>(s: Seq<((u32, u32), V)>, k: (u32, u32))
    requires
        coord_map_of(s).contains_key(k),
    ensures
        exists|i: int| 0 <= i < s.len() && (#[trigger] s[i]).0 == k,
    decreases s.len(),
{
    if s.len() > 0 {
        if s.last().0 == k {
            assert(s[s.len() - 1].0 == k);
        } else {
            lemma_coord_map_of_covered(s.drop_last(), k);
            let i = choose|i: int| 0 <= i < s.drop_last().len() && (#[trigger] s.drop_last()[i]).0
                == k;
            assert(s[i].0 == k);
        }
    }
}

proof fn lemma_coord_map_of_update<V>(s: Seq<((u32, u32), V)>, i: int, v: V)
    requires
        coord_keys_unique(s),
        0 <= i < s.len(),
    ensures
        coord_map_of(s.update(i, (s[i].0, v))) =~= coord_map_of(s).insert(s[i].0, v),
    decreases s.len(),
{
    let t = s.update(i, (s[i].0, v));
    if i == s.len() - 1 {
        assert(t.drop_last() =~= s.drop_last());
    } else {
        lemma_coord_map_of_update(s.drop_last(), i, v);
        assert(t.drop_last() =~= s.drop_last().update(i, (s[i].0, v)));
        assert(t.last() == s.last());
    }
}

proof fn lemma_coord_map_of_remove<V>(s: Seq<((u32, u32), V)>, i: int)
    requires
        coord_keys_unique(s),
        0 <= i < s.len(),
    ensures
        coord_map_of(s.remove(i)) =~= coord_map_of(s).remove(s[i].0),
    decreases s.len(),
{
    if i == s.len() - 1 {
        assert(s.remove(i) =~= s.drop_last());
        lemma_coord_map_of_absent(s.drop_last(), s[i].0);
    } else {
        lemma_coord_map_of_remove(s.drop_last(), i);
        assert(s.remove(i).drop_last() =~= s.drop_last().remove(i));
        assert(s.remove(i).last() == s.last());
    }
}

/// A mapping from grid coordinates to values, as the replay derives it.
#[derive(Debug)]
pub struct CoordMap<V> {
    entries: Vec<((u32, u32), V)>,
}

impl<V> CoordMap<V> {
    /// The entries in insertion order.
    pub closed spec fn seq(&self) -> Seq<((u32, u32), V)> {
        self.entries@
    }

    /// The mapping the entries denote.
    pub open spec fn as_map(&self) -> Map<(u32, u32), V> {
        coord_map_of(self.seq())
    }

    /// Keys are pairwise distinct.
    pub open spec fn wf(&self) -> bool {
        coord_keys_unique(self.seq())
    }

    pub fn new() -> (r: CoordMap<V>)
        ensures
            r.wf(),
            r.as_map() == Map::<(u32, u32), V>::empty(),
            r.seq() == Seq::<((u32, u32), V)>::empty(),
    {
        CoordMap { entries: Vec::new() }
    }

    /// The index of the entry that holds the key, if any.
    fn find(&self, col: u32, row: u32) -> (r: Option<usize>)
        ensures
            match r {
                Some(i) => i < self.seq().len() && self.seq()[i as int].0 == (col, row),
                None => forall|i: int|
                    0 <= i < self.seq().len() ==> (#[trigger] self.seq()[i]).0 != (col, row),
            },
    {
        let n = self.entries.len();
        let mut i: usize = 0;
        loop
            invariant
                i <= n,
                n == self.seq().len(),
                forall|j: int| 0 <= j < i ==> (#[trigger] self.seq()[j]).0 != (col, row),
            ensures
                i <= n,
                forall|j: int| 0 <= j < i ==> (#[trigger] self.seq()[j]).0 != (col, row),
                i < n ==> self.seq()[i as int].0 == (col, row),
            decreases n - i,
        {
            if i == n {
                break ;
            }
            let k = self.entries[i].0;
            if k.0 == col && k.1 == row {
                break ;
            }
            i += 1;
        }
        if i < n {
            Some(i)
        } else {
            None
        }
    }

    /// Whether the key is present.
    pub fn contains(&self, col: u32, row: u32) -> (r: bool)
        requires
            self.wf(),
        ensures
            r == self.as_map().contains_key((col, row)),
    {
        match self.find(col, row) {
            Some(i) => {
                proof {
                    lemma_coord_map_of_entry(self.seq(), i as int);
                }
                true
            },
            None => {
                proof {
                    lemma_coord_map_of_absent(self.seq(), (col, row));
                }
                false
            },
        }
    }

    /// The value at a key, if any.
    pub fn get(&self, col: u32, row: u32) -> (r: Option<&V>)
        requires
            self.wf(),
        ensures
            match r {
                Some(v) => self.as_map().contains_key((col, row)) && *v == self.as_map()[(
                    col,
                    row,
                )],
                None => !self.as_map().contains_key((col, row)),
            },
    {
        match self.find(col, row) {
            Some(i) => {
                proof {
                    lemma_coord_map_of_entry(self.seq(), i as int);
                }
                Some(&self.entries[i].1)
            },
            None => {
                proof {
                    lemma_coord_map_of_absent(self.seq(), (col, row));
                }
                None
            },
        }
    }

    /// Binds the key to the value; a later binding replaces an earlier one.
    pub fn insert(&mut self, col: u32, row: u32, v: V)
        requires
            old(self).wf(),
        ensures
            final(self).wf(),
            final(self).as_map() == old(self).as_map().insert((col, row), v),
    {
        match self.find(col, row) {
            Some(i) => {
                proof {
                    lemma_coord_map_of_update(self.seq(), i as int, v);
                }
                self.entries[i] = ((col, row), v);
                proof {
                    assert(final(self).as_map() =~= old(self).as_map().insert((col, row), v));
                }
            },
            None => {
                self.entries.push(((col, row), v));
                proof {
                    assert(self.seq().drop_last() =~= old(self).seq());
                    assert(final(self).as_map() =~= old(self).as_map().insert((col, row), v));
                }
            },
        }
    }

    /// Removes the key and hands its value out, if it was bound.
    pub fn take(&mut self, col: u32, row: u32) -> (r: Option<V>)
        requires
            old(self).wf(),
        ensures
            final(self).wf(),
            match r {
                Some(v) => {
                    &&& old(self).as_map().contains_key((col, row))
                    &&& v == old(self).as_map()[(col, row)]
                    &&& final(self).as_map() == old(self).as_map().remove((col, row))
                },
                None => {
                    &&& !old(self).as_map().contains_key((col, row))
                    &&& *final(self) == *old(self)
                },
            },
    {
        match self.find(col, row) {
            Some(i) => {
                proof {
                    lemma_coord_map_of_entry(self.seq(), i as int);
                    lemma_coord_map_of_remove(self.seq(), i as int);
                }
                let v = self.entries.remove(i);
                proof {
                    assert(final(self).as_map() =~= old(self).as_map().remove((col, row)));
                }
                Some(v.1)
            },
            None => {
                proof {
                    lemma_coord_map_of_absent(self.seq(), (col, row));
                }
                None
            },
        }
    }

    /// Replaces the value of the entry at an index, keeping its key.
    pub fn set_value_at(&mut self, i: usize, v: V)
        requires
            old(self).wf(),
            i < old(self).seq().len(),
        ensures
            final(self).wf(),
            final(self).seq() == old(self).seq().update(
                i as int,
                (old(self).seq()[i as int].0, v),
            ),
            final(self).as_map() == old(self).as_map().insert(old(self).seq()[i as int].0, v),
    {
        proof {
            lemma_coord_map_of_update(self.seq(), i as int, v);
        }
        let k = self.entries[i].0;
        self.entries[i] = (k, v);
        proof {
            assert(final(self).as_map() =~= old(self).as_map().insert(
                old(self).seq()[i as int].0,
                v,
            ));
        }
    }

    /// The number of bound keys.
    pub fn len(&self) -> (r: usize)
        ensures
            r == self.seq().len(),
    {
        self.entries.len()
    }

    /// The entry at an index, for walking the table.
    pub fn entry(&self, i: usize) -> (r: &((u32, u32), V))
        requires
            i < self.seq().len(),
        ensures
            *r == self.seq()[i as int],
            self.wf() ==> self.as_map().contains_key(r.0) && self.as_map()[r.0] == r.1,
    {
        proof {
            if self.wf() {
                lemma_coord_map_of_entry(self.seq(), i as int);
            }
        }
        &self.entries[i]
    }
}

/// The map denoted by a sequence of name-keyed entries: later entries win.
pub open spec fn name_map_of(s: Seq<(String, u32)>) -> Map<Seq<char>, u32>
    decreases s.len(),
{
    if s.len() == 0 {
        Map::empty()
    } else {
        name_map_of(s.drop_last()).insert(s.last().0@, s.last().1)
    }
}

pub open spec fn name_keys_unique(s: Seq<(String, u32)>) -> bool {
    forall|i: int, j: int| 0 <= i < j < s.len() ==> (#[trigger] s[i]).0@ != (#[trigger] s[j]).0@
}

pub proof fn lemma_name_map_of_entry(s: Seq<(String, u32)>, i: int)
    requires
        name_keys_unique(s),
        0 <= i < s.len(),
    ensures
        name_map_of(s).contains_key(s[i].0@),
        name_map_of(s)[s[i].0@] == s[i].1,
    decreases s.len(),
{
    if i == s.len() - 1 {
    } else {
        lemma_name_map_of_entry(s.drop_last(), i);
    }
}

pub proof fn lemma_name_map_of_absent(s: Seq<(String, u32)>, k: Seq<char>)
    requires
        forall|i: int| 0 <= i < s.len() ==> (#[trigger] s[i]).0@ != k,
    ensures
        !name_map_of(s).contains_key(k),
    decreases s.len(),
{
    if s.len() > 0 {
        lemma_name_map_of_absent(s.drop_last(), k);
    }
}

proof fn lemma_name_map_of_update(s: Seq<(String, u32)>, i: int, k: String, v: u32)
    requires
        name_keys_unique(s),
        0 <= i < s.len(),
        k@ == s[i].0@,
    ensures
        name_map_of(s.update(i, (k, v))) =~= name_map_of(s).insert(s[i].0@, v),
    decreases s.len(),
{
    let t = s.update(i, (k, v));
    if i == s.len() - 1 {
        assert(t.drop_last() =~= s.drop_last());
    } else {
        lemma_name_map_of_update(s.drop_last(), i, k, v);
        assert(t.drop_last() =~= s.drop_last().update(i, (k, v)));
        assert(t.last() == s.last());
    }
}

/// A mapping from tile names to counts.
#[derive(Debug)]
pub struct NameMap {
    entries: Vec<(String, u32)>,
}

impl NameMap {
    /// The entries in insertion order.
    pub closed spec fn seq(&self) -> Seq<(String, u32)> {
        self.entries@
    }

    /// The mapping the entries denote.
    pub open spec fn as_map(&self) -> Map<Seq<char>, u32> {
        name_map_of(self.seq())
    }

    /// Keys are pairwise distinct.
    pub open spec fn wf(&self) -> bool {
        name_keys_unique(self.seq())
    }

    pub fn new() -> (r: NameMap)
        ensures
            r.wf(),
            r.as_map() == Map::<Seq<char>, u32>::empty(),
            r.seq() == Seq::<(String, u32)>::empty(),
    {
        NameMap { entries: Vec::new() }
    }

    fn find(&self, k: &str) -> (r: Option<usize>)
        ensures
            match r {
                Some(i) => i < self.seq().len() && self.seq()[i as int].0@ == k@,
                None => forall|i: int|
                    0 <= i < self.seq().len() ==> (#[trigger] self.seq()[i]).0@ != k@,
            },
    {
        let n = self.entries.len();
        let mut i: usize = 0;
        loop
            invariant
                i <= n,
                n == self.seq().len(),
                forall|j: int| 0 <= j < i ==> (#[trigger] self.seq()[j]).0@ != k@,
            ensures
                i <= n,
                forall|j: int| 0 <= j < i ==> (#[trigger] self.seq()[j]).0@ != k@,
                i < n ==> self.seq()[i as int].0@ == k@,
            decreases n - i,
        {
            if i == n {
                break ;
            }
            if str_eq(self.entries[i].0.as_str(), k) {
                break ;
            }
            i += 1;
        }
        if i < n {
            Some(i)
        } else {
            None
        }
    }

    /// The count at a name, if any.
    pub fn get(&self, k: &str) -> (r: Option<u32>)
        requires
            self.wf(),
        ensures
            match r {
                Some(v) => self.as_map().contains_key(k@) && v == self.as_map()[k@],
                None => !self.as_map().contains_key(k@),
            },
    {
        match self.find(k) {
            Some(i) => {
                proof {
                    lemma_name_map_of_entry(self.seq(), i as int);
                }
                Some(self.entries[i].1)
            },
            None => {
                proof {
                    lemma_name_map_of_absent(self.seq(), k@);
                }
                None
            },
        }
    }

    /// Binds the name to the count; a later binding replaces an earlier one.
    pub fn insert(&mut self, k: String, v: u32)
        requires
            old(self).wf(),
        ensures
            final(self).wf(),
            final(self).as_map() == old(self).as_map().insert(k@, v),
    {
        match self.find(k.as_str()) {
            Some(i) => {
                proof {
                    lemma_name_map_of_update(self.seq(), i as int, k, v);
                }
                self.entries[i] = (k, v);
                proof {
                    assert(final(self).as_map() =~= old(self).as_map().insert(k@, v));
                }
            },
            None => {
                self.entries.push((k, v));
                proof {
                    assert(self.seq().drop_last() =~= old(self).seq());
                    assert(final(self).as_map() =~= old(self).as_map().insert(k@, v));
                }
            },
        }
    }

    /// An entry-by-entry copy.
    pub fn copy(&self) -> (r: NameMap)
        ensures
            r.seq() == self.seq(),
            r.as_map() == self.as_map(),
            r.wf() == self.wf(),
    {
        let mut entries: Vec<(String, u32)> = Vec::new();
        let n = self.entries.len();
        let mut i: usize = 0;
        while i < n
            invariant
                i <= n,
                n == self.seq().len(),
                entries@ =~= self.seq().take(i as int),
            decreases n - i,
        {
            entries.push((self.entries[i].0.clone(), self.entries[i].1));
            proof {
                assert(entries@ =~= self.seq().take(i + 1));
            }
            i += 1;
        }
        proof {
            assert(entries@ =~= self.seq());
        }
        NameMap { entries }
    }

    /// The number of bound names.
    pub fn len(&self) -> (r: usize)
        ensures
            r == self.seq().len(),
    {
        self.entries.len()
    }

    /// The entry at an index, for walking the table.
    pub fn entry(&self, i: usize) -> (r: &(String, u32))
        requires
            i < self.seq().len(),
        ensures
            *r == self.seq()[i as int],
            self.wf() ==> self.as_map().contains_key(r.0@) && self.as_map()[r.0@] == r.1,
    {
        proof {
            if self.wf() {
                lemma_name_map_of_entry(self.seq(), i as int);
            }
        }
        &self.entries[i]
    }
}

/// Whether two strings hold the same characters.
pub fn str_eq(a: &str, b: &str) -> (r: bool)
    ensures
        r == (a@ == b@),
{
    let n = a.unicode_len();
    let m = b.unicode_len();
    if n != m {
        return false;
    }
    let mut i: usize = 0;
    loop
        invariant
            i <= n,
            n == a@.len(),
            n == b@.len(),
            forall|j: int| 0 <= j < i ==> a@[j] == b@[j],
        ensures
            i <= n,
            forall|j: int| 0 <= j < i ==> a@[j] == b@[j],
            i == n || a@[i as int] != b@[i as int],
        decreases n - i,
    {
        if i == n {
            break ;
        }
        if a.get_char(i) != b.get_char(i) {
            break ;
        }
        i += 1;
    }
    if i == n {
        proof {
            assert(a@ =~= b@);
        }
        true
    } else {
        false
    }
}

} // verus!
