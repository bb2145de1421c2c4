use vstd::prelude::*;

verus! {

/// A name: any byte string.
pub type Key = Vec<u8>;

/// A binding map: names (byte strings) bound to values (byte strings).
///
/// The bindings are kept in the order in which their names were first bound,
/// and no name occurs twice.
pub struct Frame {
    entries: Vec<(Vec<u8>, Vec<u8>)>,
}

impl View for Frame {
    type V = Map<Seq<u8>, Seq<u8>>;

    closed spec fn view(&self) -> Map<Seq<u8>, Seq<u8>> {
        Map::new(
            |k: Seq<u8>| self.holds(k),
            |k: Seq<u8>| self.entries@[self.index_of(k)].1@,
        )
    }
}

impl Frame {
    /// No name occurs twice.
    pub closed spec fn wf(&self) -> bool {
        forall|i: int, j: int|
            0 <= i < self.entries@.len() && 0 <= j < self.entries@.len()
                && #[trigger] self.entries@[i].0@ == #[trigger] self.entries@[j].0@ ==> i == j
    }

    spec fn holds(&self, k: Seq<u8>) -> bool {
        exists|i: int| 0 <= i < self.entries@.len() && #[trigger] self.entries@[i].0@ == k
    }

    spec fn index_of(&self, k: Seq<u8>) -> int {
        choose|i: int| 0 <= i < self.entries@.len() && #[trigger] self.entries@[i].0@ == k
    }

    /// The number of bindings.
    pub closed spec fn spec_len(&self) -> nat {
        self.entries@.len()
    }

    /// A map without bindings.
    pub fn new() -> (r: Frame)
        ensures
            r.wf(),
            r@ == Map::<Seq<u8>, Seq<u8>>::empty(),
            r.spec_len() == 0,
    {
        let r = Frame { entries: Vec::new() };
        assert(r@ =~= Map::<Seq<u8>, Seq<u8>>::empty());
        r
    }

    /// The number of bindings.
    pub fn len(&self) -> (n: usize)
        ensures
            n == self.spec_len(),
    {
        self.entries.len()
    }

    fn position(&self, name: &Vec<u8>) -> (r: Option<usize>)
        requires
            self.wf(),
        ensures
            match r {
                Some(i) => i < self.entries@.len() && self.entries@[i as int].0@ == name@
                    && self@.contains_key(name@) && self@[name@] == self.entries@[i as int].1@,
                None => !self@.contains_key(name@) && !self.holds(name@),
            },
    {
        let mut i: usize = 0;
        while i < self.entries.len()
            invariant
                self.wf(),
                i <= self.entries@.len(),
                forall|j: int| 0 <= j < i ==> #[trigger] self.entries@[j].0@ != name@,
            decreases self.entries@.len() - i,
        {
            if self.entries[i].0 == *name {
                assert(self.entries@[i as int].0@ =~= name@);
                assert(self.holds(name@));
                assert(self.index_of(name@) == i);
                return Some(i);
            }
            assert(self.entries@[i as int].0@ != name@);
            i += 1;
        }
        None
    }

    /// Whether `name` is bound.
    pub fn contains_key(&self, name: &Vec<u8>) -> (r: bool)
        requires
            self.wf(),
        ensures
            r == self@.contains_key(name@),
    {
        self.position(name).is_some()
    }

    /// The value bound to `name`, if there is one.
    pub fn get(&self, name: &Vec<u8>) -> (r: Option<&Vec<u8>>)
        requires
            self.wf(),
        ensures
            match r {
                Some(v) => self@.contains_key(name@) && v@ == self@[name@],
                None => !self@.contains_key(name@),
            },
    {
        match self.position(name) {
            Some(i) => Some(&self.entries[i].1),
            None => None,
        }
    }

    /// Binds `name` to `value`, and returns the value that was bound to it
    /// before, if there was one.
    pub fn insert(&mut self, name: Vec<u8>, value: Vec<u8>) -> (r: Option<Vec<u8>>)
        requires
            old(self).wf(),
        ensures
            final(self).wf(),
            final(self)@ == old(self)@.insert(name@, value@),
            match r {
                Some(v) => old(self)@.contains_key(name@) && v@ == old(self)@[name@]
                    && final(self).spec_len() == old(self).spec_len(),
                None => !old(self)@.contains_key(name@)
                    && final(self).spec_len() == old(self).spec_len() + 1,
            },
    {
        let ghost before = *self;
        match self.position(&name) {
            Some(i) => {
                let mut entry = (name, value);
                let ghost fresh = entry;
                std::mem::swap(&mut self.entries[i], &mut entry);
                proof {
                    assert(self.entries@ == before.entries@.update(i as int, fresh));
                    assert forall|k: Seq<u8>| self.holds(k) == before.holds(k) by {
                        if before.holds(k) {
                            let j = before.index_of(k);
                            assert(self.entries@[j].0@ == k);
                        }
                        if self.holds(k) {
                            let j = self.index_of(k);
                            assert(before.entries@[j].0@ == k);
                        }
                    }
                    assert forall|k: Seq<u8>| self.holds(k) implies #[trigger] self@[k]
                        == before@.insert(name@, value@)[k] by {
                        let j = self.index_of(k);
                        assert(before.entries@[j].0@ == k);
                        assert(before.index_of(k) == j);
                    }
                    assert(self@ =~= before@.insert(name@, value@));
                }
                Some(entry.1)
            },
            None => {
                let ghost fresh = (name, value);
                self.entries.push((name, value));
                proof {
                    let n = before.entries@.len() as int;
                    assert(self.entries@ == before.entries@.push(fresh));
                    assert(self.entries@[n].0@ == fresh.0@);
                    assert forall|k: Seq<u8>| self.holds(k) == (before.holds(k) || k == fresh.0@) by {
                        if before.holds(k) {
                            let j = before.index_of(k);
                            assert(self.entries@[j].0@ == k);
                        }
                        if self.holds(k) {
                            let j = self.index_of(k);
                            if j < n {
                                assert(before.entries@[j].0@ == k);
                            }
                        }
                    }
                    assert forall|k: Seq<u8>| self.holds(k) implies #[trigger] self@[k]
                        == before@.insert(fresh.0@, fresh.1@)[k] by {
                        let j = self.index_of(k);
                        if j < n {
                            assert(before.entries@[j].0@ == k);
                            assert(before.index_of(k) == j);
                        }
                    }
                    assert(self@ =~= before@.insert(fresh.0@, fresh.1@));
                }
                None
            },
        }
    }
}

} // verus!
