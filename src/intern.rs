use vstd::hash_map::StringHashMap;
use vstd::prelude::*;

verus! {

/// Maps each distinct text to a stable surrogate id: its position in the
/// order of first appearance. One interner lives for one import call.
pub struct Interner {
    index: StringHashMap<usize>,
    values: Vec<String>,
}

impl Interner {
    /// The interned texts, indexed by id.
    pub closed spec fn view(&self) -> Seq<Seq<char>> {
        self.values@.map_values(|s: String| s@)
    }

    pub closed spec fn wf(&self) -> bool {
        &&& self.values@.len() <= usize::MAX
        &&& forall|i: int|
            0 <= i < self.values@.len() ==> #[trigger] self.index@.contains_key(self.values@[i]@)
                && self.index@[self.values@[i]@] == i
        &&& forall|k: Seq<char>|
            #[trigger] self.index@.contains_key(k) ==> self.index@[k] < self.values@.len()
                && self.values@[self.index@[k] as int]@ == k
    }

    /// Each text stands once in a well-formed interner.
    pub proof fn lemma_unique(&self)
        requires
            self.wf(),
        ensures
            self.view().no_duplicates(),
            self.view().len() <= usize::MAX,
    {
        assert forall|i: int, j: int|
            0 <= i < self.view().len() && 0 <= j < self.view().len() && i != j implies self.view()[i]
            != self.view()[j] by {
            assert(self.index@.contains_key(self.values@[i]@));
            assert(self.index@.contains_key(self.values@[j]@));
        }
    }

    pub fn new() -> (r: Interner)
        ensures
            r.wf(),
            r.view() == Seq::<Seq<char>>::empty(),
    {
        let r = Interner { index: StringHashMap::new(), values: Vec::new() };
        assert(r.view() =~= Seq::<Seq<char>>::empty());
        r
    }

    pub fn len(&self) -> (r: usize)
        ensures
            r == self.view().len(),
    {
        self.values.len()
    }

    /// The text with id `i`.
    pub fn get(&self, i: usize) -> (r: &String)
        requires
            i < self.view().len(),
        ensures
            r@ == self.view()[i as int],
    {
        &self.values[i]
    }

    /// Whether `v` is interned already.
    pub fn contains(&self, v: &str) -> (r: bool)
        requires
            self.wf(),
        ensures
            r == self.view().contains(v@),
    {
        let r = self.index.contains_key(v);
        proof {
            if r {
                let i = self.index@[v@] as int;
                assert(self.view()[i] == v@);
            }
            if self.view().contains(v@) {
                let i = choose|i: int| 0 <= i < self.view().len() && self.view()[i] == v@;
                assert(self.index@.contains_key(self.values@[i]@));
            }
        }
        r
    }

    /// Returns the id of `v`, adding it at the end when it is new. Equal
    /// texts always get the same id, and no text is stored twice.
    pub fn intern(&mut self, v: String) -> (id: usize)
        requires
            old(self).wf(),
            old(self).view().len() < usize::MAX,
        ensures
            final(self).wf(),
            id < final(self).view().len(),
            final(self).view()[id as int] == v@,
            old(self).view().contains(v@) ==> final(self).view() == old(self).view(),
            !old(self).view().contains(v@) ==> final(self).view() == old(self).view().push(v@),
    {
        proof {
            if old(self).view().contains(v@) {
                let i = choose|i: int| 0 <= i < self.view().len() && self.view()[i] == v@;
                assert(self.index@.contains_key(self.values@[i]@));
            }
        }
        match self.index.get(v.as_str()) {
            Some(id) => {
                let id = *id;
                proof {
                    assert(self.view()[id as int] == v@);
                }
                id
            },
            None => {
                let id = self.values.len();
                let key = v.clone();
                self.values.push(v);
                self.index.insert(key, id);
                proof {
                    assert(self.view() =~= old(self).view().push(v@));
                    assert forall|i: int| 0 <= i < self.values@.len() implies #[trigger] self.index@.contains_key(
                        self.values@[i]@,
                    ) && self.index@[self.values@[i]@] == i by {
                        if i < id {
                            assert(old(self).index@.contains_key(old(self).values@[i]@));
                        }
                    }
                }
                id
            },
        }
    }
}

} // verus!
