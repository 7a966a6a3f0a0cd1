//! Sets of values that are told apart by their views.

use vstd::prelude::*;

verus! {

/// A value that can be compared with another by its view.
pub trait Keyed: View + Sized {
    /// Whether two values have the same view.
    fn same(&self, other: &Self) -> (r: bool)
        ensures
            r == (self@ == other@),
    ;
}

/// A set of values, kept in a vector.
pub struct VecSet<T> {
    keys: Vec<T>,
}

impl<T: Keyed> View for VecSet<T> {
    type V = Set<T::V>;

    closed spec fn view(&self) -> Set<T::V> {
        Set::new(|k: T::V| exists|i: int| 0 <= i < self.keys@.len() && self.keys@[i]@ == k)
    }
}

impl<T: Keyed> VecSet<T> {
    /// The empty set.
    pub fn new() -> (s: VecSet<T>)
        ensures
            s@ == Set::<T::V>::empty(),
    {
        let s = VecSet { keys: Vec::new() };
        assert(s@ =~= Set::<T::V>::empty());
        s
    }

    /// The values in storage order; a value may stand there more than once.
    pub closed spec fn elements(&self) -> Seq<T> {
        self.keys@
    }

    /// The set holds the views of its elements.
    pub proof fn lemma_elements(&self)
        ensures
            forall|k: T::V|
                self@.contains(k) <==> exists|i: int|
                    0 <= i < self.elements().len() && self.elements()[i]@ == k,
    {
        assert forall|k: T::V|
            self@.contains(k) <==> exists|i: int|
                0 <= i < self.elements().len() && self.elements()[i]@ == k by {
            if self@.contains(k) {
                let i = choose|i: int| 0 <= i < self.keys@.len() && self.keys@[i]@ == k;
                assert(self.elements()[i]@ == k);
            }
            if exists|i: int| 0 <= i < self.elements().len() && self.elements()[i]@ == k {
                let i = choose|i: int| 0 <= i < self.elements().len() && self.elements()[i]@ == k;
                assert(self.keys@[i]@ == k);
            }
        }
    }

    /// The elements of the set.
    pub fn as_vec(&self) -> (v: &Vec<T>)
        ensures
            v@ == self.elements(),
    {
        &self.keys
    }

    /// Whether `key` is in the set.
    pub fn contains(&self, key: &T) -> (r: bool)
        ensures
            r == self@.contains(key@),
    {
        let mut i: usize = 0;
        while i < self.keys.len()
            invariant
                i <= self.keys@.len(),
                forall|j: int| 0 <= j < i ==> self.keys@[j]@ != key@,
            decreases self.keys@.len() - i,
        {
            if self.keys[i].same(key) {
                return true;
            }
            i = i + 1;
        }
        false
    }

    /// Puts `key` into the set.
    pub fn insert(&mut self, key: T)
        ensures
            final(self)@ == old(self)@.insert(key@),
    {
        let ghost before = self.keys@;
        self.keys.push(key);
        proof {
            assert forall|k: T::V| self@.contains(k) <==> old(self)@.insert(key@).contains(
                k,
            ) by {
                if self@.contains(k) {
                    let i = choose|i: int| 0 <= i < self.keys@.len() && self.keys@[i]@ == k;
                    if i < before.len() {
                        assert(before[i]@ == k);
                    }
                }
                if old(self)@.contains(k) {
                    let i = choose|i: int| 0 <= i < before.len() && before[i]@ == k;
                    assert(self.keys@[i]@ == k);
                }
                if k == key@ {
                    assert(self.keys@[before.len() as int]@ == k);
                }
            }
            assert(self@ =~= old(self)@.insert(key@));
        }
    }

    /// Takes `key` out of the set.
    pub fn remove(&mut self, key: &T)
        ensures
            final(self)@ == old(self)@.remove(key@),
    {
        let ghost before = self.keys@;
        let mut rest: Vec<T> = Vec::new();
        let mut taken: Vec<T> = Vec::new();
        core::mem::swap(&mut self.keys, &mut taken);
        let n = taken.len();
        let mut i: usize = 0;
        for k in it: taken
            invariant
                i == it.index(),
                n == it.seq().len(),
                before == it.seq(),
                forall|a: int|
                    0 <= a < rest@.len() ==> rest@[a]@ != key@ && exists|j: int|
                        0 <= j < i && before[j]@ == #[trigger] rest@[a]@,
                forall|j: int|
                    0 <= j < i && before[j]@ != key@ ==> exists|a: int|
                        0 <= a < rest@.len() && rest@[a]@ == #[trigger] before[j]@,
        {
            if !k.same(key) {
                let ghost rest_before = rest@;
                rest.push(k);
                proof {
                    assert forall|a: int| 0 <= a < rest@.len() implies rest@[a]@ != key@ && exists|
                        j: int,
                    | 0 <= j < i + 1 && before[j]@ == #[trigger] rest@[a]@ by {
                        if a < rest_before.len() {
                            let j = choose|j: int| 0 <= j < i && before[j]@ == rest_before[a]@;
                            assert(before[j]@ == rest@[a]@);
                        } else {
                            assert(before[i as int]@ == rest@[a]@);
                        }
                    }
                    assert forall|j: int| 0 <= j < i + 1 && before[j]@ != key@ implies exists|
                        a: int,
                    | 0 <= a < rest@.len() && rest@[a]@ == #[trigger] before[j]@ by {
                        if j < i {
                            let a = choose|a: int|
                                0 <= a < rest_before.len() && rest_before[a]@ == before[j]@;
                            assert(rest@[a]@ == before[j]@);
                        } else {
                            assert(rest@[rest_before.len() as int]@ == before[j]@);
                        }
                    }
                }
            }
            i = i + 1;
        }
        self.keys = rest;
        proof {
            assert forall|k: T::V| self@.contains(k) <==> old(self)@.remove(key@).contains(
                k,
            ) by {
                if self@.contains(k) {
                    let a = choose|a: int| 0 <= a < self.keys@.len() && self.keys@[a]@ == k;
                    let j = choose|j: int| 0 <= j < n && before[j]@ == self.keys@[a]@;
                    assert(before[j]@ == k);
                }
                if old(self)@.remove(key@).contains(k) {
                    let j = choose|j: int| 0 <= j < before.len() && before[j]@ == k;
                    let a = choose|a: int|
                        0 <= a < self.keys@.len() && self.keys@[a]@ == #[trigger] before[j]@;
                    assert(self.keys@[a]@ == k);
                }
            }
            assert(self@ =~= old(self)@.remove(key@));
        }
    }
}

} // verus!
