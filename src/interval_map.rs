//! Maps from dependency name to interval of versions.

use vstd::prelude::*;
use crate::assoc::{assoc_keys_unique, assoc_map, lemma_assoc_map};
use crate::interval::Interval;
use vstd::set_lib::lemma_subset_equality;
use crate::text::text_eq;
use crate::version_number_interval::VersionNumberInterval;

verus! {

/// Relies on `Vec::capacity`: a vector can hold at least its length.
#[verifier::external_body]
fn vec_capacity<T>(v: &Vec<T>) -> (r: usize)
    ensures
        r >= v@.len(),
{
    v.capacity()
}

/// Relies on `Vec::shrink_to_fit`: the elements stay as they were.
#[verifier::external_body]
fn vec_shrink_to_fit<T>(v: &mut Vec<T>)
    ensures
        final(v)@ == old(v)@,
{
    v.shrink_to_fit()
}

/// A map from dependency name to interval of versions.
#[derive(Debug, Eq)]
pub struct IntervalMap {
    entries: Vec<(String, VersionNumberInterval)>,
}

impl IntervalMap {
    /// The entries, as views.
    pub closed spec fn pairs(&self) -> Seq<(Seq<char>, Interval<Seq<u16>>)> {
        self.entries@.map_values(|e: (String, VersionNumberInterval)| (e.0@, e.1@))
    }

    #[verifier::type_invariant]
    spec fn well_formed(&self) -> bool {
        assoc_keys_unique(self.pairs())
    }
}

impl View for IntervalMap {
    type V = Map<Seq<char>, Interval<Seq<u16>>>;

    closed spec fn view(&self) -> Map<Seq<char>, Interval<Seq<u16>>> {
        assoc_map(self.pairs())
    }
}

impl IntervalMap {
    /// An empty map.
    pub fn new() -> (r: Self)
        ensures
            r@ == Map::<Seq<char>, Interval<Seq<u16>>>::empty(),
    {
        let r = IntervalMap { entries: Vec::new() };
        assert(r.pairs() =~= Seq::<(Seq<char>, Interval<Seq<u16>>)>::empty());
        r
    }

    /// An empty map with room for a number of entries.
    pub fn with_capacity(capacity: usize) -> (r: Self)
        ensures
            r@ == Map::<Seq<char>, Interval<Seq<u16>>>::empty(),
    {
        let r = IntervalMap { entries: Vec::with_capacity(capacity) };
        assert(r.pairs() =~= Seq::<(Seq<char>, Interval<Seq<u16>>)>::empty());
        r
    }

    /// How many entries the map can hold without reallocating.
    pub fn capacity(&self) -> (r: usize)
        ensures
            r >= self@.len(),
    {
        proof {
            use_type_invariant(self);
            lemma_assoc_map(self.pairs());
        }
        vec_capacity(&self.entries)
    }

    /// Makes room for more entries; the map stays as it was.
    pub fn reserve(&mut self, additional: usize)
        ensures
            final(self)@ == old(self)@,
    {
        proof {
            use_type_invariant(&*self);
        }
        let ghost before = self.entries@;
        let mut entries: Vec<(String, VersionNumberInterval)> = Vec::new();
        std::mem::swap(&mut entries, &mut self.entries);
        entries.reserve(additional);
        assert(entries@ == before);
        self.entries = entries;
    }

    /// Frees unused room; the map stays as it was.
    pub fn shrink_to_fit(&mut self)
        ensures
            final(self)@ == old(self)@,
    {
        proof {
            use_type_invariant(&*self);
        }
        let ghost before = self.entries@;
        let mut entries: Vec<(String, VersionNumberInterval)> = Vec::new();
        std::mem::swap(&mut entries, &mut self.entries);
        vec_shrink_to_fit(&mut entries);
        assert(entries@ == before);
        self.entries = entries;
    }

    /// The position of the entry with a name.
    fn find(&self, k: &str) -> (r: Option<usize>)
        ensures
            match r {
                Some(i) => i < self.pairs().len() && self.pairs()[i as int].0 == k@,
                None => !self@.contains_key(k@),
            },
            self@.contains_key(k@) <==> r is Some,
    {
        proof {
            use_type_invariant(self);
            lemma_assoc_map(self.pairs());
        }
        let mut i: usize = 0;
        while i < self.entries.len()
            invariant
                i <= self.entries@.len(),
                forall|j: int| 0 <= j < i ==> self.pairs()[j].0 != k@,
            decreases self.entries@.len() - i,
        {
            if text_eq(self.entries[i].0.as_str(), k) {
                proof {
                    use_type_invariant(self);
                    lemma_assoc_map(self.pairs());
                    assert(self.pairs()[i as int].0 == k@);
                }
                return Some(i);
            }
            assert(self.pairs()[i as int].0 != k@);
            i = i + 1;
        }
        proof {
            use_type_invariant(self);
            lemma_assoc_map(self.pairs());
        }
        None
    }

    /// The number of entries.
    pub fn len(&self) -> (r: usize)
        ensures
            r == self@.len(),
    {
        proof {
            use_type_invariant(self);
            lemma_assoc_map(self.pairs());
        }
        self.entries.len()
    }

    /// The interval registered under a name.
    pub fn get(&self, k: &str) -> (r: Option<&VersionNumberInterval>)
        ensures
            match r {
                Some(v) => self@.contains_key(k@) && v@ == self@[k@],
                None => !self@.contains_key(k@),
            },
    {
        proof {
            use_type_invariant(self);
            lemma_assoc_map(self.pairs());
        }
        match self.find(k) {
            Some(i) => {
                assert(self.pairs()[i as int].1 == self.entries@[i as int].1@);
                Some(&self.entries[i].1)
            },
            None => None,
        }
    }

    /// Whether a name has an interval.
    pub fn contains_key(&self, k: &str) -> (r: bool)
        ensures
            r == self@.contains_key(k@),
    {
        self.find(k).is_some()
    }

    /// Registers an interval under a name, replacing and returning the one it had.
    pub fn insert(&mut self, k: &str, v: VersionNumberInterval) -> (r: Option<
        VersionNumberInterval,
    >)
        ensures
            final(self)@ == old(self)@.insert(k@, v@),
            match r {
                Some(o) => old(self)@.contains_key(k@) && o@ == old(self)@[k@],
                None => !old(self)@.contains_key(k@),
            },
    {
        proof {
            use_type_invariant(&*self);
            lemma_assoc_map(self.pairs());
        }
        let ghost old_pairs = self.pairs();
        let pos = self.find(k);
        let mut entries: Vec<(String, VersionNumberInterval)> = Vec::new();
        std::mem::swap(&mut entries, &mut self.entries);
        let ghost new_pairs;
        let r = match pos {
            Some(i) => {
                let (name, o) = entries.remove(i);
                entries.insert(i, (name, v));
                proof {
                    new_pairs = entries@.map_values(
                        |e: (String, VersionNumberInterval)| (e.0@, e.1@),
                    );
                    assert(new_pairs =~= old_pairs.update(i as int, (k@, v@)));
                    assert(o@ == old_pairs[i as int].1);
                }
                Some(o)
            },
            None => {
                entries.push((String::from_str(k), v));
                proof {
                    new_pairs = entries@.map_values(
                        |e: (String, VersionNumberInterval)| (e.0@, e.1@),
                    );
                    assert(new_pairs =~= old_pairs.push((k@, v@)));
                    assert(new_pairs.drop_last() =~= old_pairs);
                }
                None
            },
        };
        proof {
            assert(assoc_keys_unique(new_pairs));
            lemma_assoc_map(new_pairs);
            assert(assoc_map(new_pairs) =~= assoc_map(old_pairs).insert(k@, v@)) by {
                assert forall|key: Seq<char>| #[trigger]
                    assoc_map(new_pairs).contains_key(key) implies assoc_map(
                    old_pairs,
                ).insert(k@, v@).contains_key(key) by {
                    let j = choose|j: int| 0 <= j < new_pairs.len() && new_pairs[j].0 == key;
                    if key != k@ {
                        assert(old_pairs[j].0 == key);
                    }
                }
                assert forall|key: Seq<char>| #[trigger]
                    assoc_map(old_pairs).insert(k@, v@).contains_key(key) implies assoc_map(
                    new_pairs,
                ).contains_key(key) && assoc_map(new_pairs)[key] == assoc_map(
                    old_pairs,
                ).insert(k@, v@)[key] by {
                    if key == k@ {
                        let j = if pos is Some {
                            pos->0 as int
                        } else {
                            new_pairs.len() - 1
                        };
                        assert(new_pairs[j].0 == k@);
                        assert(new_pairs[j].1 == v@);
                    } else {
                        let j = choose|j: int| 0 <= j < old_pairs.len() && old_pairs[j].0 == key;
                        assert(new_pairs[j] == old_pairs[j]);
                    }
                }
            }
        }
        self.entries = entries;
        r
    }

    /// Removes a name and returns its interval.
    pub fn remove(&mut self, k: &str) -> (r: Option<VersionNumberInterval>)
        ensures
            final(self)@ == old(self)@.remove(k@),
            match r {
                Some(o) => old(self)@.contains_key(k@) && o@ == old(self)@[k@],
                None => !old(self)@.contains_key(k@),
            },
    {
        proof {
            use_type_invariant(&*self);
            lemma_assoc_map(self.pairs());
        }
        let ghost old_pairs = self.pairs();
        match self.find(k) {
            Some(i) => {
                let mut entries: Vec<(String, VersionNumberInterval)> = Vec::new();
                std::mem::swap(&mut entries, &mut self.entries);
                let (_, o) = entries.remove(i);
                let ghost new_pairs = entries@.map_values(
                    |e: (String, VersionNumberInterval)| (e.0@, e.1@),
                );
                proof {
                    assert(new_pairs =~= old_pairs.remove(i as int));
                    assert(assoc_keys_unique(new_pairs));
                    lemma_assoc_map(new_pairs);
                    assert forall|key: Seq<char>| #[trigger]
                        assoc_map(new_pairs).contains_key(key) implies assoc_map(
                        old_pairs,
                    ).remove(k@).contains_key(key) && assoc_map(new_pairs)[key] == assoc_map(
                        old_pairs,
                    )[key] by {
                        let j = choose|j: int| 0 <= j < new_pairs.len() && new_pairs[j].0 == key;
                        if j < i {
                            assert(new_pairs[j] == old_pairs[j]);
                            assert(old_pairs[j].0 != old_pairs[i as int].0);
                        } else {
                            assert(new_pairs[j] == old_pairs[j + 1]);
                            assert(old_pairs[j + 1].0 != old_pairs[i as int].0);
                        }
                    }
                    assert forall|key: Seq<char>| #[trigger]
                        assoc_map(old_pairs).remove(k@).contains_key(key) implies assoc_map(
                        new_pairs,
                    ).contains_key(key) by {
                        let j = choose|j: int| 0 <= j < old_pairs.len() && old_pairs[j].0 == key;
                        if j < i {
                            assert(new_pairs[j] == old_pairs[j]);
                        } else {
                            assert(j != i);
                            assert(new_pairs[j - 1] == old_pairs[j]);
                        }
                    }
                    assert(assoc_map(new_pairs) =~= assoc_map(old_pairs).remove(k@));
                }
                self.entries = entries;
                Some(o)
            },
            None => {
                assert(self@ =~= self@.remove(k@));
                None
            },
        }
    }

    /// Removes every entry.
    pub fn clear(&mut self)
        ensures
            final(self)@ == Map::<Seq<char>, Interval<Seq<u16>>>::empty(),
    {
        let mut entries: Vec<(String, VersionNumberInterval)> = Vec::new();
        std::mem::swap(&mut entries, &mut self.entries);
        assert(self.pairs() =~= Seq::<(Seq<char>, Interval<Seq<u16>>)>::empty());
    }

    /// The entries, in no particular order.
    pub fn iter(&self) -> (r: Vec<(String, VersionNumberInterval)>)
        ensures
            r@.len() == self@.len(),
            forall|i: int|
                0 <= i < r@.len() ==> self@.contains_key(#[trigger] r@[i].0@) && self@[r@[i].0@]
                    == r@[i].1@,
            forall|k: Seq<char>|
                #[trigger] self@.contains_key(k) ==> exists|i: int| 0 <= i < r@.len() && r@[i].0@ == k,
    {
        proof {
            use_type_invariant(self);
            lemma_assoc_map(self.pairs());
        }
        let mut r: Vec<(String, VersionNumberInterval)> = Vec::new();
        let mut i: usize = 0;
        while i < self.entries.len()
            invariant
                i <= self.entries@.len(),
                r@.len() == i,
                forall|j: int|
                    0 <= j < i ==> (#[trigger] r@[j]).0@ == self.pairs()[j].0 && r@[j].1@
                        == self.pairs()[j].1,
            decreases self.entries@.len() - i,
        {
            let name = String::from_str(self.entries[i].0.as_str());
            let v = self.entries[i].1.duplicate();
            r.push((name, v));
            i = i + 1;
        }
        proof {
            assert forall|k: Seq<char>| #[trigger] self@.contains_key(k) implies exists|i: int|
                0 <= i < r@.len() && r@[i].0@ == k by {
                let j = choose|j: int| 0 <= j < self.pairs().len() && self.pairs()[j].0 == k;
                assert(r@[j].0@ == k);
            }
        }
        r
    }

    /// The names, in no particular order.
    pub fn keys(&self) -> (r: Vec<String>)
        ensures
            r@.len() == self@.len(),
            forall|i: int| 0 <= i < r@.len() ==> self@.contains_key(#[trigger] r@[i]@),
            forall|k: Seq<char>|
                #[trigger] self@.contains_key(k) ==> exists|i: int| 0 <= i < r@.len() && r@[i]@ == k,
    {
        let all = self.iter();
        let mut r: Vec<String> = Vec::new();
        let mut i: usize = 0;
        while i < all.len()
            invariant
                i <= all@.len(),
                r@.len() == i,
                forall|j: int| 0 <= j < i ==> (#[trigger] r@[j])@ == all@[j].0@,
            decreases all@.len() - i,
        {
            r.push(String::from_str(all[i].0.as_str()));
            i = i + 1;
        }
        proof {
            assert forall|i: int| 0 <= i < r@.len() implies self@.contains_key(#[trigger] r@[i]@) by {
                assert(r@[i]@ == all@[i].0@);
            }
            assert forall|k: Seq<char>| #[trigger] self@.contains_key(k) implies exists|i: int|
                0 <= i < r@.len() && r@[i]@ == k by {
                let j = choose|j: int| 0 <= j < all@.len() && all@[j].0@ == k;
                assert(r@[j]@ == k);
            }
        }
        r
    }

    /// The intervals, in no particular order.
    pub fn values(&self) -> (r: Vec<VersionNumberInterval>)
        ensures
            r@.len() == self@.len(),
            forall|i: int| 0 <= i < r@.len() ==> self@.values().contains(#[trigger] r@[i]@),
    {
        let all = self.iter();
        let mut r: Vec<VersionNumberInterval> = Vec::new();
        let mut i: usize = 0;
        while i < all.len()
            invariant
                i <= all@.len(),
                r@.len() == i,
                forall|j: int| 0 <= j < i ==> (#[trigger] r@[j])@ == all@[j].1@,
            decreases all@.len() - i,
        {
            r.push(all[i].1.duplicate());
            i = i + 1;
        }
        proof {
            assert forall|i: int| 0 <= i < r@.len() implies self@.values().contains(
                #[trigger] r@[i]@,
            ) by {
                let k = all@[i].0@;
                assert(self@.contains_key(k) && self@[k] == r@[i]@);
            }
        }
        r
    }

    /// Removes every entry and returns them, in no particular order.
    pub fn drain(&mut self) -> (r: Vec<(String, VersionNumberInterval)>)
        ensures
            final(self)@ == Map::<Seq<char>, Interval<Seq<u16>>>::empty(),
            r@.len() == old(self)@.len(),
            forall|i: int|
                0 <= i < r@.len() ==> old(self)@.contains_key(#[trigger] r@[i].0@) && old(
                    self,
                )@[r@[i].0@] == r@[i].1@,
            forall|k: Seq<char>|
                #[trigger] old(self)@.contains_key(k) ==> exists|i: int|
                    0 <= i < r@.len() && r@[i].0@ == k,
    {
        let r = self.iter();
        self.clear();
        r
    }
}

impl PartialEq for IntervalMap {
    /// Two maps are equal when they hold the same names with the same intervals,
    /// whatever the order of insertion.
    fn eq(&self, other: &IntervalMap) -> (r: bool) {
        proof {
            use_type_invariant(self);
            use_type_invariant(other);
            lemma_assoc_map(self.pairs());
            lemma_assoc_map(other.pairs());
        }
        if self.entries.len() != other.entries.len() {
            return false;
        }
        let mut i: usize = 0;
        while i < self.entries.len()
            invariant
                i <= self.entries@.len(),
                self.entries@.len() == other.entries@.len(),
                assoc_keys_unique(self.pairs()),
                assoc_keys_unique(other.pairs()),
                forall|j: int|
                    0 <= j < i ==> other@.contains_key(#[trigger] self.pairs()[j].0) && other@[self.pairs()[j].0]
                        == self.pairs()[j].1,
            decreases self.entries@.len() - i,
        {
            proof {
                lemma_assoc_map(self.pairs());
            }
            match other.get(self.entries[i].0.as_str()) {
                Some(v) => {
                    if !v.same_interval(&self.entries[i].1) {
                        assert(self@[self.pairs()[i as int].0] == self.pairs()[i as int].1);
                        return false;
                    }
                },
                None => {
                    assert(self@.contains_key(self.pairs()[i as int].0));
                    return false;
                },
            }
            i = i + 1;
        }
        proof {
            lemma_assoc_map(self.pairs());
            lemma_assoc_map(other.pairs());
            assert(self@.dom().subset_of(other@.dom())) by {
                assert forall|k: Seq<char>| self@.dom().contains(k) implies other@.dom().contains(k) by {
                    assert(self@.contains_key(k));
                    let j = choose|j: int| 0 <= j < self.pairs().len() && self.pairs()[j].0 == k;
                    assert(other@.contains_key(self.pairs()[j].0));
                }
            }
            lemma_subset_equality(self@.dom(), other@.dom());
            assert forall|k: Seq<char>| #[trigger] self@.contains_key(k) implies self@[k] == other@[k] by {
                let j = choose|j: int| 0 <= j < self.pairs().len() && self.pairs()[j].0 == k;
                assert(other@[self.pairs()[j].0] == self.pairs()[j].1);
            }
            assert(self@ =~= other@);
        }
        true
    }
}

impl vstd::std_specs::cmp::PartialEqSpecImpl for IntervalMap {
    open spec fn obeys_eq_spec() -> bool {
        true
    }

    open spec fn eq_spec(&self, other: &IntervalMap) -> bool {
        self@ == other@
    }
}

} // verus!
