//! Environments: maps from matrix names to stored matrices of one dimension.

use vstd::prelude::*;
use crate::name::{is_valid_name, MatrixName};

verus! {

/// An error of setting or getting a named matrix.
#[derive(Clone, Debug, PartialEq)]
pub enum MatrixMapError {
    /// The name is not a valid matrix name.
    InvalidName(String),
    /// No matrix of this name is defined.
    NameNotDefined(MatrixName),
}

/// A map from matrix names to matrices, held as a list of entries with distinct names.
///
/// It is not a `HashMap<MatrixName, T>`. Verus accepts that type, but proves nothing of
/// its lookups: not even that `get` finds a value just inserted under the same name. vstd
/// states what `insert` and `get` do only for key types that obey its key model, and for
/// a struct key that can only be assumed, which this crate does not do. With a list,
/// every lookup is proved.
pub struct MatrixMapHashMap<T: Copy> {
    entries: Vec<(MatrixName, T)>,
}

impl<T: Copy> View for MatrixMapHashMap<T> {
    type V = Map<Seq<char>, T>;

    closed spec fn view(&self) -> Map<Seq<char>, T> {
        Map::new(
            |k: Seq<char>| exists|i: int| 0 <= i < self.entries@.len() && self.entries@[i].0@ == k,
            |k: Seq<char>|
                self.entries@[choose|i: int| 0 <= i < self.entries@.len() && self.entries@[i].0@ == k].1,
        )
    }
}

impl<T: Copy> MatrixMapHashMap<T> {
    /// No two entries share a name.
    pub closed spec fn wf(&self) -> bool {
        forall|i: int, j: int|
            0 <= i < j < self.entries@.len() ==> self.entries@[i].0@ != self.entries@[j].0@
    }

    /// An empty map.
    pub fn new() -> (r: MatrixMapHashMap<T>)
        ensures
            r.wf(),
            r@ == Map::<Seq<char>, T>::empty(),
    {
        let r = MatrixMapHashMap { entries: Vec::new() };
        assert(r@ =~= Map::<Seq<char>, T>::empty());
        r
    }

    /// The index of the entry named `key`, if there is one.
    fn find(&self, key: &MatrixName) -> (r: Option<usize>)
        requires
            self.wf(),
        ensures
            r is None <==> !self@.contains_key(key@),
            r matches Some(i) ==> i < self.entries@.len() && self.entries@[i as int].0@ == key@,
    {
        let mut i: usize = 0;
        while i < self.entries.len()
            invariant
                i <= self.entries@.len(),
                forall|j: int| 0 <= j < i ==> self.entries@[j].0@ != key@,
            decreases self.entries@.len() - i,
        {
            if names_equal(&self.entries[i].0, key) {
                return Some(i);
            }
            i = i + 1;
        }
        None
    }

    /// Sets the matrix named `name` to `value`, replacing any earlier one; an invalid name
    /// is refused and leaves the map as it was.
    pub fn set(&mut self, name: MatrixName, value: T) -> (r: Result<(), MatrixMapError>)
        requires
            old(self).wf(),
        ensures
            final(self).wf(),
            is_valid_name(name@) ==> r is Ok && final(self)@ == old(self)@.insert(name@, value),
            !is_valid_name(name@) ==> final(self)@ == old(self)@ && (r matches Err(
                MatrixMapError::InvalidName(s),
            ) && s@ == name@),
    {
        if !name.self_is_valid() {
            return Err(MatrixMapError::InvalidName(String::from_str(name.as_str())));
        }
        let ghost before = self@;
        match self.find(&name) {
            Some(i) => {
                let ghost old_entries = self.entries@;
                self.entries.set(i, (name, value));
                proof {
                    assert forall|k: Seq<char>| #[trigger] self@.contains_key(k) == before.insert(name@, value).contains_key(k) by {
                        if exists|j: int| 0 <= j < old_entries.len() && old_entries[j].0@ == k {
                            let j = choose|j: int| 0 <= j < old_entries.len() && old_entries[j].0@ == k;
                            assert(self.entries@[j].0@ == k || j == i);
                        }
                        if k == name@ {
                            assert(self.entries@[i as int].0@ == k);
                        }
                    }
                    assert forall|k: Seq<char>| #[trigger] self@.contains_key(k) implies self@[k] == before.insert(name@, value)[k] by {
                        let j = choose|j: int| 0 <= j < self.entries@.len() && self.entries@[j].0@ == k;
                        if k == name@ {
                            assert(j == i);
                        } else {
                            let j0 = choose|j0: int| 0 <= j0 < old_entries.len() && old_entries[j0].0@ == k;
                            assert(j0 == j);
                        }
                    }
                    assert(self@ =~= before.insert(name@, value));
                }
            },
            None => {
                let ghost old_entries = self.entries@;
                self.entries.push((name, value));
                proof {
                    let n = old_entries.len() as int;
                    assert(self.entries@[n].0@ == name@);
                    assert forall|k: Seq<char>| #[trigger] self@.contains_key(k) == before.insert(name@, value).contains_key(k) by {
                        if exists|j: int| 0 <= j < old_entries.len() && old_entries[j].0@ == k {
                            let j = choose|j: int| 0 <= j < old_entries.len() && old_entries[j].0@ == k;
                            assert(self.entries@[j].0@ == k);
                        }
                    }
                    assert forall|k: Seq<char>| #[trigger] self@.contains_key(k) implies self@[k] == before.insert(name@, value)[k] by {
                        let j = choose|j: int| 0 <= j < self.entries@.len() && self.entries@[j].0@ == k;
                        if k == name@ {
                            assert(j == n);
                        } else {
                            let j0 = choose|j0: int| 0 <= j0 < old_entries.len() && old_entries[j0].0@ == k;
                            assert(j0 == j);
                        }
                    }
                    assert(self@ =~= before.insert(name@, value));
                }
            },
        }
        Ok(())
    }

    /// The matrix named `name`: an invalid name and a name without a matrix are errors.
    pub fn get(&self, name: &MatrixName) -> (r: Result<T, MatrixMapError>)
        requires
            self.wf(),
        ensures
            !is_valid_name(name@) ==> (r matches Err(MatrixMapError::InvalidName(s)) && s@ == name@),
            is_valid_name(name@) && self@.contains_key(name@) ==> r == Ok::<T, MatrixMapError>(self@[name@]),
            is_valid_name(name@) && !self@.contains_key(name@) ==> (r matches Err(
                MatrixMapError::NameNotDefined(n),
            ) && n@ == name@),
    {
        if !name.self_is_valid() {
            return Err(MatrixMapError::InvalidName(String::from_str(name.as_str())));
        }
        match self.find(name) {
            Some(i) => {
                proof {
                    let j = choose|j: int| 0 <= j < self.entries@.len() && self.entries@[j].0@ == name@;
                    assert(j == i);
                }
                Ok(self.entries[i].1)
            },
            None => Err(MatrixMapError::NameNotDefined(name.duplicate())),
        }
    }
}

/// Whether two names are the same.
fn names_equal(a: &MatrixName, b: &MatrixName) -> (r: bool)
    ensures
        r == (a@ == b@),
{
    let x = a.as_str();
    let y = b.as_str();
    let n = x.unicode_len();
    if n != y.unicode_len() {
        return false;
    }
    let mut i: usize = 0;
    while i < n
        invariant
            i <= n,
            n == x@.len(),
            n == y@.len(),
            x@ == a@,
            y@ == b@,
            x@.subrange(0, i as int) == y@.subrange(0, i as int),
        decreases n - i,
    {
        if x.get_char(i) != y.get_char(i) {
            assert(x@[i as int] != y@[i as int]);
            return false;
        }
        assert(x@.subrange(0, i + 1) =~= x@.subrange(0, i as int).push(x@[i as int]));
        assert(y@.subrange(0, i + 1) =~= y@.subrange(0, i as int).push(y@[i as int]));
        i = i + 1;
    }
    assert(x@ =~= x@.subrange(0, n as int));
    assert(y@ =~= y@.subrange(0, n as int));
    true
}

} // verus!
