//! A map from file paths to file contents.

use vstd::prelude::*;
use crate::text::{same_text, views};

verus! {

/// Maps the path of a file to its contents. Paths are kept in the order in
/// which they first came in.
pub struct FileMap {
    keys: Vec<String>,
    values: Vec<String>,
}

impl View for FileMap {
    type V = Map<Seq<char>, Seq<char>>;

    closed spec fn view(&self) -> Map<Seq<char>, Seq<char>> {
        Map::new(
            |k: Seq<char>| views(self.keys@).contains(k),
            |k: Seq<char>| self.values@[views(self.keys@).index_of(k)]@,
        )
    }
}

impl FileMap {
    /// Every path has its value, and no path occurs twice.
    pub closed spec fn wf(&self) -> bool {
        self.keys@.len() == self.values@.len() && views(self.keys@).no_duplicates()
    }

    /// The paths of the map as contracts speak of them, in their order.
    pub closed spec fn spec_paths(&self) -> Seq<Seq<char>> {
        views(self.keys@)
    }

    /// An empty map.
    pub fn new() -> (map: Self)
        ensures
            map.wf(),
            map@ == Map::<Seq<char>, Seq<char>>::empty(),
            map.spec_paths() == Seq::<Seq<char>>::empty(),
    {
        let map = FileMap { keys: Vec::new(), values: Vec::new() };
        assert(map@ =~= Map::<Seq<char>, Seq<char>>::empty());
        assert(map.spec_paths() =~= Seq::<Seq<char>>::empty());
        map
    }

    /// Where `key` stands among the paths.
    fn position(&self, key: &str) -> (found: Option<usize>)
        requires
            self.wf(),
        ensures
            match found {
                Some(i) => i < self.keys@.len() && self.keys@[i as int]@ == key@ && views(
                    self.keys@,
                ).index_of(key@) == i && views(self.keys@).contains(key@),
                None => !views(self.keys@).contains(key@),
            },
    {
        let mut i: usize = 0;
        while i < self.keys.len()
            invariant
                i <= self.keys.len(),
                views(self.keys@).no_duplicates(),
                forall|j: int| 0 <= j < i ==> self.keys@[j]@ != key@,
            decreases self.keys.len() - i,
        {
            if same_text(self.keys[i].as_str(), key) {
                proof {
                    let paths = views(self.keys@);
                    assert(paths[i as int] == key@);
                    let at = paths.index_of(key@);
                    assert(0 <= at < paths.len() && paths[at] == key@);
                }
                return Some(i);
            }
            i += 1;
        }
        proof {
            let paths = views(self.keys@);
            if paths.contains(key@) {
                let j = choose|j: int| 0 <= j < paths.len() && paths[j] == key@;
                assert(self.keys@[j]@ == key@);
            }
        }
        None
    }

    /// Stores `value` under `key`. A value already stored under `key` is
    /// replaced.
    pub fn insert(&mut self, key: String, value: String)
        requires
            old(self).wf(),
        ensures
            final(self).wf(),
            final(self)@ == old(self)@.insert(key@, value@),
            final(self).spec_paths() == (if old(self)@.contains_key(key@) {
                old(self).spec_paths()
            } else {
                old(self).spec_paths().push(key@)
            }),
    {
        let ghost old_keys = views(self.keys@);
        let ghost old_values = self.values@;
        match self.position(key.as_str()) {
            Some(i) => {
                self.values.set(i, value);
                proof {
                    assert(views(self.keys@) == old_keys);
                    assert(self@.dom() =~= old(self)@.insert(key@, value@).dom());
                    assert forall|k: Seq<char>| old_keys.contains(k) implies #[trigger] self@[k]
                        == old(self)@.insert(key@, value@)[k] by {
                        let at = old_keys.index_of(k);
                        assert(0 <= at < old_keys.len() && old_keys[at] == k);
                        if k != key@ {
                            assert(at != i);
                            assert(self.values@[at] == old_values[at]);
                        } else {
                            assert(at == i);
                        }
                    }
                    assert(self@ =~= old(self)@.insert(key@, value@));
                }
            },
            None => {
                self.keys.push(key);
                self.values.push(value);
                proof {
                    let new_keys = views(self.keys@);
                    assert(new_keys =~= old_keys.push(key@));
                    assert(new_keys.no_duplicates());
                    assert forall|k: Seq<char>| new_keys.contains(k) == (old_keys.contains(k) || k
                        == key@) by {
                        if old_keys.contains(k) {
                            let j = old_keys.index_of(k);
                            assert(new_keys[j] == k);
                        }
                        if k == key@ {
                            assert(new_keys[old_keys.len() as int] == k);
                        }
                    }
                    assert forall|k: Seq<char>| new_keys.contains(k) implies #[trigger] self@[k]
                        == old(self)@.insert(key@, value@)[k] by {
                        let at = new_keys.index_of(k);
                        if k != key@ {
                            let was = old_keys.index_of(k);
                            assert(new_keys[was] == k);
                            assert(at == was);
                        } else {
                            assert(new_keys[old_keys.len() as int] == k);
                            assert(at == old_keys.len());
                        }
                    }
                    assert(self@ =~= old(self)@.insert(key@, value@));
                }
            },
        }
    }

    /// The value stored under `key`.
    pub fn get(&self, key: &str) -> (found: Option<&String>)
        requires
            self.wf(),
        ensures
            match found {
                Some(value) => self@.contains_key(key@) && value@ == self@[key@],
                None => !self@.contains_key(key@),
            },
    {
        match self.position(key) {
            Some(i) => Some(&self.values[i]),
            None => None,
        }
    }

    /// Whether a value is stored under `key`.
    pub fn contains_key(&self, key: &str) -> (b: bool)
        requires
            self.wf(),
        ensures
            b == self@.contains_key(key@),
    {
        self.position(key).is_some()
    }

    /// The number of paths.
    pub fn len(&self) -> (n: usize)
        requires
            self.wf(),
        ensures
            n == self@.dom().len(),
            n == self.spec_paths().len(),
            self.spec_paths().no_duplicates(),
            self.spec_paths().to_set() == self@.dom(),
    {
        proof {
            let paths = views(self.keys@);
            assert(paths.to_set() =~= self@.dom());
            paths.unique_seq_to_set();
        }
        self.keys.len()
    }

    /// Whether the map holds nothing.
    pub fn is_empty(&self) -> (b: bool)
        requires
            self.wf(),
        ensures
            b == (self@.dom().len() == 0),
    {
        self.len() == 0
    }

    /// The path at index `i`, in the order in which the paths came in.
    pub fn path_at(&self, i: usize) -> (found: Option<&String>)
        requires
            self.wf(),
        ensures
            match found {
                Some(path) => i < self.spec_paths().len() && path@ == self.spec_paths()[i as int]
                    && self@.contains_key(path@),
                None => i >= self.spec_paths().len(),
            },
    {
        if i < self.keys.len() {
            proof {
                assert(views(self.keys@)[i as int] == self.keys@[i as int]@);
            }
            Some(&self.keys[i])
        } else {
            None
        }
    }
}

} // verus!
