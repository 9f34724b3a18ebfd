//! The table of remappings, kept as a tree of names.
//!
//! The model of the table is a map from paths to paths. The tree is how it is
//! stored: the destination of a path stands at the node that the names of the
//! path lead to, one name per level.

use super::path::{segments, Buffer};
use vstd::prelude::*;
use vstd::slice::slice_subrange;

verus! {

/// A node of the tree: the destination of the path that leads here, if it has
/// one, and the nodes below, each under its name.
pub struct Mapper {
    children: Vec<(String, Mapper)>,
    value: Option<Buffer>,
}

impl View for Mapper {
    type V = Map<Seq<Seq<char>>, Seq<Seq<char>>>;

    /// The remappings of the table: each source path with its destination.
    closed spec fn view(&self) -> Map<Seq<Seq<char>>, Seq<Seq<char>>> {
        Map::new(
            |keys: Seq<Seq<char>>| self.lookup(keys) is Some,
            |keys: Seq<Seq<char>>| self.lookup(keys).unwrap(),
        )
    }
}

impl Mapper {
    /// No two nodes below one node stand under the same name.
    pub closed spec fn wf(&self) -> bool
        decreases self,
    {
        &&& forall|i: int, j: int|
            0 <= i < j < self.children.len() ==> self.children[i].0@ != self.children[j].0@
        &&& forall|i: int| 0 <= i < self.children.len() ==> (#[trigger] self.children[i]).1.wf()
    }

    /// A node stands under this name.
    spec fn has_child(&self, key: Seq<char>) -> bool {
        exists|i: int| 0 <= i < self.children.len() && (#[trigger] self.children[i]).0@ == key
    }

    /// The place of the node under this name.
    spec fn child_index(&self, key: Seq<char>) -> int {
        choose|i: int| 0 <= i < self.children.len() && (#[trigger] self.children[i]).0@ == key
    }

    /// The destination that stands at the end of `keys`.
    spec fn lookup(&self, keys: Seq<Seq<char>>) -> Option<Seq<Seq<char>>>
        decreases keys.len(),
    {
        if keys.len() == 0 {
            match self.value {
                Some(path) => Some(path@),
                None => None,
            }
        } else if self.has_child(keys[0]) {
            self.children[self.child_index(keys[0])].1.lookup(keys.skip(1))
        } else {
            None
        }
    }

    /// An empty table.
    pub fn new() -> (r: Mapper)
        ensures
            r.wf(),
            r@ == Map::<Seq<Seq<char>>, Seq<Seq<char>>>::empty(),
    {
        let r = Mapper { children: Vec::new(), value: None };
        assert(r@ =~= Map::<Seq<Seq<char>>, Seq<Seq<char>>>::empty());
        r
    }

    /// In a well-formed node the place of a name is the one where it stands.
    proof fn lemma_child_index(&self, i: int)
        requires
            self.wf(),
            0 <= i < self.children.len(),
        ensures
            self.has_child(self.children[i].0@),
            self.child_index(self.children[i].0@) == i,
    {
        let key = self.children[i].0@;
        assert(self.children[i].0@ == key);
        let k = self.child_index(key);
        assert(0 <= k < self.children.len() && self.children[k].0@ == key);
    }

    /// The place of the node under this name.
    fn find_child(&self, key: &String) -> (r: Option<usize>)
        ensures
            match r {
                Some(i) => i < self.children.len() && self.children[i as int].0@ == key@,
                None => !self.has_child(key@),
            },
    {
        let mut i: usize = 0;
        while i < self.children.len()
            invariant
                i <= self.children.len(),
                forall|j: int| 0 <= j < i ==> (#[trigger] self.children[j]).0@ != key@,
            decreases self.children.len() - i,
        {
            if self.children[i].0 == *key {
                return Some(i);
            }
            i = i + 1;
        }
        None
    }

    /// Remaps the path `keys` to `value`. A destination that the path had
    /// before is replaced; no other path is touched.
    pub fn add(&mut self, keys: &[String], value: Buffer)
        requires
            old(self).wf(),
        ensures
            final(self).wf(),
            final(self)@ == old(self)@.insert(segments(keys@), value@),
        decreases keys@.len(),
    {
        let ghost before = *self;
        let ghost path = segments(keys@);
        if keys.len() == 0 {
            self.value = Some(value);
            assert(path =~= Seq::<Seq<char>>::empty());
            assert forall|k: Seq<Seq<char>>| #[trigger] self.lookup(k) == (if k == path {
                Some(value@)
            } else {
                before.lookup(k)
            }) by {
                if k.len() == 0 {
                    assert(k =~= path);
                } else {
                    assert(self.has_child(k[0]) == before.has_child(k[0]));
                }
            }
            assert(self@ =~= before@.insert(path, value@));
            return ;
        }
        let i: usize = match self.find_child(&keys[0]) {
            Some(i) => i,
            None => {
                self.children.push((keys[0].clone(), Mapper::new()));
                self.children.len() - 1
            },
        };
        let ghost middle = *self;
        let ghost rest = segments(keys@.subrange(1, keys@.len() as int));
        assert(rest =~= path.skip(1));
        assert(middle.wf());
        proof {
            middle.lemma_child_index(i as int);
        }
        assert forall|k: Seq<Seq<char>>| #[trigger] middle.lookup(k) == before.lookup(k) by {
            if k.len() > 0 {
                if before.has_child(k[0]) {
                    let j = before.child_index(k[0]);
                    before.lemma_child_index(j);
                    assert(middle.children[j] == before.children[j]);
                    middle.lemma_child_index(j);
                } else {
                    if middle.has_child(k[0]) {
                        let j = middle.child_index(k[0]);
                        assert(j == before.children.len());
                        assert(middle.children[j].1@ =~= Map::empty());
                        assert(!middle.children[j].1@.contains_key(k.skip(1)));
                    }
                }
            }
        }
        self.children[i].1.add(slice_subrange(keys, 1, keys.len()), value);
        assert(self.wf()) by {
            assert forall|a: int| 0 <= a < self.children.len() implies (#[trigger] self.children[a]).1.wf() by {
                if a != i {
                    assert(self.children[a] == middle.children[a]);
                }
            }
            assert forall|a: int, b: int| 0 <= a < b < self.children.len() implies self.children[a].0@
                != self.children[b].0@ by {
                assert(self.children[a].0 == middle.children[a].0);
                assert(self.children[b].0 == middle.children[b].0);
            }
        }
        assert forall|k: Seq<Seq<char>>| #[trigger] self.lookup(k) == (if k == path {
            Some(value@)
        } else {
            before.lookup(k)
        }) by {
            assert(middle.lookup(k) == before.lookup(k));
            if k.len() == 0 {
                assert(k != path);
                assert(self.value == middle.value);
            } else {
                assert(self.has_child(k[0]) == middle.has_child(k[0])) by {
                    if middle.has_child(k[0]) {
                        let j = middle.child_index(k[0]);
                        assert(self.children[j].0 == middle.children[j].0);
                    }
                    if self.has_child(k[0]) {
                        let j = self.child_index(k[0]);
                        assert(self.children[j].0 == middle.children[j].0);
                    }
                }
                if middle.has_child(k[0]) {
                    let j = middle.child_index(k[0]);
                    middle.lemma_child_index(j);
                    assert(self.children[j].0 == middle.children[j].0);
                    self.lemma_child_index(j);
                    if j == i {
                        let child = self.children[j].1;
                        let old_child = middle.children[j].1;
                        assert(child@ == old_child@.insert(rest, value@));
                        assert(k[0] == middle.children[j].0@);
                        assert(path[0] == keys@[0]@);
                        if k.skip(1) == rest {
                            assert(k =~= path) by {
                                assert(k.len() == path.len());
                                assert forall|x: int| 0 <= x < k.len() implies k[x] == path[x] by {
                                    if x > 0 {
                                        assert(k[x] == k.skip(1)[x - 1]);
                                        assert(path[x] == path.skip(1)[x - 1]);
                                    }
                                }
                            }
                            assert(child@.contains_key(rest));
                            assert(child.lookup(rest) is Some);
                            assert(child@[rest] == child.lookup(rest).unwrap());
                            assert(self.lookup(k) == child.lookup(rest));
                        } else {
                            assert(k != path);
                            assert(child@.contains_key(k.skip(1)) == old_child@.contains_key(
                                k.skip(1),
                            ));
                            if old_child@.contains_key(k.skip(1)) {
                                assert(child@[k.skip(1)] == old_child@[k.skip(1)]);
                                assert(child.lookup(k.skip(1)).unwrap() == old_child.lookup(
                                    k.skip(1),
                                ).unwrap());
                            }
                            assert(child.lookup(k.skip(1)) == old_child.lookup(k.skip(1)));
                            assert(self.lookup(k) == child.lookup(k.skip(1)));
                            assert(middle.lookup(k) == old_child.lookup(k.skip(1)));
                        }
                    } else {
                        assert(self.children[j] == middle.children[j]);
                        assert(k[0] == middle.children[j].0@);
                        assert(path[0] == middle.children[i as int].0@);
                        assert(k[0] != path[0]);
                    }
                } else {
                    assert(path[0] == middle.children[i as int].0@);
                    assert(k[0] != path[0]);
                }
            }
        }
        assert(self@ =~= before@.insert(path, value@));
    }

    /// The destination of the path `keys`, if it has been remapped. Only the
    /// very path counts: a remapping of a path above it or below it does not.
    pub fn translate(&self, keys: &[String]) -> (r: Option<&Buffer>)
        requires
            self.wf(),
        ensures
            r is Some <==> self@.contains_key(segments(keys@)),
            r matches Some(path) ==> path@ == self@[segments(keys@)],
        decreases keys@.len(),
    {
        let ghost path = segments(keys@);
        if keys.len() == 0 {
            return self.value.as_ref();
        }
        match self.find_child(&keys[0]) {
            Some(i) => {
                proof {
                    self.lemma_child_index(i as int);
                }
                assert(segments(keys@.subrange(1, keys@.len() as int)) =~= path.skip(1));
                self.children[i].1.translate(slice_subrange(keys, 1, keys.len()))
            },
            None => None,
        }
    }
}

} // verus!
