//! The gradient accumulator: a node-identity-keyed sum of the partial
//! gradients delivered during a backward pass.

use vstd::prelude::*;

use crate::tensor::{tv_bop, Bop, Tensor, TView};

verus! {

/// One accumulated gradient.
#[derive(Clone, Debug)]
pub struct GradEntry {
    pub id: u64,
    pub grad: Tensor,
}

/// Node-identity-keyed gradient store; `register` sums, `consume` removes.
#[derive(Clone, Debug)]
pub struct Gradients {
    pub entries: Vec<GradEntry>,
}

/// The store as a map from node identity to the accumulated view.
pub open spec fn gmap(es: Seq<GradEntry>) -> Map<u64, TView>
    decreases es.len(),
{
    if es.len() == 0 {
        Map::empty()
    } else {
        gmap(es.drop_last()).insert(es.last().id, es.last().grad@)
    }
}

/// Registering one gradient at the map level: sum with any present entry.
pub open spec fn reg_spec(m: Map<u64, TView>, id: u64, t: TView) -> Map<u64, TView> {
    if m.contains_key(id) {
        m.insert(id, tv_bop(Bop::Add, m[id], t))
    } else {
        m.insert(id, t)
    }
}

impl View for Gradients {
    type V = Map<u64, TView>;

    open spec fn view(&self) -> Map<u64, TView> {
        gmap(self.entries@)
    }
}

/// Distinct identities in the entry list.
pub open spec fn entries_unique(es: Seq<GradEntry>) -> bool {
    forall|i: int, j: int| 0 <= i < j < es.len() ==> (#[trigger] es[i]).id != (#[trigger] es[j]).id
}

/// With unique identities, the map agrees with the entries pointwise.
pub proof fn lemma_gmap_index(es: Seq<GradEntry>, i: int)
    requires
        entries_unique(es),
        0 <= i < es.len(),
    ensures
        gmap(es).contains_key(es[i].id),
        gmap(es)[es[i].id] == es[i].grad@,
    decreases es.len(),
{
    if i < es.len() - 1 {
        lemma_gmap_index(es.drop_last(), i);
        assert(es.drop_last()[i] == es[i]);
    }
}

/// Identities absent from the entries are absent from the map.
pub proof fn lemma_gmap_absent(es: Seq<GradEntry>, id: u64)
    requires
        forall|i: int| 0 <= i < es.len() ==> (#[trigger] es[i]).id != id,
    ensures
        !gmap(es).contains_key(id),
    decreases es.len(),
{
    if es.len() > 0 {
        lemma_gmap_absent(es.drop_last(), id);
    }
}

impl Gradients {
    pub open spec fn wf(&self) -> bool {
        &&& entries_unique(self.entries@)
        &&& forall|i: int| 0 <= i < self.entries@.len() ==> (#[trigger] self.entries@[i]).grad.wf()
    }

    /// The empty store.
    pub fn new() -> (r: Gradients)
        ensures
            r.wf(),
            r@ == Map::<u64, TView>::empty(),
    {
        let entries: Vec<GradEntry> = Vec::new();
        Gradients { entries }
    }

    /// Whether the store is empty.
    pub fn is_empty(&self) -> (r: bool)
        requires
            self.wf(),
        ensures
            r == (self@ == Map::<u64, TView>::empty()),
    {
        if self.entries.len() == 0 {
            true
        } else {
            proof {
                lemma_gmap_index(self.entries@, 0);
                assert(self@.contains_key(self.entries@[0].id));
            }
            false
        }
    }

    fn find(&self, id: u64) -> (r: Option<usize>)
        requires
            self.wf(),
        ensures
            match r {
                Some(i) => i < self.entries@.len() && self.entries@[i as int].id == id
                    && self@.contains_key(id) && self@[id] == self.entries@[i as int].grad@,
                None => !self@.contains_key(id),
            },
    {
        let mut i: usize = 0;
        while i < self.entries.len()
            invariant
                0 <= i <= self.entries@.len(),
                self.wf(),
                forall|k: int| 0 <= k < i ==> (#[trigger] self.entries@[k]).id != id,
            decreases self.entries@.len() - i,
        {
            if self.entries[i].id == id {
                proof {
                    lemma_gmap_index(self.entries@, i as int);
                }
                return Some(i);
            }
            i += 1;
        }
        proof {
            lemma_gmap_absent(self.entries@, id);
        }
        None
    }

    /// Non-destructive read of one gradient.
    pub fn get(&self, id: u64) -> (r: Option<Tensor>)
        requires
            self.wf(),
        ensures
            match r {
                Some(t) => self@.contains_key(id) && t@ == self@[id] && t.wf(),
                None => !self@.contains_key(id),
            },
    {
        match self.find(id) {
            Some(i) => Some(self.entries[i].grad.dup()),
            None => None,
        }
    }

    /// Add a gradient for a node: sums with any entry already present.
    pub fn register(&mut self, id: u64, g: Tensor)
        requires
            old(self).wf(),
            g.wf(),
            old(self)@.contains_key(id) ==> old(self)@[id].shape == g@.shape,
        ensures
            final(self).wf(),
            final(self)@ == reg_spec(old(self)@, id, g@),
    {
        let found = self.find(id);
        match found {
            Some(i) => {
                let ghost es_old = self.entries@;
                let summed = self.entries[i].grad.add(&g);
                let idv = self.entries[i].id;
                self.entries.set(i, GradEntry { id: idv, grad: summed });
                proof {
                    lemma_gmap_update(es_old, self.entries@, i as int);
                    assert(self@ =~= reg_spec(gmap(es_old), id, g@));
                    assert forall|k1: int, k2: int|
                        0 <= k1 < k2 < self.entries@.len() implies (#[trigger] self.entries@[k1]).id
                        != (#[trigger] self.entries@[k2]).id by {
                        assert(self.entries@[k1].id == es_old[k1].id);
                        assert(self.entries@[k2].id == es_old[k2].id);
                    }
                    assert forall|k: int| 0 <= k < self.entries@.len() implies (
                    #[trigger] self.entries@[k]).grad.wf() by {
                        if k != i {
                            assert(self.entries@[k] == es_old[k]);
                        }
                    }
                }
            },
            None => {
                let ghost es_old = self.entries@;
                proof {
                    assert forall|k: int| 0 <= k < es_old.len() implies (#[trigger] es_old[k]).id
                        != id by {
                        lemma_gmap_index(es_old, k);
                    }
                }
                self.entries.push(GradEntry { id, grad: g });
                proof {
                    assert(self.entries@.drop_last() =~= es_old);
                    assert(self@ =~= reg_spec(gmap(es_old), id, g@));
                    assert forall|k: int| 0 <= k < self.entries@.len() implies (
                    #[trigger] self.entries@[k]).grad.wf() by {
                        if k < es_old.len() {
                            assert(self.entries@[k] == es_old[k]);
                        }
                    }
                }
            },
        }
    }

    /// Remove and return the gradient of a node; a missing entry yields a
    /// zero tensor of the given shape (the defensive form of the engine).
    pub fn consume(&mut self, id: u64, shape: Vec<usize>) -> (r: Tensor)
        requires
            old(self).wf(),
            crate::shape::prod(shape@) <= usize::MAX,
            old(self)@.contains_key(id) ==> old(self)@[id].shape == shape@,
        ensures
            final(self).wf(),
            final(self)@ == old(self)@.remove(id),
            r.wf(),
            r@ == (if old(self)@.contains_key(id) {
                old(self)@[id]
            } else {
                crate::tensor::tv_zeros(shape@)
            }),
            r@.shape == shape@,
    {
        let found = self.find(id);
        match found {
            Some(i) => {
                let ghost es_old = self.entries@;
                let e = self.entries.remove(i);
                proof {
                    lemma_gmap_remove(es_old, self.entries@, i as int);
                    assert(self@ =~= gmap(es_old).remove(id));
                }
                e.grad
            },
            None => {
                proof {
                    assert(self@ =~= self@.remove(id));
                }
                Tensor::zeros(shape)
            },
        }
    }

    /// Remove and return the gradient of a node, if present.
    pub fn remove(&mut self, id: u64) -> (r: Option<Tensor>)
        requires
            old(self).wf(),
        ensures
            final(self).wf(),
            final(self)@ == old(self)@.remove(id),
            match r {
                Some(t) => old(self)@.contains_key(id) && t@ == old(self)@[id] && t.wf(),
                None => !old(self)@.contains_key(id),
            },
    {
        let found = self.find(id);
        match found {
            Some(i) => {
                let ghost es_old = self.entries@;
                let e = self.entries.remove(i);
                proof {
                    lemma_gmap_remove(es_old, self.entries@, i as int);
                    assert(self@ =~= gmap(es_old).remove(id));
                }
                Some(e.grad)
            },
            None => {
                proof {
                    assert(self@ =~= self@.remove(id));
                }
                None
            },
        }
    }
}

/// Updating entry `i` in place updates the map at that identity.
proof fn lemma_gmap_update(es_old: Seq<GradEntry>, es_new: Seq<GradEntry>, i: int)
    requires
        entries_unique(es_old),
        0 <= i < es_old.len(),
        es_new.len() == es_old.len(),
        es_new[i].id == es_old[i].id,
        forall|k: int| 0 <= k < es_old.len() && k != i ==> es_new[k] == es_old[k],
    ensures
        gmap(es_new) =~= gmap(es_old).insert(es_old[i].id, es_new[i].grad@),
    decreases es_old.len(),
{
    if i == es_old.len() - 1 {
        assert(es_new.drop_last() =~= es_old.drop_last());
    } else {
        lemma_gmap_update(es_old.drop_last(), es_new.drop_last(), i);
        assert(es_old.drop_last()[i] == es_old[i]);
        assert(es_new.drop_last()[i] == es_new[i]);
        assert(es_new.last() == es_old.last());
        assert(es_old.last().id != es_old[i].id);
    }
}

/// Removing entry `i` removes exactly that identity from the map.
proof fn lemma_gmap_remove(es_old: Seq<GradEntry>, es_new: Seq<GradEntry>, i: int)
    requires
        entries_unique(es_old),
        0 <= i < es_old.len(),
        es_new =~= es_old.remove(i),
    ensures
        gmap(es_new) =~= gmap(es_old).remove(es_old[i].id),
        entries_unique(es_new),
    decreases es_old.len(),
{
    if i == es_old.len() - 1 {
        assert(es_new =~= es_old.drop_last());
        lemma_gmap_absent(es_old.drop_last(), es_old[i].id);
    } else {
        lemma_gmap_remove(es_old.drop_last(), es_new.drop_last(), i);
        assert(es_old.drop_last()[i] == es_old[i]);
        assert(es_new.last() == es_old.last());
        assert(es_old.last().id != es_old[i].id);
        assert(gmap(es_new) =~= gmap(es_new.drop_last()).insert(
            es_new.last().id,
            es_new.last().grad@,
        ));
    }
}

} // verus!
