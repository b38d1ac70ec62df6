use vstd::prelude::*;
use crate::store::{ids_of, ids_seq, StoreV};
use crate::strutil::views_of;

verus! {

/// The bulk-preload side of the existence oracle: every persisted
/// identifier, loaded once at the start of a run and consulted in memory
/// afterwards.
pub struct IdSet {
    pub ids: Vec<String>,
}

impl IdSet {
    /// The identifiers this set answers for.
    pub open spec fn id_set(&self) -> Set<Seq<char>> {
        Set::new(
            |x: Seq<char>| exists|k: int| 0 <= k < self.ids@.len() && #[trigger] self.ids@[k]@ == x,
        )
    }

    /// Materialize the preloaded set from the identifiers one bulk
    /// retrieval returned.
    pub fn from_ids(ids: Vec<String>) -> (r: IdSet)
        ensures
            r.ids@ == ids@,
    {
        IdSet { ids }
    }

    /// Whether an identifier is already persisted, answered locally.
    pub fn contains(&self, id: &str) -> (b: bool)
        ensures
            b == self.id_set().contains(id@),
    {
        let needle = String::from_str(id);
        let mut k: usize = 0;
        while k < self.ids.len()
            invariant
                needle@ == id@,
                k <= self.ids.len(),
                forall|i: int| 0 <= i < k ==> #[trigger] self.ids@[i]@ != id@,
            decreases self.ids.len() - k,
        {
            if self.ids[k] == needle {
                proof {
                    assert(self.ids@[k as int]@ == id@);
                }
                return true;
            }
            k += 1;
        }
        proof {
            if self.id_set().contains(id@) {
                let w = choose|w: int| 0 <= w < self.ids@.len() && #[trigger] self.ids@[w]@ == id@;
                assert(false);
            }
        }
        false
    }
}

/// The two existence strategies agree: against a fixed store, the set
/// preloaded from that store's identifiers answers membership for every
/// candidate exactly as the per-record probe does.
pub proof fn lemma_oracle_equivalence(store: StoreV, pre: IdSet, cand: Seq<char>)
    requires
        views_of(pre.ids@) == ids_seq(store.rows),
    ensures
        pre.id_set().contains(cand) == ids_of(store.rows).contains(cand),
{
    assert(views_of(pre.ids@).len() == pre.ids@.len());
    assert(ids_seq(store.rows).len() == store.rows.len());
    if pre.id_set().contains(cand) {
        let k = choose|k: int| 0 <= k < pre.ids@.len() && #[trigger] pre.ids@[k]@ == cand;
        assert(views_of(pre.ids@)[k] == pre.ids@[k]@);
        assert(ids_seq(store.rows)[k] == store.rows[k].id);
        assert(store.rows[k].id == cand);
        assert(ids_of(store.rows).contains(cand));
    }
    if ids_of(store.rows).contains(cand) {
        let k = choose|k: int| 0 <= k < store.rows.len() && #[trigger] store.rows[k].id == cand;
        assert(ids_seq(store.rows)[k] == store.rows[k].id);
        assert(views_of(pre.ids@)[k] == pre.ids@[k]@);
        assert(pre.ids@[k]@ == cand);
        assert(pre.id_set().contains(cand));
    }
}

} // verus!
