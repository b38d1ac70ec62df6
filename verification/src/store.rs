use vstd::prelude::*;
use crate::sponsor_time::{video_id_of, RowV, SponsorTime};
use crate::sponsor_time_error::SponsorTimeError;
use crate::strutil::views_of;

verus! {

/// The persisted state seen from specifications: whether the table and its
/// subject index exist, and the stored rows in insertion order.
pub ghost struct StoreV {
    pub table: bool,
    pub index: bool,
    pub rows: Seq<RowV>,
}

/// The identifiers persisted in a row sequence.
pub open spec fn ids_of(rows: Seq<RowV>) -> Set<Seq<char>> {
    Set::new(|x: Seq<char>| exists|k: int| 0 <= k < rows.len() && rows[k].id == x)
}

/// The identifiers of a row sequence, in row order.
pub open spec fn ids_seq(rows: Seq<RowV>) -> Seq<Seq<char>> {
    rows.map_values(|r: RowV| r.id)
}

/// How a record is persisted: its subject field replaced by the extracted
/// subject identifier, everything else verbatim.
pub open spec fn stored_row(r: RowV) -> RowV {
    RowV { video_id: video_id_of(r.video_id), ..r }
}

pub open spec fn wf_rows(rows: Seq<RowV>) -> bool {
    forall|i: int, j: int| 0 <= i < j < rows.len() ==> #[trigger] rows[i].id != #[trigger] rows[j].id
}

/// Store soundness: unique identifiers, no rows without a table, and no
/// index without the table it refers to.
pub open spec fn store_wf(s: StoreV) -> bool {
    &&& wf_rows(s.rows)
    &&& (!s.table ==> s.rows.len() == 0)
    &&& (s.index ==> s.table)
}

/// What the idempotent schema step leaves behind.
pub open spec fn ensure_spec(s: StoreV) -> StoreV {
    StoreV { table: true, index: true, rows: s.rows }
}

/// What the destructive reset leaves behind.
pub open spec fn reset_spec(s: StoreV) -> StoreV {
    StoreV { table: false, index: false, rows: Seq::empty() }
}

/// A destructive reset followed by the idempotent schema step leaves both
/// the index and the table present, and the table empty, whatever the prior
/// state was.
pub proof fn lemma_reset_then_ensure(s: StoreV)
    ensures
        ensure_spec(reset_spec(s)).table,
        ensure_spec(reset_spec(s)).index,
        ensure_spec(reset_spec(s)).rows.len() == 0,
{
}

/// An in-memory model of the store: the schema lifecycle and the insert
/// contract that the persistence layer is relied on for, with rows held in
/// a vector.
pub struct StoreModel {
    pub table: bool,
    pub index: bool,
    pub rows: Vec<SponsorTime>,
}

impl View for StoreModel {
    type V = StoreV;

    open spec fn view(&self) -> StoreV {
        StoreV {
            table: self.table,
            index: self.index,
            rows: self.rows@.map_values(|r: SponsorTime| r@),
        }
    }
}

impl StoreModel {
    /// A store with no schema and no rows.
    pub fn new() -> (r: Self)
        ensures
            r@ == (StoreV { table: false, index: false, rows: Seq::<RowV>::empty() }),
            store_wf(r@),
    {
        let r = Self { table: false, index: false, rows: Vec::new() };
        proof {
            assert(r@.rows =~= Seq::<RowV>::empty());
        }
        r
    }

    /// Create the table if it is absent; safe to repeat.
    pub fn create_table(&mut self)
        requires
            store_wf(old(self)@),
        ensures
            final(self)@ == (StoreV { table: true, ..old(self)@ }),
            store_wf(final(self)@),
    {
        self.table = true;
    }

    /// Create the subject index if it is absent; the table must exist
    /// first, since the index refers to it.
    pub fn create_index(&mut self)
        requires
            store_wf(old(self)@),
            old(self)@.table,
        ensures
            final(self)@ == (StoreV { index: true, ..old(self)@ }),
            store_wf(final(self)@),
    {
        self.index = true;
    }

    /// Drop the subject index.
    pub fn drop_index(&mut self)
        requires
            store_wf(old(self)@),
        ensures
            final(self)@ == (StoreV { index: false, ..old(self)@ }),
            store_wf(final(self)@),
    {
        self.index = false;
    }

    /// Drop the table and everything in it; refused while the subject index
    /// still refers to the table, so the index must be dropped first.
    pub fn drop_table(&mut self)
        requires
            store_wf(old(self)@),
            !old(self)@.index,
        ensures
            final(self)@ == (StoreV { table: false, rows: Seq::empty(), ..old(self)@ }),
            store_wf(final(self)@),
    {
        self.table = false;
        self.rows = Vec::new();
        proof {
            assert(self@.rows =~= Seq::<RowV>::empty());
        }
    }

    /// Idempotently make the table and its index exist, keeping every row.
    pub fn ensure_schema(&mut self)
        requires
            store_wf(old(self)@),
        ensures
            final(self)@ == ensure_spec(old(self)@),
            store_wf(final(self)@),
    {
        self.create_table();
        self.create_index();
    }

    /// Destructively drop the index, then the table, in that dependency
    /// order.
    pub fn reset_schema(&mut self)
        requires
            store_wf(old(self)@),
        ensures
            final(self)@ == reset_spec(old(self)@),
            store_wf(final(self)@),
    {
        self.drop_index();
        self.drop_table();
    }

    fn find_id(&self, id: &str) -> (b: bool)
        ensures
            b == ids_of(self@.rows).contains(id@),
    {
        let needle = String::from_str(id);
        let mut k: usize = 0;
        while k < self.rows.len()
            invariant
                needle@ == id@,
                k <= self.rows.len(),
                forall|i: int| 0 <= i < k ==> self@.rows[i].id != id@,
            decreases self.rows.len() - k,
        {
            if self.rows[k].id == needle {
                proof {
                    assert(self@.rows[k as int].id == id@);
                }
                return true;
            }
            proof {
                assert(self@.rows[k as int].id == self.rows@[k as int].id@);
            }
            k += 1;
        }
        proof {
            if ids_of(self@.rows).contains(id@) {
                let w = choose|w: int| 0 <= w < self@.rows.len() && self@.rows[w].id == id@;
                assert(false);
            }
        }
        false
    }

    /// Single-row existence probe by identifier.
    pub fn contains_id(&self, id: &str) -> (b: bool)
        requires
            self@.table,
        ensures
            b == ids_of(self@.rows).contains(id@),
    {
        self.find_id(id)
    }

    /// Every persisted identifier, in row order, for the bulk preload.
    pub fn get_all_ids(&self) -> (r: Vec<String>)
        requires
            self@.table,
        ensures
            views_of(r@) == ids_seq(self@.rows),
    {
        let mut r: Vec<String> = Vec::new();
        let mut k: usize = 0;
        proof {
            assert(views_of(r@) =~= ids_seq(self@.rows).take(0));
        }
        while k < self.rows.len()
            invariant
                k <= self.rows.len(),
                views_of(r@) == ids_seq(self@.rows).take(k as int),
            decreases self.rows.len() - k,
        {
            let ghost prev = r@;
            proof {
                assert(views_of(prev).len() == prev.len());
            }
            r.push(self.rows[k].id.clone());
            proof {
                assert(r@ == prev.push(r@[k as int]));
                assert(r@[k as int]@ == self@.rows[k as int].id);
                assert forall|j: int| 0 <= j < k + 1 implies views_of(r@)[j] == ids_seq(
                    self@.rows,
                ).take(k + 1)[j] by {
                    if j < k {
                        assert(r@[j] == prev[j]);
                        assert(views_of(prev)[j] == ids_seq(self@.rows).take(k as int)[j]);
                    }
                }
                assert(views_of(r@) =~= ids_seq(self@.rows).take(k + 1));
            }
            k += 1;
        }
        proof {
            assert(ids_seq(self@.rows).take(self.rows.len() as int) =~= ids_seq(self@.rows));
        }
        r
    }

    /// Add a record to the store: a duplicate identifier is refused with a
    /// structured error and leaves the rows unchanged; otherwise the row is
    /// appended, its subject field extracted, and one affected row is
    /// reported.
    pub fn insert(&mut self, time: &SponsorTime) -> (r: Result<u64, SponsorTimeError>)
        requires
            store_wf(old(self)@),
            old(self)@.table,
        ensures
            final(self)@.table == old(self)@.table,
            final(self)@.index == old(self)@.index,
            store_wf(final(self)@),
            match r {
                Ok(n) => {
                    &&& n == 1
                    &&& !ids_of(old(self)@.rows).contains(time@.id)
                    &&& final(self)@.rows == old(self)@.rows.push(stored_row(time@))
                },
                Err(e) => {
                    &&& ids_of(old(self)@.rows).contains(time@.id)
                    &&& final(self)@.rows == old(self)@.rows
                    &&& e matches SponsorTimeError::DatabaseError(m) && (m matches Some(s) && s@
                        == "duplicate key"@)
                },
            },
    {
        if self.find_id(self.id_str(time)) {
            return Err(SponsorTimeError::DatabaseError(Some(String::from_str("duplicate key"))));
        }
        let ghost prev = self.rows@;
        let row = SponsorTime {
            id: time.id.clone(),
            video_id: time.get_video_id(),
            start_time: time.start_time.clone(),
            end_time: time.end_time.clone(),
        };
        proof {
            assert(row@ == stored_row(time@));
        }
        self.rows.push(row);
        proof {
            assert(self.rows@ == prev.push(self.rows@[prev.len() as int]));
            assert(self@.rows =~= prev.map_values(|r: SponsorTime| r@).push(stored_row(time@)));
            assert forall|i: int, j: int|
                0 <= i < j < self@.rows.len() implies #[trigger] self@.rows[i].id
                != #[trigger] self@.rows[j].id by {
                if j < self@.rows.len() - 1 {
                    assert(self@.rows[i] == prev.map_values(|r: SponsorTime| r@)[i]);
                }
            }
        }
        Ok(1)
    }

    fn id_str<'a>(&self, time: &'a SponsorTime) -> (r: &'a str)
        ensures
            r@ == time@.id,
    {
        time.id.as_str()
    }
}

} // verus!
