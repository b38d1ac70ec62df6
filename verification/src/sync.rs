use vstd::prelude::*;
use crate::indexes::Indexes;
use crate::oracle::IdSet;
use crate::sponsor_time::{sentinel_spec, RowV, SponsorTime};
use crate::sponsor_time_error::{ReasonV, SponsorTimeError, SyncError};
use crate::sponsor_times::{header_of, records_from, records_of, SponsorTimes};
use crate::store::{ensure_spec, ids_of, reset_spec, store_wf, stored_row, StoreModel};
use crate::strutil::{split_commas, views_of};

verus! {

/// What the per-record decision is: set the record aside, count it as
/// already synced, or attempt the insert.
pub enum Decision {
    InvalidInterval,
    AlreadyPresent,
    Insert,
}

/// The decision for one record, given whether the existence oracle reports
/// its identifier as already persisted.
pub open spec fn classify_spec(r: RowV, already_present: bool) -> Decision {
    if sentinel_spec(r) {
        Decision::InvalidInterval
    } else if already_present {
        Decision::AlreadyPresent
    } else {
        Decision::Insert
    }
}

/// Decide what to do with one record: the no-interval sentinel is set
/// aside, a record the oracle knows is counted as already synced, and every
/// other record is inserted.
pub fn classify(t: &SponsorTime, already_present: bool) -> (d: Decision)
    ensures
        d == classify_spec(t@, already_present),
{
    if t.is_sentinel() {
        Decision::InvalidInterval
    } else if already_present {
        Decision::AlreadyPresent
    } else {
        Decision::Insert
    }
}

/// One run's ingest state, seen from specifications: the persisted rows,
/// the preloaded identifier snapshot where the bulk strategy is on, the
/// ignored-record ledger, and the progress count.
pub ghost struct IngestV {
    pub rows: Seq<RowV>,
    pub preloaded: Option<Set<Seq<char>>>,
    pub ignored: Seq<(RowV, ReasonV)>,
    pub processed: int,
}

/// What the existence oracle answers in a state: the preloaded snapshot
/// where one was taken, the live rows otherwise.
pub open spec fn oracle_answer(st: IngestV, id: Seq<char>) -> bool {
    match st.preloaded {
        Some(s) => s.contains(id),
        None => ids_of(st.rows).contains(id),
    }
}

/// The reason the store reports for a refused duplicate.
pub open spec fn dup_reason() -> ReasonV {
    ReasonV::DatabaseError(Some("duplicate key"@))
}

/// How one record changes the ingest state: the sentinel is set aside; a
/// record the oracle knows is only counted; otherwise the insert is
/// attempted, and a duplicate that a stale snapshot let through is set
/// aside with the store's error.
pub open spec fn ingest_step(st: IngestV, r: RowV) -> IngestV {
    match classify_spec(r, oracle_answer(st, r.id)) {
        Decision::InvalidInterval => IngestV {
            ignored: st.ignored.push((r, ReasonV::InvalidInterval)),
            ..st
        },
        Decision::AlreadyPresent => IngestV { processed: st.processed + 1, ..st },
        Decision::Insert => if ids_of(st.rows).contains(r.id) {
            IngestV {
                ignored: st.ignored.push((r, dup_reason())),
                processed: st.processed + 1,
                ..st
            }
        } else {
            IngestV { rows: st.rows.push(stored_row(r)), processed: st.processed + 1, ..st }
        },
    }
}

/// The ingest state after a whole record sequence, in arrival order.
pub open spec fn ingest_fold(st: IngestV, rs: Seq<RowV>) -> IngestV
    decreases rs.len(),
{
    if rs.len() == 0 {
        st
    } else {
        ingest_fold(ingest_step(st, rs.first()), rs.drop_first())
    }
}

/// The state a run starts from: the rows already persisted, and the
/// identifier snapshot of exactly those rows where the bulk strategy is
/// chosen.
pub open spec fn init_ingest(rows: Seq<RowV>, low_memory: bool) -> IngestV {
    IngestV {
        rows,
        preloaded: if low_memory {
            Some(ids_of(rows))
        } else {
            None
        },
        ignored: Seq::empty(),
        processed: 0,
    }
}

/// The views of an ignored-record ledger.
pub open spec fn ledger_views(l: Seq<(SponsorTime, SponsorTimeError)>) -> Seq<(RowV, ReasonV)> {
    l.map_values(|p: (SponsorTime, SponsorTimeError)| (p.0@, p.1@))
}

pub proof fn lemma_fold_cons(st: IngestV, r: RowV, rs: Seq<RowV>)
    ensures
        ingest_fold(st, seq![r] + rs) == ingest_fold(ingest_step(st, r), rs),
{
    assert((seq![r] + rs).first() == r);
    assert((seq![r] + rs).drop_first() =~= rs);
}

/// A record whose interval is the zero sentinel is never inserted: it
/// leaves the rows untouched and lands in the ledger as an invalid
/// interval, whatever the rest of the state is.
pub proof fn lemma_sentinel_never_inserted(st: IngestV, r: RowV)
    requires
        sentinel_spec(r),
    ensures
        ingest_step(st, r).rows == st.rows,
        ingest_step(st, r).ignored == st.ignored.push((r, ReasonV::InvalidInterval)),
{
}

/// Rows only grow, the snapshot never changes, and after the fold every
/// non-sentinel record's identifier is persisted.
pub proof fn lemma_ingest_covers(st: IngestV, rs: Seq<RowV>)
    requires
        match st.preloaded {
            Some(s) => s.subset_of(ids_of(st.rows)),
            None => true,
        },
    ensures
        ingest_fold(st, rs).preloaded == st.preloaded,
        ids_of(st.rows).subset_of(ids_of(ingest_fold(st, rs).rows)),
        forall|j: int|
            0 <= j < rs.len() && !sentinel_spec(#[trigger] rs[j]) ==> ids_of(
                ingest_fold(st, rs).rows,
            ).contains(rs[j].id),
    decreases rs.len(),
{
    if rs.len() == 0 {
    } else {
        let r = rs.first();
        let st1 = ingest_step(st, r);
        assert(ids_of(st.rows).subset_of(ids_of(st1.rows))) by {
            if !sentinel_spec(r) && !oracle_answer(st, r.id) && !ids_of(st.rows).contains(r.id) {
                assert forall|x: Seq<char>| ids_of(st.rows).contains(x) implies ids_of(
                    st1.rows,
                ).contains(x) by {
                    let k = choose|k: int|
                        0 <= k < st.rows.len() && #[trigger] st.rows[k].id == x;
                    assert(st1.rows[k].id == x);
                }
            }
        }
        assert(match st1.preloaded {
            Some(s) => s.subset_of(ids_of(st1.rows)),
            None => true,
        });
        lemma_ingest_covers(st1, rs.drop_first());
        let end = ingest_fold(st, rs);
        assert(end == ingest_fold(st1, rs.drop_first()));
        assert forall|j: int|
            0 <= j < rs.len() && !sentinel_spec(#[trigger] rs[j]) implies ids_of(
            end.rows,
        ).contains(rs[j].id) by {
            if j == 0 {
                if oracle_answer(st, r.id) {
                    match st.preloaded {
                        Some(s) => {
                            assert(ids_of(st.rows).contains(r.id));
                        },
                        None => {
                            assert(ids_of(st.rows).contains(r.id));
                        },
                    }
                    assert(ids_of(st1.rows).contains(r.id));
                } else if ids_of(st.rows).contains(r.id) {
                    assert(ids_of(st1.rows).contains(r.id));
                } else {
                    assert(st1.rows[st.rows.len() as int].id == r.id);
                    assert(ids_of(st1.rows).contains(r.id));
                }
            } else {
                assert(rs.drop_first()[j - 1] == rs[j]);
            }
        }
    }
}

/// Where the oracle already answers yes for every non-sentinel record, the
/// fold inserts nothing.
pub proof fn lemma_ingest_no_new(st: IngestV, rs: Seq<RowV>)
    requires
        forall|j: int|
            0 <= j < rs.len() && !sentinel_spec(#[trigger] rs[j]) ==> oracle_answer(st, rs[j].id),
    ensures
        ingest_fold(st, rs).rows == st.rows,
    decreases rs.len(),
{
    if rs.len() == 0 {
    } else {
        let r = rs.first();
        let st1 = ingest_step(st, r);
        assert(st1.rows == st.rows && st1.preloaded == st.preloaded);
        assert forall|j: int|
            0 <= j < rs.drop_first().len() && !sentinel_spec(#[trigger] rs.drop_first()[j])
                implies oracle_answer(st1, rs.drop_first()[j].id) by {
            assert(rs.drop_first()[j] == rs[j + 1]);
        }
        lemma_ingest_no_new(st1, rs.drop_first());
    }
}

/// Idempotence: ingesting the same records a second time, from the rows the
/// first run left in an initially empty store, changes nothing — the second
/// run's rows are exactly the first run's rows, under either existence
/// strategy for either run.
pub proof fn lemma_ingest_idempotent(rs: Seq<RowV>, first_low: bool, second_low: bool)
    ensures
        ({
            let once = ingest_fold(init_ingest(Seq::empty(), first_low), rs).rows;
            let twice = ingest_fold(init_ingest(once, second_low), rs).rows;
            twice == once
        }),
{
    let st1 = init_ingest(Seq::empty(), first_low);
    lemma_ingest_covers(st1, rs);
    let once = ingest_fold(st1, rs).rows;
    let st2 = init_ingest(once, second_low);
    assert forall|j: int|
        0 <= j < rs.len() && !sentinel_spec(#[trigger] rs[j]) implies oracle_answer(
        st2,
        rs[j].id,
    ) by {
        assert(ids_of(once).contains(rs[j].id));
    }
    lemma_ingest_no_new(st2, rs);
}

/// Strategy equivalence for outcomes: from the same starting rows and the
/// same records, the bulk-preload strategy and the per-record strategy
/// leave exactly the same rows.
pub proof fn lemma_strategy_rows_equal(rows0: Seq<RowV>, rs: Seq<RowV>)
    ensures
        ingest_fold(init_ingest(rows0, true), rs).rows == ingest_fold(
            init_ingest(rows0, false),
            rs,
        ).rows,
{
    lemma_strategy_rows_equal_gen(init_ingest(rows0, true), init_ingest(rows0, false), rs);
}

/// What one run reports: the ignored-record ledger, how many records were
/// tallied, and the snapshot's line count.
pub struct SyncReport {
    pub ignored: Vec<(SponsorTime, SponsorTimeError)>,
    pub processed: usize,
    pub total: usize,
}

/// Resolve the database connection string: the explicit value wins over the
/// environment's, and with neither the run fails before any connection
/// attempt.
pub fn resolve_database_url(explicit: Option<String>, environment: Option<String>) -> (r: Result<
    String,
    SyncError,
>)
    ensures
        match r {
            Ok(u) => (explicit matches Some(e) && u == e) || (explicit is None
                && (environment matches Some(v) && u == v)),
            Err(e) => explicit is None && environment is None && (e matches
                SyncError::MissingDatabaseUrl),
        },
{
    match explicit {
        Some(e) => Ok(e),
        None => match environment {
            Some(v) => Ok(v),
            None => Err(SyncError::MissingDatabaseUrl),
        },
    }
}

/// The noun of the end-of-run summary: singular for exactly one ignored
/// record.
pub fn ignored_noun(len: usize) -> (r: &'static str)
    ensures
        len == 1 ==> r@ == "item"@,
        len != 1 ==> r@ == "items"@,
{
    if len == 1 {
        "item"
    } else {
        "items"
    }
}

/// Drive one whole ingest over a snapshot's lines: prepare the schema
/// (optionally resetting it first), resolve the header, take the identifier
/// snapshot where the bulk strategy is chosen, then stream every data line
/// through the filter-dedupe-insert step, never stopping on a single
/// record's failure.
pub fn run(lines: Vec<String>, store: &mut StoreModel, reset: bool, low_memory: bool) -> (r:
    Result<SyncReport, SyncError>)
    requires
        store_wf(old(store)@),
    ensures
        store_wf(final(store)@),
        final(store)@.table && final(store)@.index,
        ({
            let ready = ensure_spec(
                if reset {
                    reset_spec(old(store)@)
                } else {
                    old(store)@
                },
            );
            let lv = views_of(lines@);
            match r {
                Ok(rep) => exists|ix: Indexes|
                    {
                        &&& #[trigger] crate::indexes::resolves(ix, split_commas(header_of(lv)))
                        &&& crate::indexes::missing_names(ix).len() == 0
                        &&& ({
                            let end = ingest_fold(
                                init_ingest(ready.rows, low_memory),
                                records_of(lv, ix),
                            );
                            &&& final(store)@.rows == end.rows
                            &&& ledger_views(rep.ignored@) == end.ignored
                            &&& rep.processed == end.processed
                            &&& rep.total == lv.len()
                        })
                    },
                Err(e) => {
                    &&& final(store)@.rows == ready.rows
                    &&& e matches SyncError::SchemaMismatch(names) && (exists|ix: Indexes|
                        #[trigger] crate::indexes::resolves(ix, split_commas(header_of(lv)))
                            && crate::indexes::missing_names(ix).len() > 0 && views_of(names@)
                            == crate::indexes::missing_names(ix))
                },
            }
        }),
{
    let ghost lv0 = views_of(lines@);
    if reset {
        store.reset_schema();
    }
    store.ensure_schema();
    let ghost ready = store@;
    let mut times = match SponsorTimes::new(lines) {
        Ok(t) => t,
        Err(e) => {
            return Err(e);
        },
    };
    let ghost lv = views_of(times.lines@);
    let ghost ix = times.indexes;
    let ghost all = records_of(lv, ix);
    let ghost init_st = init_ingest(ready.rows, low_memory);
    let ghost end_st = ingest_fold(init_st, all);
    let oracle: Option<IdSet> = if low_memory {
        let o = IdSet::from_ids(store.get_all_ids());
        proof {
            assert forall|x: Seq<char>| o.id_set().contains(x) == ids_of(
                ready.rows,
            ).contains(x) by {
                crate::oracle::lemma_oracle_equivalence(ready, o, x);
            }
            assert(o.id_set() =~= ids_of(ready.rows));
        }
        Some(o)
    } else {
        None
    };
    let mut ignored: Vec<(SponsorTime, SponsorTimeError)> = Vec::new();
    let mut current: usize = 0;
    let total = times.total_entries();
    proof {
        assert(ledger_views(ignored@) =~= Seq::<(RowV, ReasonV)>::empty());
        if lv.len() >= 1 {
            crate::sponsor_times::lemma_records_len(lv, ix, 1);
        } else {
            assert(records_from(lv, ix, 1) =~= Seq::<RowV>::empty());
        }
    }
    loop
        invariant_except_break
            store_wf(store@),
            store@.table,
            store@.index,
            times.indexes == ix,
            views_of(times.lines@) == lv,
            times.total == total,
            total == lv.len(),
            1 <= times.pos,
            times.pos as int <= lv.len() + 1,
            current as int + records_from(lv, ix, times.pos as int).len() <= lv.len(),
            match oracle {
                Some(o) => low_memory && o.id_set() == ids_of(ready.rows),
                None => !low_memory,
            },
            ingest_fold(
                IngestV {
                    rows: store@.rows,
                    preloaded: if low_memory {
                        Some(ids_of(ready.rows))
                    } else {
                        None
                    },
                    ignored: ledger_views(ignored@),
                    processed: current as int,
                },
                records_from(lv, ix, times.pos as int),
            ) == end_st,
        ensures
            store_wf(store@),
            store@.table,
            store@.index,
            (IngestV {
                rows: store@.rows,
                preloaded: if low_memory {
                    Some(ids_of(ready.rows))
                } else {
                    None
                },
                ignored: ledger_views(ignored@),
                processed: current as int,
            }) == end_st,
            total == lv.len(),
        decreases lv.len() + 1 - times.pos,
    {
        let ghost pos0 = times.pos;
        let ghost cur_st = IngestV {
            rows: store@.rows,
            preloaded: if low_memory {
                Some(ids_of(ready.rows))
            } else {
                None
            },
            ignored: ledger_views(ignored@),
            processed: current as int,
        };
        let next_rec = times.next();
        match next_rec {
            None => {
                proof {
                    assert(records_from(lv, ix, pos0 as int) =~= Seq::<RowV>::empty());
                }
                break ;
            },
            Some(t) => {
                proof {
                    lemma_fold_cons(cur_st, t@, records_from(lv, ix, times.pos as int));
                    assert(ingest_fold(
                        ingest_step(cur_st, t@),
                        records_from(lv, ix, times.pos as int),
                    ) == end_st);
                }
                let ghost step_st = ingest_step(cur_st, t@);
                if t.is_sentinel() {
                    let ghost prevl = ignored@;
                    proof {
                        assert(ledger_views(prevl).len() == prevl.len());
                    }
                    ignored.push((t, SponsorTimeError::InvalidInterval));
                    proof {
                        assert(ignored@ == prevl.push(ignored@[prevl.len() as int]));
                        assert(ignored@[prevl.len() as int].1@ == ReasonV::InvalidInterval);
                        assert(ledger_views(ignored@) =~= ledger_views(prevl).push(
                            (ignored@[prevl.len() as int].0@, ReasonV::InvalidInterval),
                        ));
                    }
                } else {
                    let present = match &oracle {
                        Some(o) => o.contains(t.id.as_str()),
                        None => store.contains_id(t.id.as_str()),
                    };
                    proof {
                        assert(present == oracle_answer(cur_st, t@.id));
                    }
                    if present {
                        crate::add_current(&mut current, total);
                    } else {
                        match store.insert(&t) {
                            Ok(_) => {},
                            Err(e) => {
                                let ghost prevl = ignored@;
                                proof {
                                    assert(ledger_views(prevl).len() == prevl.len());
                                    assert(e@ == dup_reason());
                                }
                                ignored.push((t, e));
                                proof {
                                    assert(ignored@ == prevl.push(
                                        ignored@[prevl.len() as int],
                                    ));
                                    assert(ledger_views(ignored@) =~= ledger_views(prevl).push(
                                        (ignored@[prevl.len() as int].0@, dup_reason()),
                                    ));
                                }
                            },
                        }
                        crate::add_current(&mut current, total);
                    }
                }
                proof {
                    let now_st = IngestV {
                        rows: store@.rows,
                        preloaded: if low_memory {
                            Some(ids_of(ready.rows))
                        } else {
                            None
                        },
                        ignored: ledger_views(ignored@),
                        processed: current as int,
                    };
                    assert(now_st == step_st);
                }
            },
        }
    }
    let report = SyncReport { ignored, processed: current, total };
    proof {
        assert(crate::indexes::resolves(ix, split_commas(header_of(lv0))));
    }
    Ok(report)
}

proof fn lemma_strategy_rows_equal_gen(sa: IngestV, sb: IngestV, rs: Seq<RowV>)
    requires
        sa.rows == sb.rows,
        sa.preloaded matches Some(s) && s.subset_of(ids_of(sa.rows)),
        sb.preloaded is None,
    ensures
        ingest_fold(sa, rs).rows == ingest_fold(sb, rs).rows,
    decreases rs.len(),
{
    if rs.len() == 0 {
    } else {
        let r = rs.first();
        let sa1 = ingest_step(sa, r);
        let sb1 = ingest_step(sb, r);
        assert(sa1.rows == sb1.rows && sa1.preloaded == sa.preloaded);
        assert forall|x: Seq<char>| ids_of(sa.rows).contains(x) implies ids_of(
            sa1.rows,
        ).contains(x) by {
            let k = choose|k: int| 0 <= k < sa.rows.len() && #[trigger] sa.rows[k].id == x;
            if sa1.rows != sa.rows {
                assert(sa1.rows[k].id == x);
            }
        }
        lemma_strategy_rows_equal_gen(sa1, sb1, rs.drop_first());
    }
}

} // verus!
