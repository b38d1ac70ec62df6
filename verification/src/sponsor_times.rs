use vstd::prelude::*;
use crate::indexes::Indexes;
use crate::sponsor_time::{parse_spec, RowV, SponsorTime};
use crate::sponsor_time_error::SyncError;
use crate::strutil::{split_commas, split_line, views_of};

verus! {

/// Whether a data line has enough fields to cover every required column.
pub open spec fn sufficient(l: Seq<char>, ix: Indexes) -> bool {
    split_commas(l).len() > ix.spec_max_index()
}

/// The record one data line yields: none where the line has too few fields
/// or a timestamp field is no numeric literal.
pub open spec fn line_record(l: Seq<char>, ix: Indexes) -> Option<RowV> {
    if !sufficient(l, ix) {
        None
    } else {
        parse_spec(split_commas(l), ix)
    }
}

/// The records yielded by the lines from position `k` on, in order.
pub open spec fn records_from(lines: Seq<Seq<char>>, ix: Indexes, k: int) -> Seq<RowV>
    decreases lines.len() - k,
{
    if k < 0 || k >= lines.len() {
        Seq::empty()
    } else {
        match line_record(lines[k], ix) {
            Some(r) => seq![r] + records_from(lines, ix, k + 1),
            None => records_from(lines, ix, k + 1),
        }
    }
}

/// The records of a whole snapshot: all data lines after the header line.
pub open spec fn records_of(lines: Seq<Seq<char>>, ix: Indexes) -> Seq<RowV> {
    records_from(lines, ix, 1)
}

/// The header line of a snapshot: its first line, or an empty line where
/// the snapshot holds nothing.
pub open spec fn header_of(lines: Seq<Seq<char>>) -> Seq<char> {
    if lines.len() > 0 {
        lines[0]
    } else {
        Seq::empty()
    }
}

/// The lines from position `k` on that have enough fields.
pub open spec fn count_sufficient(lines: Seq<Seq<char>>, ix: Indexes, k: int) -> int
    decreases lines.len() - k,
{
    if k < 0 || k >= lines.len() {
        0
    } else {
        (if sufficient(lines[k], ix) {
            1int
        } else {
            0int
        }) + count_sufficient(lines, ix, k + 1)
    }
}

/// A line can yield at most one record.
pub proof fn lemma_records_len(lines: Seq<Seq<char>>, ix: Indexes, k: int)
    requires
        0 <= k <= lines.len(),
    ensures
        records_from(lines, ix, k).len() <= lines.len() - k,
    decreases lines.len() - k,
{
    if k < lines.len() {
        lemma_records_len(lines, ix, k + 1);
    }
}

/// Every line with too few fields is skipped; where every line with enough
/// fields also has numeric timestamp fields, the records are exactly the
/// lines with enough fields, counted from position `k`.
pub proof fn lemma_record_count(lines: Seq<Seq<char>>, ix: Indexes, k: int)
    requires
        0 <= k <= lines.len(),
        forall|j: int|
            k <= j < lines.len() && sufficient(#[trigger] lines[j], ix) ==> parse_spec(
                split_commas(lines[j]),
                ix,
            ) is Some,
    ensures
        records_from(lines, ix, k).len() == count_sufficient(lines, ix, k),
    decreases lines.len() - k,
{
    if k < lines.len() {
        lemma_record_count(lines, ix, k + 1);
    }
}

/// Parse one data line against resolved column positions.
pub fn parse_data_line(line: &str, i: &Indexes) -> (r: Option<SponsorTime>)
    ensures
        match r {
            Some(t) => line_record(line@, *i) == Some(t@),
            None => line_record(line@, *i) is None,
        },
{
    let parts = split_line(line);
    let max = i.max_index();
    if max >= usize::MAX || parts.len() <= max {
        return None;
    }
    SponsorTime::parse(&parts, i)
}

/// The lazy record sequence over one downloaded snapshot: the header is
/// resolved at construction, and each pull parses the next data line,
/// skipping the lines that yield no record.
pub struct SponsorTimes {
    pub lines: Vec<String>,
    pub pos: usize,
    pub total: usize,
    pub indexes: Indexes,
}

impl SponsorTimes {
    /// Build the sequence over a snapshot's lines, resolving the required
    /// column positions from the first line; fail as the resolver fails.
    pub fn new(lines: Vec<String>) -> (r: Result<Self, SyncError>)
        ensures
            match r {
                Ok(t) => {
                    &&& crate::indexes::resolves(t.indexes, split_commas(header_of(views_of(lines@))))
                    &&& crate::indexes::missing_names(t.indexes).len() == 0
                    &&& t.lines@ == lines@
                    &&& t.pos == 1
                    &&& t.total == lines@.len()
                },
                Err(e) => e matches SyncError::SchemaMismatch(names) && (exists|ix: Indexes|
                    crate::indexes::resolves(ix, split_commas(header_of(views_of(lines@))))
                        && crate::indexes::missing_names(ix).len() > 0 && views_of(names@)
                        == crate::indexes::missing_names(ix)),
            },
    {
        let total = lines.len();
        let indexes = if total > 0 {
            Indexes::new(lines[0].as_str())
        } else {
            proof {
                reveal_strlit("");
                assert(header_of(views_of(lines@)) =~= ""@);
            }
            Indexes::new("")
        };
        match indexes {
            Ok(ix) => Ok(Self { lines, pos: 1, total, indexes: ix }),
            Err(e) => Err(e),
        }
    }

    /// An upper bound on the useful records: the line count of the file,
    /// header and skipped lines included.
    pub fn total_entries(&self) -> (r: usize)
        ensures
            r == self.total,
    {
        self.total
    }

    /// The next record, skipping every line that yields none; the sequence
    /// ends when the lines are exhausted.
    pub fn next(&mut self) -> (r: Option<SponsorTime>)
        ensures
            final(self).lines == old(self).lines,
            final(self).indexes == old(self).indexes,
            final(self).total == old(self).total,
            final(self).pos >= old(self).pos,
            match r {
                Some(t) => {
                    &&& old(self).pos < final(self).pos <= old(self).lines@.len()
                    &&& records_from(views_of(old(self).lines@), old(self).indexes, old(self).pos as int)
                        == seq![t@] + records_from(
                        views_of(old(self).lines@),
                        old(self).indexes,
                        final(self).pos as int,
                    )
                },
                None => records_from(views_of(old(self).lines@), old(self).indexes, old(self).pos as int)
                    == Seq::<RowV>::empty(),
            },
    {
        let ghost lv = views_of(self.lines@);
        let ghost pos0 = self.pos;
        let n = self.lines.len();
        while self.pos < n
            invariant
                pos0 <= self.pos,
                n == self.lines@.len(),
                lv == views_of(self.lines@),
                self.lines == old(self).lines,
                self.indexes == old(self).indexes,
                self.total == old(self).total,
                pos0 == old(self).pos,
                records_from(lv, self.indexes, pos0 as int) == records_from(
                    lv,
                    self.indexes,
                    self.pos as int,
                ),
            decreases n - self.pos,
        {
            let r = parse_data_line(self.lines[self.pos].as_str(), &self.indexes);
            proof {
                assert(lv[self.pos as int] == self.lines@[self.pos as int]@);
            }
            self.pos = self.pos + 1;
            if let Some(t) = r {
                proof {
                    assert(records_from(lv, self.indexes, self.pos - 1) == seq![t@]
                        + records_from(lv, self.indexes, self.pos as int));
                }
                return Some(t);
            }
        }
        None
    }
}

} // verus!
