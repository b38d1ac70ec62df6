use vstd::prelude::*;
use crate::sponsor_time_error::SyncError;
use crate::strutil::{split_commas, split_line, views_of};

verus! {

/// Column positions of the four required header fields; `usize::MAX` is the
/// sentinel for a field that did not resolve.
pub struct Indexes {
    /// Index of UUID
    pub id: usize,
    /// Index of video ID
    pub video_id: usize,
    /// Index of start time
    pub start_time: usize,
    /// Index of end time
    pub end_time: usize,
}

/// Position of the last occurrence of `name` among `fields`, or the
/// unresolved sentinel where it never occurs.
pub open spec fn scan_pos(fields: Seq<Seq<char>>, name: Seq<char>) -> nat
    decreases fields.len(),
{
    if fields.len() == 0 {
        usize::MAX as nat
    } else if fields.last() == name {
        (fields.len() - 1) as nat
    } else {
        scan_pos(fields.drop_last(), name)
    }
}

/// The views of a sequence of borrowed strings.
pub open spec fn str_views(v: Seq<&str>) -> Seq<Seq<char>> {
    v.map_values(|p: &str| p@)
}

pub open spec fn miss_id(ix: Indexes) -> Seq<Seq<char>> {
    if ix.id == usize::MAX {
        seq!["id"@]
    } else {
        Seq::empty()
    }
}

pub open spec fn miss_video_id(ix: Indexes) -> Seq<Seq<char>> {
    if ix.video_id == usize::MAX {
        seq!["video_id"@]
    } else {
        Seq::empty()
    }
}

pub open spec fn miss_start_time(ix: Indexes) -> Seq<Seq<char>> {
    if ix.start_time == usize::MAX {
        seq!["start_time"@]
    } else {
        Seq::empty()
    }
}

pub open spec fn miss_end_time(ix: Indexes) -> Seq<Seq<char>> {
    if ix.end_time == usize::MAX {
        seq!["end_time"@]
    } else {
        Seq::empty()
    }
}

/// The reporting names of the fields that did not resolve, in their fixed
/// reporting order.
pub open spec fn missing_names(ix: Indexes) -> Seq<Seq<char>> {
    miss_id(ix) + miss_video_id(ix) + miss_start_time(ix) + miss_end_time(ix)
}

/// What resolving a split header line must yield for each required field.
pub open spec fn resolves(ix: Indexes, fields: Seq<Seq<char>>) -> bool {
    &&& ix.id == scan_pos(fields, "UUID"@)
    &&& ix.video_id == scan_pos(fields, "videoID"@)
    &&& ix.start_time == scan_pos(fields, "startTime"@)
    &&& ix.end_time == scan_pos(fields, "endTime"@)
}

/// Scanning one more field keeps the position, except where that field is
/// the name itself: then the position moves to it.
proof fn lemma_scan_pos_step(fields: Seq<Seq<char>>, name: Seq<char>, i: int)
    requires
        0 <= i < fields.len(),
    ensures
        scan_pos(fields.take(i + 1), name) == if fields[i] == name {
            i as nat
        } else {
            scan_pos(fields.take(i), name)
        },
{
    assert(fields.take(i + 1).drop_last() =~= fields.take(i));
    assert(fields.take(i + 1).last() == fields[i]);
}

/// The resolver finds the last occurrence of a name that occurs, and leaves
/// the sentinel for one that does not.
pub proof fn lemma_scan_pos_finds(fields: Seq<Seq<char>>, name: Seq<char>)
    requires
        fields.len() < usize::MAX,
    ensures
        fields.contains(name) ==> {
            &&& scan_pos(fields, name) < fields.len()
            &&& fields[scan_pos(fields, name) as int] == name
            &&& forall|j: int| scan_pos(fields, name) < j < fields.len() ==> fields[j] != name
        },
        !fields.contains(name) ==> scan_pos(fields, name) == usize::MAX as nat,
    decreases fields.len(),
{
    if fields.len() == 0 {
    } else if fields.last() == name {
        assert(fields[fields.len() - 1] == name);
        assert(fields.contains(name));
        assert(scan_pos(fields, name) == (fields.len() - 1) as nat);
        assert(forall|j: int|
            scan_pos(fields, name) < j < fields.len() ==> fields[j] != name);
    } else {
        lemma_scan_pos_finds(fields.drop_last(), name);
        assert(fields.last() == fields[fields.len() - 1]);
        if fields.contains(name) {
            let w = choose|w: int| 0 <= w < fields.len() && fields[w] == name;
            assert(w != fields.len() - 1);
            assert(fields.drop_last()[w] == name);
            assert(fields.drop_last().contains(name));
            let p = scan_pos(fields, name) as int;
            assert(p == scan_pos(fields.drop_last(), name) as int);
            assert(fields[p] == fields.drop_last()[p]);
            assert forall|j: int| p < j < fields.len() implies fields[j] != name by {
                if j < fields.len() - 1 {
                    assert(fields[j] == fields.drop_last()[j]);
                }
            }
        } else {
            if fields.drop_last().contains(name) {
                let w = choose|w: int|
                    0 <= w < fields.drop_last().len() && fields.drop_last()[w] == name;
                assert(fields[w] == name);
                assert(false);
            }
        }
    }
}

/// The resolver's error names exactly the missing fields: a field's
/// reporting name stands among the missing names precisely where its header
/// name occurs nowhere in the header line.
pub proof fn lemma_missing_names_exact(ix: Indexes, fields: Seq<Seq<char>>)
    requires
        resolves(ix, fields),
        fields.len() < usize::MAX,
    ensures
        missing_names(ix).contains("id"@) == !fields.contains("UUID"@),
        missing_names(ix).contains("video_id"@) == !fields.contains("videoID"@),
        missing_names(ix).contains("start_time"@) == !fields.contains("startTime"@),
        missing_names(ix).contains("end_time"@) == !fields.contains("endTime"@),
{
    lemma_scan_pos_finds(fields, "UUID"@);
    lemma_scan_pos_finds(fields, "videoID"@);
    lemma_scan_pos_finds(fields, "startTime"@);
    lemma_scan_pos_finds(fields, "endTime"@);
    reveal_strlit("id");
    reveal_strlit("video_id");
    reveal_strlit("start_time");
    reveal_strlit("end_time");
    assert("id"@.len() == 2 && "video_id"@.len() == 8 && "start_time"@.len() == 10 && "end_time"@.len()
        == 8);
    assert("video_id"@[0] == 'v' && "end_time"@[0] == 'e');
    let names = missing_names(ix);
    assert(forall|k: int| 0 <= k < miss_id(ix).len() ==> #[trigger] miss_id(ix)[k] == "id"@);
    assert(forall|k: int|
        0 <= k < miss_video_id(ix).len() ==> #[trigger] miss_video_id(ix)[k] == "video_id"@);
    assert(forall|k: int|
        0 <= k < miss_start_time(ix).len() ==> #[trigger] miss_start_time(ix)[k] == "start_time"@);
    assert(forall|k: int|
        0 <= k < miss_end_time(ix).len() ==> #[trigger] miss_end_time(ix)[k] == "end_time"@);
    if ix.id == usize::MAX {
        assert(names[0] == "id"@);
        assert(names.contains("id"@));
    }
    if ix.video_id == usize::MAX {
        assert(names[miss_id(ix).len() as int] == "video_id"@);
        assert(names.contains("video_id"@));
    }
    if ix.start_time == usize::MAX {
        assert(names[miss_id(ix).len() + miss_video_id(ix).len() as int] == "start_time"@);
        assert(names.contains("start_time"@));
    }
    if ix.end_time == usize::MAX {
        assert(names[miss_id(ix).len() + miss_video_id(ix).len() + miss_start_time(
            ix,
        ).len() as int] == "end_time"@);
        assert(names.contains("end_time"@));
    }
    assert forall|k: int| 0 <= k < names.len() implies #[trigger] names[k] == "id"@ || names[k]
        == "video_id"@ || names[k] == "start_time"@ || names[k] == "end_time"@ by {
        if k < miss_id(ix).len() {
        } else if k < miss_id(ix).len() + miss_video_id(ix).len() {
        } else if k < miss_id(ix).len() + miss_video_id(ix).len() + miss_start_time(ix).len() {
        } else {
        }
    }
    if ix.id != usize::MAX && names.contains("id"@) {
        let k = choose|k: int| 0 <= k < names.len() && #[trigger] names[k] == "id"@;
        assert(false);
    }
    if ix.video_id != usize::MAX && names.contains("video_id"@) {
        let k = choose|k: int| 0 <= k < names.len() && #[trigger] names[k] == "video_id"@;
        assert(false);
    }
    if ix.start_time != usize::MAX && names.contains("start_time"@) {
        let k = choose|k: int| 0 <= k < names.len() && #[trigger] names[k] == "start_time"@;
        assert(false);
    }
    if ix.end_time != usize::MAX && names.contains("end_time"@) {
        let k = choose|k: int| 0 <= k < names.len() && #[trigger] names[k] == "end_time"@;
        assert(false);
    }
}

impl Indexes {
    /// All four positions unresolved.
    pub fn empty() -> (r: Self)
        ensures
            r.id == usize::MAX,
            r.video_id == usize::MAX,
            r.start_time == usize::MAX,
            r.end_time == usize::MAX,
    {
        Self { id: usize::MAX, video_id: usize::MAX, start_time: usize::MAX, end_time: usize::MAX }
    }

    /// Resolve the four required column positions from the raw header line,
    /// or fail naming every field that is absent.
    pub fn new(line: &str) -> (r: Result<Self, SyncError>)
        ensures
            match r {
                Ok(ix) => resolves(ix, split_commas(line@)) && missing_names(ix).len() == 0,
                Err(e) => e matches SyncError::SchemaMismatch(names) && (exists|ix: Indexes|
                    resolves(ix, split_commas(line@)) && missing_names(ix).len() > 0
                        && views_of(names@) == missing_names(ix)),
            },
    {
        let mut indexes = Self::empty();
        let parts = split_line(line);
        let name_uuid = String::from_str("UUID");
        let name_video_id = String::from_str("videoID");
        let name_start_time = String::from_str("startTime");
        let name_end_time = String::from_str("endTime");

        let ghost fields = views_of(parts@);
        proof {
            assert(fields.take(0) =~= Seq::<Seq<char>>::empty());
            reveal_strlit("UUID");
            reveal_strlit("videoID");
            reveal_strlit("startTime");
            reveal_strlit("endTime");
            assert("UUID"@.len() == 4 && "videoID"@.len() == 7 && "startTime"@.len() == 9
                && "endTime"@.len() == 7);
            assert("videoID"@[0] == 'v' && "endTime"@[0] == 'e');
        }
        let mut i: usize = 0;
        while i < parts.len()
            invariant
                i <= parts.len(),
                fields == views_of(parts@),
                fields == split_commas(line@),
                name_uuid@ == "UUID"@,
                name_video_id@ == "videoID"@,
                name_start_time@ == "startTime"@,
                name_end_time@ == "endTime"@,
                indexes.id == scan_pos(fields.take(i as int), "UUID"@),
                indexes.video_id == scan_pos(fields.take(i as int), "videoID"@),
                indexes.start_time == scan_pos(fields.take(i as int), "startTime"@),
                indexes.end_time == scan_pos(fields.take(i as int), "endTime"@),
            decreases parts.len() - i,
        {
            proof {
                reveal_strlit("UUID");
                reveal_strlit("videoID");
                reveal_strlit("startTime");
                reveal_strlit("endTime");
                assert("UUID"@.len() == 4 && "videoID"@.len() == 7 && "startTime"@.len() == 9
                    && "endTime"@.len() == 7);
                assert("videoID"@[0] == 'v' && "endTime"@[0] == 'e');
                assert(fields[i as int] == parts@[i as int]@);
                lemma_scan_pos_step(fields, "UUID"@, i as int);
                lemma_scan_pos_step(fields, "videoID"@, i as int);
                lemma_scan_pos_step(fields, "startTime"@, i as int);
                lemma_scan_pos_step(fields, "endTime"@, i as int);
            }
            if parts[i] == name_video_id {
                indexes.video_id = i;
            } else if parts[i] == name_start_time {
                indexes.start_time = i;
            } else if parts[i] == name_end_time {
                indexes.end_time = i;
            } else if parts[i] == name_uuid {
                indexes.id = i;
            }
            i += 1;
        }
        proof {
            assert(fields.take(parts.len() as int) =~= fields);
        }

        match indexes.get_all_invalid() {
            Some(invalid) => {
                let mut names: Vec<String> = Vec::new();
                let mut k: usize = 0;
                proof {
                    assert(views_of(names@) =~= str_views(invalid@).take(0));
                }
                while k < invalid.len()
                    invariant
                        k <= invalid.len(),
                        views_of(names@) == str_views(invalid@).take(k as int),
                    decreases invalid.len() - k,
                {
                    let ghost prev = names@;
                    proof {
                        assert(views_of(prev).len() == prev.len());
                        assert(prev.len() == k);
                    }
                    names.push(String::from_str(invalid[k]));
                    proof {
                        assert(names@ == prev.push(names@[k as int]));
                        assert(names@[k as int]@ == invalid@[k as int]@);
                        assert forall|j: int| 0 <= j < k + 1 implies views_of(names@)[j]
                            == str_views(invalid@).take(k + 1)[j] by {
                            if j < k {
                                assert(names@[j] == prev[j]);
                                assert(views_of(prev)[j] == str_views(invalid@).take(k as int)[j]);
                            }
                        }
                        assert(views_of(names@) =~= str_views(invalid@).take(k + 1));
                    }
                    k += 1;
                }
                proof {
                    assert(str_views(invalid@).take(invalid.len() as int) =~= str_views(invalid@));
                }
                Err(SyncError::SchemaMismatch(names))
            },
            None => Ok(indexes),
        }
    }

    /// The reporting names of every unresolved position, in reporting order,
    /// or nothing where all four resolved.
    pub fn get_all_invalid(&self) -> (r: Option<Vec<&str>>)
        ensures
            match r {
                Some(v) => str_views(v@) == missing_names(*self) && missing_names(*self).len() > 0,
                None => missing_names(*self).len() == 0,
            },
    {
        let empty = Self::empty();
        let mut invalid: Vec<&str> = Vec::new();

        if self.id == empty.id {
            invalid.push("id");
        }
        proof {
            assert(str_views(invalid@) =~= miss_id(*self));
        }

        if self.video_id == empty.video_id {
            invalid.push("video_id");
        }
        proof {
            assert(str_views(invalid@) =~= miss_id(*self) + miss_video_id(*self));
        }

        if self.start_time == empty.start_time {
            invalid.push("start_time");
        }
        proof {
            assert(str_views(invalid@) =~= miss_id(*self) + miss_video_id(*self)
                + miss_start_time(*self));
        }

        if self.end_time == empty.end_time {
            invalid.push("end_time");
        }
        proof {
            assert(str_views(invalid@) =~= missing_names(*self));
        }

        if invalid.len() == 0 {
            None
        } else {
            Some(invalid)
        }
    }

    /// The highest of the four resolved column positions.
    pub open spec fn spec_max_index(&self) -> int {
        let a = if self.id >= self.video_id {
            self.id as int
        } else {
            self.video_id as int
        };
        let b = if self.start_time >= self.end_time {
            self.start_time as int
        } else {
            self.end_time as int
        };
        if a >= b {
            a
        } else {
            b
        }
    }

    pub fn max_index(&self) -> (r: usize)
        ensures
            r == self.spec_max_index(),
    {
        let a = if self.id >= self.video_id {
            self.id
        } else {
            self.video_id
        };
        let b = if self.start_time >= self.end_time {
            self.start_time
        } else {
            self.end_time
        };
        if a >= b {
            a
        } else {
            b
        }
    }
}

} // verus!
