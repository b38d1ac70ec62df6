use vstd::prelude::*;
use crate::indexes::Indexes;
use crate::numeric::{denotes_zero, is_float_literal, is_numeric_field, is_zero_field};
use crate::strutil::views_of;

verus! {

/// What one ingest record holds, seen from specifications: the identifier,
/// the raw subject field, and the two timestamp fields as written in the
/// source line.
pub ghost struct RowV {
    pub id: Seq<char>,
    pub video_id: Seq<char>,
    pub start_time: Seq<char>,
    pub end_time: Seq<char>,
}

/// One submitted interval on a subject's timeline. The two timestamps are
/// kept as the numeric text of the source field, validated against the
/// floating-point literal grammar when the record is built.
pub struct SponsorTime {
    pub id: String,
    pub video_id: String,
    pub start_time: String,
    pub end_time: String,
}

impl View for SponsorTime {
    type V = RowV;

    open spec fn view(&self) -> RowV {
        RowV {
            id: self.id@,
            video_id: self.video_id@,
            start_time: self.start_time@,
            end_time: self.end_time@,
        }
    }
}

/// The decoded value of the first query parameter named `v` in a URL, or
/// `None` where the string is no absolute URL or has no such parameter; a
/// function of the string alone.
pub uninterp spec fn v_param_of(s: Seq<char>) -> Option<Seq<char>>;

/// Relies on `url::Url::parse` and `url::Url::query_pairs`: parsing and
/// percent-decoding depend on the URL string alone.
#[verifier::external_body]
fn v_query_param(s: &str) -> (r: Option<String>)
    ensures
        (r is Some) == (v_param_of(s@) is Some),
        r matches Some(x) ==> v_param_of(s@) == Some(x@),
{
    match url::Url::parse(s) {
        Ok(u) => u.query_pairs().find(|p| is_v_key(p.0.as_ref())).map(|p| p.1.into_owned()),
        Err(_) => None,
    }
}

/// Whether a query key is the single letter `v`.
pub fn is_v_key(k: &str) -> (b: bool)
    ensures
        b == (k@ == "v"@),
{
    proof {
        reveal_strlit("v");
    }
    let n = k.unicode_len();
    if n != 1 {
        return false;
    }
    let c = k.get_char(0);
    if c == 'v' {
        proof {
            assert(k@ =~= "v"@);
        }
        true
    } else {
        false
    }
}

/// Whether a subject field is written as an absolute `https` URL.
pub open spec fn starts_https(v: Seq<char>) -> bool {
    v.len() >= 8 && v.subrange(0, 8) == "https://"@
}

fn starts_with_https(s: &str) -> (b: bool)
    ensures
        b == starts_https(s@),
{
    let n = s.unicode_len();
    if n < 8 {
        return false;
    }
    let p = s.substring_char(0, 8);
    String::from_str(p) == String::from_str("https://")
}

/// The subject identifier a record stands for: the `v` query parameter of a
/// URL-shaped subject field, the field itself otherwise.
pub open spec fn video_id_of(v: Seq<char>) -> Seq<char> {
    if starts_https(v) {
        match v_param_of(v) {
            Some(x) => x,
            None => v,
        }
    } else {
        v
    }
}

/// What parsing one split data line yields, given resolved column
/// positions: a record where both timestamp fields are numeric literals,
/// nothing otherwise.
pub open spec fn parse_spec(fields: Seq<Seq<char>>, ix: Indexes) -> Option<RowV> {
    if is_float_literal(fields[ix.start_time as int]) && is_float_literal(
        fields[ix.end_time as int],
    ) {
        Some(
            RowV {
                id: fields[ix.id as int],
                video_id: fields[ix.video_id as int],
                start_time: fields[ix.start_time as int],
                end_time: fields[ix.end_time as int],
            },
        )
    } else {
        None
    }
}

/// The no-interval sentinel: both timestamps denote the value zero.
pub open spec fn sentinel_spec(r: RowV) -> bool {
    denotes_zero(r.start_time) && denotes_zero(r.end_time)
}

impl SponsorTime {
    /// Build a record from the split fields of one data line, or nothing
    /// where a timestamp field fails to parse as a number.
    pub fn parse(parts: &Vec<String>, i: &Indexes) -> (r: Option<Self>)
        requires
            i.id < parts.len(),
            i.video_id < parts.len(),
            i.start_time < parts.len(),
            i.end_time < parts.len(),
        ensures
            match r {
                Some(t) => parse_spec(views_of(parts@), *i) == Some(t@),
                None => parse_spec(views_of(parts@), *i) is None,
            },
    {
        let start_ok = is_numeric_field(parts[i.start_time].as_str());
        let end_ok = is_numeric_field(parts[i.end_time].as_str());
        if start_ok && end_ok {
            Some(
                Self {
                    id: parts[i.id].clone(),
                    video_id: parts[i.video_id].clone(),
                    start_time: parts[i.start_time].clone(),
                    end_time: parts[i.end_time].clone(),
                },
            )
        } else {
            None
        }
    }

    /// Whether this record is the no-interval sentinel.
    pub fn is_sentinel(&self) -> (b: bool)
        ensures
            b == sentinel_spec(self@),
    {
        is_zero_field(self.start_time.as_str()) && is_zero_field(self.end_time.as_str())
    }

    /// Parse video ID as URL, or return as-is.
    pub fn get_video_id(&self) -> (r: String)
        ensures
            r@ == video_id_of(self.video_id@),
    {
        if !starts_with_https(self.video_id.as_str()) {
            return self.video_id.clone();
        }
        match v_query_param(self.video_id.as_str()) {
            Some(x) => x,
            None => self.video_id.clone(),
        }
    }
}

} // verus!
