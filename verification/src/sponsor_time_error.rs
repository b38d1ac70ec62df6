use vstd::prelude::*;

verus! {

/// Why one record was set aside during a run instead of being stored.
#[derive(Debug)]
pub enum SponsorTimeError {
    /// Time contained an invalid interval
    InvalidInterval,
    /// Database returned an error
    DatabaseError(Option<String>),
}

/// The view of an ignore reason: the database message, if any, as a
/// character sequence.
pub ghost enum ReasonV {
    InvalidInterval,
    DatabaseError(Option<Seq<char>>),
}

impl View for SponsorTimeError {
    type V = ReasonV;

    open spec fn view(&self) -> ReasonV {
        match self {
            SponsorTimeError::InvalidInterval => ReasonV::InvalidInterval,
            SponsorTimeError::DatabaseError(m) => ReasonV::DatabaseError(
                match m {
                    Some(s) => Some(s@),
                    None => None,
                },
            ),
        }
    }
}

/// A failure that ends the run before or outside the per-record loop.
#[derive(Debug)]
pub enum SyncError {
    /// The header line lacks one or more required fields; the names of every
    /// missing field are carried, in their fixed reporting order.
    SchemaMismatch(Vec<String>),
    /// No database connection string was given, neither explicitly nor by
    /// the environment.
    MissingDatabaseUrl,
}

} // verus!
