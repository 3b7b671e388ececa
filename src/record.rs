use vstd::prelude::*;

verus! {

/// Identifier of a stored record: the 128 bits of a random (version 4) UUID.
pub type RecordId = u128;

/// The two engagement counters that every record carries.
#[derive(Clone, Copy, Debug, PartialEq, Eq, Structural)]
pub enum CounterKind {
    Likes,
    Views,
}

/// A stored record: immutable descriptive fields and two counters.
pub struct Record {
    pub id: RecordId,
    pub title: String,
    pub creator: String,
    pub description: String,
    pub locator: String,
    /// Creation time, in milliseconds since the Unix epoch.
    pub created_at: i64,
    pub likes: u64,
    pub views: u64,
}

/// The externally visible form of a record, assembled at read time.
pub struct RecordView {
    pub id: RecordId,
    pub title: String,
    pub creator: String,
    pub description: String,
    pub locator: String,
    pub created_at: i64,
    pub likes: u64,
    pub views: u64,
}

/// The value of counter `c` of record `r`.
pub open spec fn counter_of(r: Record, c: CounterKind) -> u64 {
    match c {
        CounterKind::Likes => r.likes,
        CounterKind::Views => r.views,
    }
}

/// Record `r` with counter `c` advanced by one.
pub open spec fn bumped(r: Record, c: CounterKind) -> Record {
    match c {
        CounterKind::Likes => Record { likes: (r.likes + 1) as u64, ..r },
        CounterKind::Views => Record { views: (r.views + 1) as u64, ..r },
    }
}

/// The view of record `r`: its fields together with both counters.
pub open spec fn view_of(r: Record) -> RecordView {
    RecordView {
        id: r.id,
        title: r.title,
        creator: r.creator,
        description: r.description,
        locator: r.locator,
        created_at: r.created_at,
        likes: r.likes,
        views: r.views,
    }
}

impl Record {
    /// The current value of one counter.
    pub fn counter(&self, c: CounterKind) -> (r: u64)
        ensures
            r == counter_of(*self, c),
    {
        match c {
            CounterKind::Likes => self.likes,
            CounterKind::Views => self.views,
        }
    }

    /// Assembles the view of this record from its fields and a read of its counters.
    pub fn project(&self) -> (v: RecordView)
        ensures
            v == view_of(*self),
    {
        RecordView {
            id: self.id,
            title: self.title.clone(),
            creator: self.creator.clone(),
            description: self.description.clone(),
            locator: self.locator.clone(),
            created_at: self.created_at,
            likes: self.likes,
            views: self.views,
        }
    }
}

} // verus!
