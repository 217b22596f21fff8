//! Entity kinds, identifiers and timestamps.
use vstd::prelude::*;

verus! {

/// The kinds of record that share the table.
#[derive(Clone, Copy, PartialEq, Eq, Debug)]
pub enum EntityType {
    Submission,
    Comment,
    Reply,
}

/// A signed ordering metric; only its rendering in sort keys matters here.
pub type RankingScore = i64;

/// Opaque, non-empty identifier of an entity.
#[derive(PartialEq, Eq, Debug)]
pub struct EntityId(String);

impl Clone for EntityId {
    fn clone(&self) -> (r: EntityId)
        ensures
            r == *self,
    {
        proof { use_type_invariant(self); }
        EntityId(self.0.clone())
    }
}

impl View for EntityId {
    type V = Seq<char>;

    closed spec fn view(&self) -> Seq<char> {
        self.0@
    }
}

impl EntityId {
    #[verifier::type_invariant]
    spec fn non_empty(&self) -> bool {
        self.0@.len() > 0
    }

    /// A fresh random identifier.
    pub fn new() -> (r: EntityId)
        ensures
            r@.len() == 36,
    {
        EntityId(random_uuid())
    }

    /// Wraps `id`, which must not be empty.
    pub fn from(id: String) -> (r: Result<EntityId, String>)
        ensures
            r is Ok <==> id@.len() > 0,
            r matches Ok(e) ==> e@ == id@,
            r matches Err(msg) ==> msg@ == "invalid EntityId: empty id"@,
    {
        if id.as_str().unicode_len() > 0 {
            return Ok(EntityId(id));
        }
        Err(String::from_str("invalid EntityId: empty id"))
    }

    /// The identifier's text.
    pub fn as_str(&self) -> (r: &str)
        ensures
            r@ == self@,
            r@.len() > 0,
    {
        proof { use_type_invariant(self); }
        self.0.as_str()
    }

    /// The identifier's text as a new string.
    pub fn to_string(&self) -> (r: String)
        ensures
            r@ == self@,
    {
        self.0.clone()
    }
}

/// An instant as seconds and nanoseconds since the Unix epoch, UTC.
#[derive(Clone, Copy, PartialEq, Eq, Debug)]
pub struct Timestamp {
    pub secs: i64,
    pub nanos: u32,
}

impl Timestamp {
    /// The current time.
    pub fn now() -> (r: Timestamp)
        ensures
            r.secs >= 0,
            r.nanos < 1_000_000_000,
    {
        let (secs, nanos) = utc_now();
        Timestamp { secs, nanos }
    }
}

/// The creation and update times of a new record: each one supplied is kept,
/// each one missing is the current time, the same instant for both.
pub fn creation_times(created_at: Option<Timestamp>, updated_at: Option<Timestamp>) -> (r: (Timestamp, Timestamp))
    ensures
        created_at matches Some(c) ==> r.0 == c,
        created_at is None ==> r.0.secs >= 0 && r.0.nanos < 1_000_000_000,
        updated_at matches Some(u) ==> r.1 == u,
        updated_at is None ==> r.1.secs >= 0 && r.1.nanos < 1_000_000_000,
        created_at is None && updated_at is None ==> r.0 == r.1,
{
    match (created_at, updated_at) {
        (Some(c), Some(u)) => (c, u),
        (Some(c), None) => (c, Timestamp::now()),
        (None, Some(u)) => (Timestamp::now(), u),
        (None, None) => {
            let now = Timestamp::now();
            (now, now)
        },
    }
}

/// Relies on uuid's `Uuid::new_v4` and its `Display`: a random version-4
/// identifier in its hyphenated form, 36 characters long.
#[verifier::external_body]
fn random_uuid() -> (r: String)
    ensures
        r@.len() == 36,
{
    uuid::Uuid::new_v4().to_string()
}

/// Relies on chrono's `Utc::now`, `timestamp` and `timestamp_subsec_nanos`:
/// the system clock as whole seconds after the epoch (never before it, else
/// chrono panics) and the nanoseconds within the second.
#[verifier::external_body]
fn utc_now() -> (r: (i64, u32))
    ensures
        r.0 >= 0,
        r.1 < 1_000_000_000,
{
    let now = chrono::Utc::now();
    (now.timestamp(), now.timestamp_subsec_nanos())
}

} // verus!
