//! Planning of listing requests on the topic index, independent of the
//! store that runs them.
use vstd::prelude::*;
use crate::cursor::{has_name, Attribute, Cursor};
use crate::result::Error;
use crate::submission::{topic_partition, Submission, TopicIndexKey, SUBMISSION_TAG};

verus! {

/// Page size when the request names none.
pub const DEFAULT_LIMIT: i32 = 30;

/// Attribute names of the table's primary key and of the topic index's key.
pub const PK_NAME: &'static str = "PK";

pub const SK_NAME: &'static str = "SK";

pub const TOPIC_PK_NAME: &'static str = "GSI1_PK";

pub const TOPIC_SK_NAME: &'static str = "GSI1_SK";

/// A request for one page of the submissions under a topic.
#[derive(Clone, Debug)]
pub struct ListItemsByTopicInput {
    pub topic: String,
    pub limit: Option<i32>,
    pub reverse: Option<bool>,
    pub start_cursor: Option<Cursor>,
}

impl ListItemsByTopicInput {
    /// A request for the first page, in ascending order, of the default size.
    pub fn new(topic: String) -> (r: ListItemsByTopicInput)
        ensures
            r.topic == topic,
            r.limit is None,
            r.reverse is None,
            r.start_cursor is None,
    {
        ListItemsByTopicInput { topic, limit: None, reverse: None, start_cursor: None }
    }
}

/// One page of submissions and, where more follow, the point to resume at.
#[derive(Clone, Debug)]
pub struct ListItemsByTopicOutput {
    pub items: Vec<Submission>,
    pub next_cursor: Option<Cursor>,
}

impl ListItemsByTopicOutput {
    /// A page with nothing after it.
    pub fn new(items: Vec<Submission>) -> (r: ListItemsByTopicOutput)
        ensures
            r.items == items,
            r.next_cursor is None,
    {
        ListItemsByTopicOutput { items, next_cursor: None }
    }
}

/// A range scan for the store to run on the topic index.
#[derive(Clone, Debug)]
pub struct TopicQuery {
    /// The index to scan.
    pub index_name: String,
    /// Only keys with this partition.
    pub partition: String,
    /// Only sort keys that begin with this.
    pub sort_prefix: String,
    /// Ascending sort-key order, else descending.
    pub ascending: bool,
    /// At most this many items.
    pub limit: i32,
    /// Resume after this key, not including it.
    pub exclusive_start: Option<Cursor>,
}

/// Whether a request asks for ascending order.
pub open spec fn ascending_of(input: ListItemsByTopicInput) -> bool {
    !(input.reverse == Some(true))
}

/// The page size a request asks for.
pub open spec fn limit_of(input: ListItemsByTopicInput) -> int {
    match input.limit {
        Some(l) => l as int,
        None => DEFAULT_LIMIT as int,
    }
}

/// Whether a resume point names every key attribute of the topic index.
pub open spec fn has_index_keys(attrs: Seq<Attribute>) -> bool {
    &&& has_name(attrs, PK_NAME@)
    &&& has_name(attrs, SK_NAME@)
    &&& has_name(attrs, TOPIC_PK_NAME@)
    &&& has_name(attrs, TOPIC_SK_NAME@)
}

/// Turns a listing request into the scan that answers it.
///
/// The page size defaults to `DEFAULT_LIMIT` and must be positive, else
/// `BadRequest`. A resume point that lacks a key attribute of the index is
/// `InvalidInputData`.
pub fn plan_topic_query(input: &ListItemsByTopicInput) -> (r: Result<TopicQuery, Error>)
    ensures
        (input.limit matches Some(l) && l <= 0) <==> r matches Err(Error::BadRequest(_)),
        r matches Err(e) ==> (e is BadRequest || e is InvalidInputData),
        !(input.limit matches Some(l) && l <= 0) ==> (r matches Err(Error::InvalidInputData(_)) <==> (
        input.start_cursor matches Some(c) && !has_index_keys(c@))),
        r matches Ok(q) ==> {
            &&& q.index_name@ == TopicIndexKey::INDEX_NAME@
            &&& q.partition@ == topic_partition(input.topic@)
            &&& q.sort_prefix@ == SUBMISSION_TAG@ + seq!['#']
            &&& q.ascending == ascending_of(*input)
            &&& q.limit == limit_of(*input)
            &&& match input.start_cursor {
                Some(c) => q.exclusive_start matches Some(k) && k@ == c@,
                None => q.exclusive_start is None,
            }
        },
{
    let limit = match input.limit {
        Some(l) => l,
        None => DEFAULT_LIMIT,
    };
    if limit <= 0 {
        return Err(Error::BadRequest(String::from_str("limit must be a positive integer")));
    }
    let ascending = match input.reverse {
        Some(true) => false,
        _ => true,
    };
    let exclusive_start = match &input.start_cursor {
        Some(c) => {
            if !cursor_has_index_keys(c) {
                return Err(
                    Error::InvalidInputData(String::from_str("cursor lacks a key attribute of the index")),
                );
            }
            Some(c.clone())
        },
        None => None,
    };
    Ok(TopicQuery {
        index_name: String::from_str(TopicIndexKey::INDEX_NAME),
        partition: TopicIndexKey::pk(input.topic.as_str()),
        sort_prefix: TopicIndexKey::sk_prefix(),
        ascending,
        limit,
        exclusive_start,
    })
}

fn cursor_has_index_keys(c: &Cursor) -> (r: bool)
    ensures
        r == has_index_keys(c@),
{
    c.contains(PK_NAME) && c.contains(SK_NAME) && c.contains(TOPIC_PK_NAME) && c.contains(TOPIC_SK_NAME)
}

} // verus!
