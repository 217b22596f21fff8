//! Reply records and their keys: by id, under their submission and comment,
//! and by author.
use vstd::prelude::*;
use crate::comment::CommentId;
use crate::entity::{creation_times, EntityId, EntityType, Timestamp};
use crate::keys::{padded10, sortable, tagged, tagged_number, tagged_value, MAX_SORTABLE, PRIMARY_SORT};
use crate::submission::{SubmissionId, AUTHOR_TAG, SUBMISSION_TAG};

verus! {

pub const REPLY_TAG: &'static str = "REPLY";

pub type ReplyId = EntityId;

/// The primary key of a reply.
#[derive(Clone, PartialEq, Eq, Debug)]
pub struct PrimaryKey {
    pub pk: String,
    pub sk: String,
}

impl PrimaryKey {
    pub fn new(id: &ReplyId) -> (r: PrimaryKey)
        ensures
            r.pk@ == tagged(REPLY_TAG@, id@),
            r.sk@ == PRIMARY_SORT@,
    {
        PrimaryKey { pk: tagged_value(REPLY_TAG, id.as_str()), sk: String::from_str(PRIMARY_SORT) }
    }
}

/// Key of a reply in the index by submission: grouped under its comment,
/// then ordered by creation time.
#[derive(Clone, PartialEq, Eq, Debug)]
pub struct SubmissionCommentIndexKey {
    pub pk: String,
    pub sk: String,
}

impl SubmissionCommentIndexKey {
    pub fn new(submission_id: &SubmissionId, comment_id: &CommentId, created_at: &Timestamp) -> (r:
        SubmissionCommentIndexKey)
        requires
            sortable(created_at.secs as int),
        ensures
            r.pk@ == tagged(SUBMISSION_TAG@, submission_id@),
            r.sk@ == tagged(tagged(REPLY_TAG@, comment_id@), padded10(created_at.secs as int)),
    {
        let group = tagged_value(REPLY_TAG, comment_id.as_str());
        SubmissionCommentIndexKey {
            pk: tagged_value(SUBMISSION_TAG, submission_id.as_str()),
            sk: tagged_number(group.as_str(), created_at.secs),
        }
    }
}

/// Key of a reply in the index by author, ordered by creation time.
#[derive(Clone, PartialEq, Eq, Debug)]
pub struct AuthorIndexKey {
    pub pk: String,
    pub sk: String,
}

impl AuthorIndexKey {
    pub fn new(author_id: &str, created_at: &Timestamp) -> (r: AuthorIndexKey)
        requires
            sortable(created_at.secs as int),
        ensures
            r.pk@ == tagged(AUTHOR_TAG@, author_id@),
            r.sk@ == tagged(REPLY_TAG@, padded10(created_at.secs as int)),
    {
        AuthorIndexKey {
            pk: tagged_value(AUTHOR_TAG, author_id),
            sk: tagged_number(REPLY_TAG, created_at.secs),
        }
    }
}

/// A stored reply: its attributes and the keys derived from them.
#[derive(Clone, PartialEq, Eq, Debug)]
pub struct Reply {
    pub primary_key: PrimaryKey,
    pub submission_comment_key: SubmissionCommentIndexKey,
    pub author_key: AuthorIndexKey,
    pub entity_type: EntityType,
    pub id: ReplyId,
    pub submission_id: SubmissionId,
    pub comment_id: CommentId,
    pub author_id: String,
    pub text: String,
    pub created_at: Timestamp,
    pub updated_at: Timestamp,
}

impl Reply {
    /// The stored keys are exactly those derived from the attributes.
    pub open spec fn keys_derived(&self) -> bool {
        &&& self.entity_type == EntityType::Reply
        &&& self.primary_key.pk@ == tagged(REPLY_TAG@, self.id@)
        &&& self.primary_key.sk@ == PRIMARY_SORT@
        &&& self.submission_comment_key.pk@ == tagged(SUBMISSION_TAG@, self.submission_id@)
        &&& self.submission_comment_key.sk@ == tagged(
            tagged(REPLY_TAG@, self.comment_id@),
            padded10(self.created_at.secs as int),
        )
        &&& self.author_key.pk@ == tagged(AUTHOR_TAG@, self.author_id@)
        &&& self.author_key.sk@ == tagged(REPLY_TAG@, padded10(self.created_at.secs as int))
    }
}

/// Why a reply could not be built.
#[derive(Clone, PartialEq, Eq, Debug)]
pub enum ReplyBuildError {
    /// The named field was not supplied.
    EmptyData(String),
    /// The named field holds a value that is refused, for the given reason.
    InvalidData(String, String),
    Error(String),
    Unknown,
}

/// Collects a reply's attributes; `build` checks and completes them.
#[derive(Clone, Debug)]
pub struct ReplyBuilder {
    pub id: Option<ReplyId>,
    pub submission_id: Option<SubmissionId>,
    pub comment_id: Option<CommentId>,
    pub author_id: Option<String>,
    pub text: Option<String>,
    pub created_at: Option<Timestamp>,
    pub updated_at: Option<Timestamp>,
}

impl ReplyBuilder {
    /// The name of the first required field that was not supplied.
    pub open spec fn first_missing(&self) -> Option<Seq<char>> {
        if self.submission_id is None {
            Some("submission_id"@)
        } else if self.comment_id is None {
            Some("comment_id"@)
        } else if self.author_id is None {
            Some("author_id"@)
        } else if self.text is None {
            Some("text"@)
        } else {
            None
        }
    }

    pub fn new() -> (r: ReplyBuilder)
        ensures
            r.id is None && r.submission_id is None && r.comment_id is None,
            r.author_id is None && r.text is None,
            r.created_at is None && r.updated_at is None,
    {
        ReplyBuilder {
            id: None,
            submission_id: None,
            comment_id: None,
            author_id: None,
            text: None,
            created_at: None,
            updated_at: None,
        }
    }

    pub fn with_id(self, id: ReplyId) -> (r: ReplyBuilder)
        ensures
            r == (ReplyBuilder { id: Some(id), ..self }),
    {
        ReplyBuilder { id: Some(id), ..self }
    }

    pub fn with_submission_id(self, submission_id: SubmissionId) -> (r: ReplyBuilder)
        ensures
            r == (ReplyBuilder { submission_id: Some(submission_id), ..self }),
    {
        ReplyBuilder { submission_id: Some(submission_id), ..self }
    }

    pub fn with_comment_id(self, comment_id: CommentId) -> (r: ReplyBuilder)
        ensures
            r == (ReplyBuilder { comment_id: Some(comment_id), ..self }),
    {
        ReplyBuilder { comment_id: Some(comment_id), ..self }
    }

    pub fn with_author_id(self, author_id: String) -> (r: ReplyBuilder)
        ensures
            r == (ReplyBuilder { author_id: Some(author_id), ..self }),
    {
        ReplyBuilder { author_id: Some(author_id), ..self }
    }

    pub fn with_text(self, text: String) -> (r: ReplyBuilder)
        ensures
            r == (ReplyBuilder { text: Some(text), ..self }),
    {
        ReplyBuilder { text: Some(text), ..self }
    }

    pub fn with_created_at(self, created_at: Timestamp) -> (r: ReplyBuilder)
        ensures
            r == (ReplyBuilder { created_at: Some(created_at), ..self }),
    {
        ReplyBuilder { created_at: Some(created_at), ..self }
    }

    pub fn with_updated_at(self, updated_at: Timestamp) -> (r: ReplyBuilder)
        ensures
            r == (ReplyBuilder { updated_at: Some(updated_at), ..self }),
    {
        ReplyBuilder { updated_at: Some(updated_at), ..self }
    }
    /// Checks the collected attributes, fills in the defaults (a fresh id,
    /// the current time) and derives the keys.
    ///
    /// Creation times outside `0..=MAX_SORTABLE` are refused, as their sort
    /// keys would not keep numeric order.
    pub fn build(self) -> (r: Result<Reply, ReplyBuildError>)
        ensures
            self.first_missing() matches Some(f) ==> (r matches Err(ReplyBuildError::EmptyData(g))
                && g@ == f),
            self.first_missing() is None ==> (match self.created_at {
                Some(t) => (r is Ok <==> sortable(t.secs as int)),
                None => r is Ok || (r matches Err(ReplyBuildError::InvalidData(g, _)) && g@ == "created_at"@),
            }),
            r is Err && self.first_missing() is None ==> (r matches Err(ReplyBuildError::InvalidData(g, _))
                && g@ == "created_at"@),
            r matches Ok(c) ==> {
                &&& c.keys_derived()
                &&& match self.id {
                    Some(id) => c.id@ == id@,
                    None => c.id@.len() == 36,
                }
                &&& self.submission_id == Some(c.submission_id)
                &&& self.comment_id == Some(c.comment_id)
                &&& self.author_id == Some(c.author_id)
                &&& self.text == Some(c.text)
                &&& sortable(c.created_at.secs as int)
                &&& (self.created_at matches Some(t) ==> c.created_at == t)
                &&& (self.updated_at matches Some(t) ==> c.updated_at == t)
                &&& (self.created_at is None && self.updated_at is None ==> c.updated_at == c.created_at)
            },
    {
        let submission_id = match self.submission_id {
            Some(v) => v,
            None => return Err(ReplyBuildError::EmptyData(String::from_str("submission_id"))),
        };
        let comment_id = match self.comment_id {
            Some(v) => v,
            None => return Err(ReplyBuildError::EmptyData(String::from_str("comment_id"))),
        };
        let author_id = match self.author_id {
            Some(v) => v,
            None => return Err(ReplyBuildError::EmptyData(String::from_str("author_id"))),
        };
        let text = match self.text {
            Some(v) => v,
            None => return Err(ReplyBuildError::EmptyData(String::from_str("text"))),
        };
        let (created_at, updated_at) = creation_times(self.created_at, self.updated_at);
        if created_at.secs < 0 || created_at.secs > MAX_SORTABLE {
            return Err(
                ReplyBuildError::InvalidData(
                    String::from_str("created_at"),
                    String::from_str("outside the sortable range"),
                ),
            );
        }
        let id = match self.id {
            Some(id) => id,
            None => EntityId::new(),
        };
        let primary_key = PrimaryKey::new(&id);
        let submission_comment_key = SubmissionCommentIndexKey::new(&submission_id, &comment_id, &created_at);
        let author_key = AuthorIndexKey::new(author_id.as_str(), &created_at);
        Ok(Reply {
            primary_key,
            submission_comment_key,
            author_key,
            entity_type: EntityType::Reply,
            id,
            submission_id,
            comment_id,
            author_id,
            text,
            created_at,
            updated_at,
        })
    }
}

} // verus!
