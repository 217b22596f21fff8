//! Comment records and their keys: by id, under their submission and by
//! author.
use vstd::prelude::*;
use crate::entity::{creation_times, EntityId, EntityType, RankingScore, Timestamp};
use crate::keys::{padded10, sortable, tagged, tagged_number, tagged_value, MAX_SORTABLE, PRIMARY_SORT};
use crate::submission::{SubmissionId, AUTHOR_TAG, SUBMISSION_TAG};

verus! {

pub const COMMENT_TAG: &'static str = "COMMT";

pub type CommentId = EntityId;

/// The primary key of a comment.
#[derive(Clone, PartialEq, Eq, Debug)]
pub struct PrimaryKey {
    pub pk: String,
    pub sk: String,
}

impl PrimaryKey {
    pub fn new(id: &CommentId) -> (r: PrimaryKey)
        ensures
            r.pk@ == tagged(COMMENT_TAG@, id@),
            r.sk@ == PRIMARY_SORT@,
    {
        PrimaryKey { pk: tagged_value(COMMENT_TAG, id.as_str()), sk: String::from_str(PRIMARY_SORT) }
    }
}

/// Key of a comment in the index of comments by submission, ordered by
/// ranking score.
#[derive(Clone, PartialEq, Eq, Debug)]
pub struct SubmissionIndexKey {
    pub pk: String,
    pub sk: String,
}

impl SubmissionIndexKey {
    pub fn new(submission_id: &SubmissionId, score: &RankingScore) -> (r: SubmissionIndexKey)
        requires
            sortable(*score as int),
        ensures
            r.pk@ == tagged(SUBMISSION_TAG@, submission_id@),
            r.sk@ == tagged(COMMENT_TAG@, padded10(*score as int)),
    {
        SubmissionIndexKey {
            pk: tagged_value(SUBMISSION_TAG, submission_id.as_str()),
            sk: tagged_number(COMMENT_TAG, *score),
        }
    }
}

/// Key of a comment in the index by author, ordered by creation time.
#[derive(Clone, PartialEq, Eq, Debug)]
pub struct AuthorIndexKey {
    pub pk: String,
    pub sk: String,
}

impl AuthorIndexKey {
    pub fn new(author_id: &str, created_at: &Timestamp) -> (r: AuthorIndexKey)
        requires
            sortable(created_at.secs as int),
        ensures
            r.pk@ == tagged(AUTHOR_TAG@, author_id@),
            r.sk@ == tagged(COMMENT_TAG@, padded10(created_at.secs as int)),
    {
        AuthorIndexKey {
            pk: tagged_value(AUTHOR_TAG, author_id),
            sk: tagged_number(COMMENT_TAG, created_at.secs),
        }
    }
}

/// A stored comment: its attributes and the keys derived from them.
#[derive(Clone, PartialEq, Eq, Debug)]
pub struct Comment {
    pub primary_key: PrimaryKey,
    pub submission_key: SubmissionIndexKey,
    pub author_key: AuthorIndexKey,
    pub entity_type: EntityType,
    pub id: CommentId,
    pub submission_id: SubmissionId,
    pub author_id: String,
    pub ranking_score: RankingScore,
    pub text: String,
    pub n_votes: u64,
    pub n_replies: u64,
    pub created_at: Timestamp,
    pub updated_at: Timestamp,
}

impl Comment {
    /// The stored keys are exactly those derived from the attributes.
    pub open spec fn keys_derived(&self) -> bool {
        &&& self.entity_type == EntityType::Comment
        &&& self.primary_key.pk@ == tagged(COMMENT_TAG@, self.id@)
        &&& self.primary_key.sk@ == PRIMARY_SORT@
        &&& self.submission_key.pk@ == tagged(SUBMISSION_TAG@, self.submission_id@)
        &&& self.submission_key.sk@ == tagged(COMMENT_TAG@, padded10(self.ranking_score as int))
        &&& self.author_key.pk@ == tagged(AUTHOR_TAG@, self.author_id@)
        &&& self.author_key.sk@ == tagged(COMMENT_TAG@, padded10(self.created_at.secs as int))
    }
}

/// Why a comment could not be built.
#[derive(Clone, PartialEq, Eq, Debug)]
pub enum CommentBuildError {
    /// The named field was not supplied.
    EmptyData(String),
    /// The named field holds a value that is refused, for the given reason.
    InvalidData(String, String),
    Error(String),
    Unknown,
}

/// Collects a comment's attributes; `build` checks and completes them.
#[derive(Clone, Debug)]
pub struct CommentBuilder {
    pub id: Option<CommentId>,
    pub submission_id: Option<SubmissionId>,
    pub author_id: Option<String>,
    pub topic: Option<String>,
    pub ranking_score: Option<RankingScore>,
    pub text: Option<String>,
    pub n_votes: Option<u64>,
    pub n_replies: Option<u64>,
    pub created_at: Option<Timestamp>,
    pub updated_at: Option<Timestamp>,
}

impl CommentBuilder {
    /// The name of the first required field that was not supplied.
    pub open spec fn first_missing(&self) -> Option<Seq<char>> {
        if self.submission_id is None {
            Some("submission_id"@)
        } else if self.author_id is None {
            Some("author_id"@)
        } else if self.ranking_score is None {
            Some("ranking_score"@)
        } else if self.text is None {
            Some("text"@)
        } else {
            None
        }
    }

    pub fn new() -> (r: CommentBuilder)
        ensures
            r.id is None && r.submission_id is None && r.author_id is None && r.topic is None,
            r.ranking_score is None && r.text is None && r.n_votes is None && r.n_replies is None,
            r.created_at is None && r.updated_at is None,
    {
        CommentBuilder {
            id: None,
            submission_id: None,
            author_id: None,
            topic: None,
            ranking_score: None,
            text: None,
            n_votes: None,
            n_replies: None,
            created_at: None,
            updated_at: None,
        }
    }

    pub fn with_id(self, id: CommentId) -> (r: CommentBuilder)
        ensures
            r == (CommentBuilder { id: Some(id), ..self }),
    {
        CommentBuilder { id: Some(id), ..self }
    }

    pub fn with_submission_id(self, submission_id: SubmissionId) -> (r: CommentBuilder)
        ensures
            r == (CommentBuilder { submission_id: Some(submission_id), ..self }),
    {
        CommentBuilder { submission_id: Some(submission_id), ..self }
    }

    pub fn with_author_id(self, author_id: String) -> (r: CommentBuilder)
        ensures
            r == (CommentBuilder { author_id: Some(author_id), ..self }),
    {
        CommentBuilder { author_id: Some(author_id), ..self }
    }

    pub fn with_topic(self, topic: String) -> (r: CommentBuilder)
        ensures
            r == (CommentBuilder { topic: Some(topic), ..self }),
    {
        CommentBuilder { topic: Some(topic), ..self }
    }

    pub fn with_ranking_score(self, ranking_score: RankingScore) -> (r: CommentBuilder)
        ensures
            r == (CommentBuilder { ranking_score: Some(ranking_score), ..self }),
    {
        CommentBuilder { ranking_score: Some(ranking_score), ..self }
    }

    pub fn with_text(self, text: String) -> (r: CommentBuilder)
        ensures
            r == (CommentBuilder { text: Some(text), ..self }),
    {
        CommentBuilder { text: Some(text), ..self }
    }

    pub fn with_n_votes(self, n_votes: u64) -> (r: CommentBuilder)
        ensures
            r == (CommentBuilder { n_votes: Some(n_votes), ..self }),
    {
        CommentBuilder { n_votes: Some(n_votes), ..self }
    }

    pub fn with_n_replies(self, n_replies: u64) -> (r: CommentBuilder)
        ensures
            r == (CommentBuilder { n_replies: Some(n_replies), ..self }),
    {
        CommentBuilder { n_replies: Some(n_replies), ..self }
    }

    pub fn with_created_at(self, created_at: Timestamp) -> (r: CommentBuilder)
        ensures
            r == (CommentBuilder { created_at: Some(created_at), ..self }),
    {
        CommentBuilder { created_at: Some(created_at), ..self }
    }

    pub fn with_updated_at(self, updated_at: Timestamp) -> (r: CommentBuilder)
        ensures
            r == (CommentBuilder { updated_at: Some(updated_at), ..self }),
    {
        CommentBuilder { updated_at: Some(updated_at), ..self }
    }
    /// Checks the collected attributes, fills in the defaults (a fresh id,
    /// zero counters, the current time) and derives the keys.
    ///
    /// Scores and creation times outside `0..=MAX_SORTABLE` are refused, as
    /// their sort keys would not keep numeric order.
    pub fn build(self) -> (r: Result<Comment, CommentBuildError>)
        ensures
            self.first_missing() matches Some(f) ==> (r matches Err(CommentBuildError::EmptyData(g))
                && g@ == f),
            self.first_missing() is None && !sortable(self.ranking_score->0 as int) ==> (r matches Err(
                CommentBuildError::InvalidData(g, _),
            ) && g@ == "ranking_score"@),
            self.first_missing() is None && sortable(self.ranking_score->0 as int) ==> (match self.created_at {
                Some(t) => (r is Ok <==> sortable(t.secs as int)),
                None => r is Ok || (r matches Err(CommentBuildError::InvalidData(g, _)) && g@ == "created_at"@),
            }),
            r is Err && self.first_missing() is None && sortable(self.ranking_score->0 as int) ==> (r matches Err(
                CommentBuildError::InvalidData(g, _),
            ) && g@ == "created_at"@),
            r matches Ok(c) ==> {
                &&& c.keys_derived()
                &&& match self.id {
                    Some(id) => c.id@ == id@,
                    None => c.id@.len() == 36,
                }
                &&& self.submission_id == Some(c.submission_id)
                &&& self.author_id == Some(c.author_id)
                &&& self.ranking_score == Some(c.ranking_score)
                &&& self.text == Some(c.text)
                &&& c.n_votes == (match self.n_votes { Some(n) => n, None => 0 })
                &&& c.n_replies == (match self.n_replies { Some(n) => n, None => 0 })
                &&& sortable(c.created_at.secs as int)
                &&& (self.created_at matches Some(t) ==> c.created_at == t)
                &&& (self.updated_at matches Some(t) ==> c.updated_at == t)
                &&& (self.created_at is None && self.updated_at is None ==> c.updated_at == c.created_at)
            },
    {
        let submission_id = match self.submission_id {
            Some(v) => v,
            None => return Err(CommentBuildError::EmptyData(String::from_str("submission_id"))),
        };
        let author_id = match self.author_id {
            Some(v) => v,
            None => return Err(CommentBuildError::EmptyData(String::from_str("author_id"))),
        };
        let ranking_score = match self.ranking_score {
            Some(v) => v,
            None => return Err(CommentBuildError::EmptyData(String::from_str("ranking_score"))),
        };
        let text = match self.text {
            Some(v) => v,
            None => return Err(CommentBuildError::EmptyData(String::from_str("text"))),
        };
        if ranking_score < 0 || ranking_score > MAX_SORTABLE {
            return Err(
                CommentBuildError::InvalidData(
                    String::from_str("ranking_score"),
                    String::from_str("outside the sortable range"),
                ),
            );
        }
        let (created_at, updated_at) = creation_times(self.created_at, self.updated_at);
        if created_at.secs < 0 || created_at.secs > MAX_SORTABLE {
            return Err(
                CommentBuildError::InvalidData(
                    String::from_str("created_at"),
                    String::from_str("outside the sortable range"),
                ),
            );
        }
        let id = match self.id {
            Some(id) => id,
            None => EntityId::new(),
        };
        let n_votes = match self.n_votes {
            Some(n) => n,
            None => 0,
        };
        let n_replies = match self.n_replies {
            Some(n) => n,
            None => 0,
        };
        let primary_key = PrimaryKey::new(&id);
        let submission_key = SubmissionIndexKey::new(&submission_id, &ranking_score);
        let author_key = AuthorIndexKey::new(author_id.as_str(), &created_at);
        Ok(Comment {
            primary_key,
            submission_key,
            author_key,
            entity_type: EntityType::Comment,
            id,
            submission_id,
            author_id,
            ranking_score,
            text,
            n_votes,
            n_replies,
            created_at,
            updated_at,
        })
    }
}

} // verus!
