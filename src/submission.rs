//! Submission records and their keys: by id, by topic and by author.
use vstd::prelude::*;
use crate::entity::{creation_times, EntityId, EntityType, RankingScore, Timestamp};
use crate::keys::{padded10, sortable, tagged, tagged_number, tagged_value, MAX_SORTABLE, PRIMARY_SORT};

verus! {

pub const SUBMISSION_TAG: &'static str = "SUBMS";

pub const TOPIC_TAG: &'static str = "TOPIC";

pub const AUTHOR_TAG: &'static str = "AUTHR";

pub type SubmissionId = EntityId;

/// The primary key of a submission.
#[derive(PartialEq, Eq, Debug)]
pub struct PrimaryKey {
    pub pk: String,
    pub sk: String,
}

impl Clone for PrimaryKey {
    fn clone(&self) -> (r: PrimaryKey)
        ensures
            r == *self,
    {
        PrimaryKey { pk: self.pk.clone(), sk: self.sk.clone() }
    }
}

impl PrimaryKey {
    pub fn new(id: &SubmissionId) -> (r: PrimaryKey)
        ensures
            r.pk@ == tagged(SUBMISSION_TAG@, id@),
            r.sk@ == PRIMARY_SORT@,
    {
        PrimaryKey { pk: tagged_value(SUBMISSION_TAG, id.as_str()), sk: String::from_str(PRIMARY_SORT) }
    }
}

/// Partition of the topic index for `topic`.
pub open spec fn topic_partition(topic: Seq<char>) -> Seq<char> {
    tagged(TOPIC_TAG@, topic)
}

/// Sort key of a submission with `score` in the topic index.
pub open spec fn topic_sort(score: int) -> Seq<char> {
    tagged(SUBMISSION_TAG@, padded10(score))
}

/// Key of a submission in the index of submissions by topic, ordered by
/// ranking score.
#[derive(PartialEq, Eq, Debug)]
pub struct TopicIndexKey {
    pub pk: String,
    pub sk: String,
}

impl Clone for TopicIndexKey {
    fn clone(&self) -> (r: TopicIndexKey)
        ensures
            r == *self,
    {
        TopicIndexKey { pk: self.pk.clone(), sk: self.sk.clone() }
    }
}

impl TopicIndexKey {
    pub const INDEX_NAME: &'static str = "GSI1";

    pub fn new(topic: &str, score: &RankingScore) -> (r: TopicIndexKey)
        requires
            sortable(*score as int),
        ensures
            r.pk@ == topic_partition(topic@),
            r.sk@ == topic_sort(*score as int),
    {
        TopicIndexKey { pk: Self::pk(topic), sk: Self::sk(score) }
    }

    pub fn pk(topic: &str) -> (r: String)
        ensures
            r@ == topic_partition(topic@),
    {
        tagged_value(TOPIC_TAG, topic)
    }

    pub fn sk(score: &RankingScore) -> (r: String)
        requires
            sortable(*score as int),
        ensures
            r@ == topic_sort(*score as int),
    {
        tagged_number(SUBMISSION_TAG, *score)
    }

    /// The prefix that every submission's sort key in this index starts with.
    pub fn sk_prefix() -> (r: String)
        ensures
            r@ == SUBMISSION_TAG@ + seq!['#'],
            forall|score: int| #[trigger] topic_sort(score).subrange(0, r@.len() as int) == r@,
    {
        proof {
            reveal_strlit("#");
            assert forall|score: int| #[trigger] topic_sort(score).subrange(0, SUBMISSION_TAG@.len() + 1int)
                == SUBMISSION_TAG@ + seq!['#'] by {
                assert(topic_sort(score).subrange(0, SUBMISSION_TAG@.len() + 1int) =~= SUBMISSION_TAG@ + seq!['#']);
            }
        }
        let mut s = String::from_str(SUBMISSION_TAG);
        s.append("#");
        s
    }
}

/// Partition of the author index for `author_id`.
pub open spec fn author_partition(author_id: Seq<char>) -> Seq<char> {
    tagged(AUTHOR_TAG@, author_id)
}

/// Key of a submission in the index by author, ordered by creation time.
#[derive(PartialEq, Eq, Debug)]
pub struct AuthorIndexKey {
    pub pk: String,
    pub sk: String,
}

impl Clone for AuthorIndexKey {
    fn clone(&self) -> (r: AuthorIndexKey)
        ensures
            r == *self,
    {
        AuthorIndexKey { pk: self.pk.clone(), sk: self.sk.clone() }
    }
}

impl AuthorIndexKey {
    pub fn new(author_id: &str, created_at: &Timestamp) -> (r: AuthorIndexKey)
        requires
            sortable(created_at.secs as int),
        ensures
            r.pk@ == author_partition(author_id@),
            r.sk@ == tagged(SUBMISSION_TAG@, padded10(created_at.secs as int)),
    {
        AuthorIndexKey {
            pk: tagged_value(AUTHOR_TAG, author_id),
            sk: tagged_number(SUBMISSION_TAG, created_at.secs),
        }
    }
}

/// A stored submission: its attributes and the keys derived from them.
#[derive(PartialEq, Eq, Debug)]
pub struct Submission {
    pub primary_key: PrimaryKey,
    pub topic_key: TopicIndexKey,
    pub author_key: AuthorIndexKey,
    pub entity_type: EntityType,
    pub id: SubmissionId,
    pub author_id: String,
    pub topic: String,
    pub ranking_score: RankingScore,
    pub title: String,
    pub url: String,
    pub text: String,
    pub n_votes: u64,
    pub n_comments: u64,
    pub created_at: Timestamp,
    pub updated_at: Timestamp,
}

impl Clone for Submission {
    fn clone(&self) -> (r: Submission)
        ensures
            r == *self,
    {
        Submission {
            primary_key: self.primary_key.clone(),
            topic_key: self.topic_key.clone(),
            author_key: self.author_key.clone(),
            entity_type: self.entity_type,
            id: self.id.clone(),
            author_id: self.author_id.clone(),
            topic: self.topic.clone(),
            ranking_score: self.ranking_score,
            title: self.title.clone(),
            url: self.url.clone(),
            text: self.text.clone(),
            n_votes: self.n_votes,
            n_comments: self.n_comments,
            created_at: self.created_at,
            updated_at: self.updated_at,
        }
    }
}

impl Submission {
    /// The stored keys are exactly those derived from the attributes.
    pub open spec fn keys_derived(&self) -> bool {
        &&& self.entity_type == EntityType::Submission
        &&& self.primary_key.pk@ == tagged(SUBMISSION_TAG@, self.id@)
        &&& self.primary_key.sk@ == PRIMARY_SORT@
        &&& self.topic_key.pk@ == topic_partition(self.topic@)
        &&& self.topic_key.sk@ == topic_sort(self.ranking_score as int)
        &&& self.author_key.pk@ == author_partition(self.author_id@)
        &&& self.author_key.sk@ == tagged(SUBMISSION_TAG@, padded10(self.created_at.secs as int))
    }
}

/// Why a submission could not be built.
#[derive(Clone, PartialEq, Eq, Debug)]
pub enum SubmissionBuildError {
    /// The named field was not supplied.
    EmptyData(String),
    /// The named field holds a value that is refused, for the given reason.
    InvalidData(String, String),
    Error(String),
    Unknown,
}

/// Collects a submission's attributes; `build` checks and completes them.
#[derive(Clone, Debug)]
pub struct SubmissionBuilder {
    pub id: Option<SubmissionId>,
    pub author_id: Option<String>,
    pub topic: Option<String>,
    pub ranking_score: Option<RankingScore>,
    pub title: Option<String>,
    pub url: Option<String>,
    pub text: Option<String>,
    pub n_votes: Option<u64>,
    pub n_comments: Option<u64>,
    pub created_at: Option<Timestamp>,
    pub updated_at: Option<Timestamp>,
}

impl SubmissionBuilder {
    /// The name of the first required field that was not supplied.
    pub open spec fn first_missing(&self) -> Option<Seq<char>> {
        if self.author_id is None {
            Some("author_id"@)
        } else if self.topic is None {
            Some("topic"@)
        } else if self.ranking_score is None {
            Some("ranking_score"@)
        } else if self.title is None {
            Some("title"@)
        } else if self.url is None {
            Some("url"@)
        } else if self.text is None {
            Some("text"@)
        } else {
            None
        }
    }

    pub fn new() -> (r: SubmissionBuilder)
        ensures
            r.id is None && r.author_id is None && r.topic is None && r.ranking_score is None,
            r.title is None && r.url is None && r.text is None,
            r.n_votes is None && r.n_comments is None,
            r.created_at is None && r.updated_at is None,
    {
        SubmissionBuilder {
            id: None,
            author_id: None,
            topic: None,
            ranking_score: None,
            title: None,
            url: None,
            text: None,
            n_votes: None,
            n_comments: None,
            created_at: None,
            updated_at: None,
        }
    }

    pub fn with_id(self, id: SubmissionId) -> (r: SubmissionBuilder)
        ensures
            r == (SubmissionBuilder { id: Some(id), ..self }),
    {
        SubmissionBuilder { id: Some(id), ..self }
    }

    pub fn with_author_id(self, author_id: String) -> (r: SubmissionBuilder)
        ensures
            r == (SubmissionBuilder { author_id: Some(author_id), ..self }),
    {
        SubmissionBuilder { author_id: Some(author_id), ..self }
    }

    pub fn with_topic(self, topic: String) -> (r: SubmissionBuilder)
        ensures
            r == (SubmissionBuilder { topic: Some(topic), ..self }),
    {
        SubmissionBuilder { topic: Some(topic), ..self }
    }

    pub fn with_ranking_score(self, ranking_score: RankingScore) -> (r: SubmissionBuilder)
        ensures
            r == (SubmissionBuilder { ranking_score: Some(ranking_score), ..self }),
    {
        SubmissionBuilder { ranking_score: Some(ranking_score), ..self }
    }

    pub fn with_title(self, title: String) -> (r: SubmissionBuilder)
        ensures
            r == (SubmissionBuilder { title: Some(title), ..self }),
    {
        SubmissionBuilder { title: Some(title), ..self }
    }

    pub fn with_url(self, url: String) -> (r: SubmissionBuilder)
        ensures
            r == (SubmissionBuilder { url: Some(url), ..self }),
    {
        SubmissionBuilder { url: Some(url), ..self }
    }

    pub fn with_text(self, text: String) -> (r: SubmissionBuilder)
        ensures
            r == (SubmissionBuilder { text: Some(text), ..self }),
    {
        SubmissionBuilder { text: Some(text), ..self }
    }

    pub fn with_n_votes(self, n_votes: u64) -> (r: SubmissionBuilder)
        ensures
            r == (SubmissionBuilder { n_votes: Some(n_votes), ..self }),
    {
        SubmissionBuilder { n_votes: Some(n_votes), ..self }
    }

    pub fn with_n_comments(self, n_comments: u64) -> (r: SubmissionBuilder)
        ensures
            r == (SubmissionBuilder { n_comments: Some(n_comments), ..self }),
    {
        SubmissionBuilder { n_comments: Some(n_comments), ..self }
    }

    pub fn with_created_at(self, created_at: Timestamp) -> (r: SubmissionBuilder)
        ensures
            r == (SubmissionBuilder { created_at: Some(created_at), ..self }),
    {
        SubmissionBuilder { created_at: Some(created_at), ..self }
    }

    pub fn with_updated_at(self, updated_at: Timestamp) -> (r: SubmissionBuilder)
        ensures
            r == (SubmissionBuilder { updated_at: Some(updated_at), ..self }),
    {
        SubmissionBuilder { updated_at: Some(updated_at), ..self }
    }

    /// Checks the collected attributes, fills in the defaults (a fresh id,
    /// zero counters, the current time) and derives the keys.
    ///
    /// Scores and creation times outside `0..=MAX_SORTABLE` are refused, as
    /// their sort keys would not keep numeric order.
    pub fn build(self) -> (r: Result<Submission, SubmissionBuildError>)
        ensures
            self.first_missing() matches Some(f) ==> (r matches Err(SubmissionBuildError::EmptyData(g))
                && g@ == f),
            self.first_missing() is None && !sortable(self.ranking_score->0 as int) ==> (r matches Err(
                SubmissionBuildError::InvalidData(g, _),
            ) && g@ == "ranking_score"@),
            self.first_missing() is None && sortable(self.ranking_score->0 as int) ==> (match self.created_at {
                Some(t) => (r is Ok <==> sortable(t.secs as int)),
                None => r is Ok || (r matches Err(SubmissionBuildError::InvalidData(g, _)) && g@ == "created_at"@),
            }),
            r is Err && self.first_missing() is None && sortable(self.ranking_score->0 as int) ==> (r matches Err(
                SubmissionBuildError::InvalidData(g, _),
            ) && g@ == "created_at"@),
            r matches Ok(s) ==> {
                &&& s.keys_derived()
                &&& sortable(s.ranking_score as int)
                &&& match self.id {
                    Some(id) => s.id@ == id@,
                    None => s.id@.len() == 36,
                }
                &&& self.author_id == Some(s.author_id)
                &&& self.topic == Some(s.topic)
                &&& self.ranking_score == Some(s.ranking_score)
                &&& self.title == Some(s.title)
                &&& self.url == Some(s.url)
                &&& self.text == Some(s.text)
                &&& s.n_votes == (match self.n_votes { Some(n) => n, None => 0 })
                &&& s.n_comments == (match self.n_comments { Some(n) => n, None => 0 })
                &&& sortable(s.created_at.secs as int)
                &&& (self.created_at matches Some(t) ==> s.created_at == t)
                &&& (self.updated_at matches Some(t) ==> s.updated_at == t)
                &&& (self.created_at is None && self.updated_at is None ==> s.updated_at == s.created_at)
            },
    {
        let author_id = match self.author_id {
            Some(v) => v,
            None => return Err(SubmissionBuildError::EmptyData(String::from_str("author_id"))),
        };
        let topic = match self.topic {
            Some(v) => v,
            None => return Err(SubmissionBuildError::EmptyData(String::from_str("topic"))),
        };
        let ranking_score = match self.ranking_score {
            Some(v) => v,
            None => return Err(SubmissionBuildError::EmptyData(String::from_str("ranking_score"))),
        };
        let title = match self.title {
            Some(v) => v,
            None => return Err(SubmissionBuildError::EmptyData(String::from_str("title"))),
        };
        let url = match self.url {
            Some(v) => v,
            None => return Err(SubmissionBuildError::EmptyData(String::from_str("url"))),
        };
        let text = match self.text {
            Some(v) => v,
            None => return Err(SubmissionBuildError::EmptyData(String::from_str("text"))),
        };
        if ranking_score < 0 || ranking_score > MAX_SORTABLE {
            return Err(
                SubmissionBuildError::InvalidData(
                    String::from_str("ranking_score"),
                    String::from_str("outside the sortable range"),
                ),
            );
        }
        let (created_at, updated_at) = creation_times(self.created_at, self.updated_at);
        if created_at.secs > MAX_SORTABLE {
            return Err(
                SubmissionBuildError::InvalidData(
                    String::from_str("created_at"),
                    String::from_str("outside the sortable range"),
                ),
            );
        }
        if created_at.secs < 0 {
            return Err(
                SubmissionBuildError::InvalidData(
                    String::from_str("created_at"),
                    String::from_str("outside the sortable range"),
                ),
            );
        }
        let id = match self.id {
            Some(id) => id,
            None => EntityId::new(),
        };
        let n_votes = match self.n_votes {
            Some(n) => n,
            None => 0,
        };
        let n_comments = match self.n_comments {
            Some(n) => n,
            None => 0,
        };
        let primary_key = PrimaryKey::new(&id);
        let topic_key = TopicIndexKey::new(topic.as_str(), &ranking_score);
        let author_key = AuthorIndexKey::new(author_id.as_str(), &created_at);
        Ok(Submission {
            primary_key,
            topic_key,
            author_key,
            entity_type: EntityType::Submission,
            id,
            author_id,
            topic,
            ranking_score,
            title,
            url,
            text,
            n_votes,
            n_comments,
            created_at,
            updated_at,
        })
    }
}

} // verus!
