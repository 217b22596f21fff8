use valnk::comment::{CommentBuildError, CommentBuilder};
use valnk::entity::{EntityId, EntityType, Timestamp};
use valnk::reply::{ReplyBuildError, ReplyBuilder};
use valnk::submission::{
    AuthorIndexKey, PrimaryKey, Submission, SubmissionBuildError, SubmissionBuilder, SubmissionId,
    TopicIndexKey,
};

#[test]
fn test_submission_builder() {
    let result = SubmissionBuilder::new()
        .with_author_id("author111".to_string())
        .with_topic("topic111".to_string())
        .with_ranking_score(999)
        .with_title("title111".to_string())
        .with_url("url111".to_string())
        .with_text("text111".to_string())
        .build()
        .unwrap();

    println!("{result:#?}");
    assert_eq!(result.id.as_str().len(), 36);
    assert_eq!(result.created_at, result.updated_at);
    assert_eq!(result.topic_key.sk, "SUBMS#0000000999");
}

#[test]
fn submission_builder_with_everything() {
    let current_dt = Timestamp { secs: 1234, nanos: 0 };
    let result = SubmissionBuilder::new()
        .with_id(SubmissionId::from("id111".to_string()).unwrap())
        .with_author_id("author111".to_string())
        .with_topic("topic111".to_string())
        .with_ranking_score(999)
        .with_title("title111".to_string())
        .with_url("url111".to_string())
        .with_text("text111".to_string())
        .with_created_at(current_dt)
        .with_updated_at(current_dt)
        .build()
        .unwrap();
    let expected = Submission {
        primary_key: PrimaryKey::new(&SubmissionId::from("id111".to_string()).unwrap()),
        topic_key: TopicIndexKey::new("topic111", &999),
        author_key: AuthorIndexKey::new("author111", &current_dt),
        entity_type: EntityType::Submission,
        id: SubmissionId::from("id111".to_string()).unwrap(),
        author_id: "author111".to_string(),
        topic: "topic111".to_string(),
        ranking_score: 999,
        title: "title111".to_string(),
        url: "url111".to_string(),
        text: "text111".to_string(),
        n_votes: 0,
        n_comments: 0,
        created_at: current_dt,
        updated_at: current_dt,
    };
    assert_eq!(result, expected);
}

fn complete() -> SubmissionBuilder {
    SubmissionBuilder::new()
        .with_author_id("a".to_string())
        .with_topic("t".to_string())
        .with_ranking_score(1)
        .with_title("ti".to_string())
        .with_url("u".to_string())
        .with_text("x".to_string())
}

#[test]
fn submission_builder_errors() {
    match SubmissionBuilder::new().build() {
        Err(SubmissionBuildError::EmptyData(f)) => assert_eq!(f, "author_id"),
        other => panic!("unexpected {other:?}"),
    }
    match complete().with_ranking_score(-1).build() {
        Err(SubmissionBuildError::InvalidData(f, _)) => assert_eq!(f, "ranking_score"),
        other => panic!("unexpected {other:?}"),
    }
    match complete().with_ranking_score(10_000_000_000).build() {
        Err(SubmissionBuildError::InvalidData(f, _)) => assert_eq!(f, "ranking_score"),
        other => panic!("unexpected {other:?}"),
    }
    match complete().with_created_at(Timestamp { secs: -1, nanos: 0 }).build() {
        Err(SubmissionBuildError::InvalidData(f, _)) => assert_eq!(f, "created_at"),
        other => panic!("unexpected {other:?}"),
    }
    let mut b = complete();
    b.url = None;
    match b.build() {
        Err(SubmissionBuildError::EmptyData(f)) => assert_eq!(f, "url"),
        other => panic!("unexpected {other:?}"),
    }
    let s = complete().with_n_votes(3).with_n_comments(4).build().unwrap();
    assert_eq!((s.n_votes, s.n_comments), (3, 4));
}

#[test]
fn comment_builder() {
    let at = Timestamp { secs: 77, nanos: 1 };
    let c = CommentBuilder::new()
        .with_id(EntityId::from("c1".to_string()).unwrap())
        .with_submission_id(EntityId::from("s1".to_string()).unwrap())
        .with_author_id("py0x".to_string())
        .with_ranking_score(5)
        .with_text("hi".to_string())
        .with_created_at(at)
        .build()
        .unwrap();
    assert_eq!(c.primary_key.pk, "COMMT#c1");
    assert_eq!(c.primary_key.sk, "A");
    assert_eq!(c.submission_key.pk, "SUBMS#s1");
    assert_eq!(c.submission_key.sk, "COMMT#0000000005");
    assert_eq!(c.author_key.sk, "COMMT#0000000077");
    assert_eq!(c.entity_type, EntityType::Comment);
    assert_eq!(c.created_at, at);
    assert_eq!((c.n_votes, c.n_replies), (0, 0));
    match CommentBuilder::new().with_topic("t".to_string()).build() {
        Err(CommentBuildError::EmptyData(f)) => assert_eq!(f, "submission_id"),
        other => panic!("unexpected {other:?}"),
    }
}

#[test]
fn reply_builder() {
    let at = Timestamp { secs: 1234, nanos: 0 };
    let r = ReplyBuilder::new()
        .with_id(EntityId::from("r1".to_string()).unwrap())
        .with_submission_id(EntityId::from("s1".to_string()).unwrap())
        .with_comment_id(EntityId::from("c1".to_string()).unwrap())
        .with_author_id("py0x".to_string())
        .with_text("yo".to_string())
        .with_created_at(at)
        .with_updated_at(at)
        .build()
        .unwrap();
    assert_eq!(r.primary_key.pk, "REPLY#r1");
    assert_eq!(r.submission_comment_key.pk, "SUBMS#s1");
    assert_eq!(r.submission_comment_key.sk, "REPLY#c1#0000001234");
    assert_eq!(r.author_key.pk, "AUTHR#py0x");
    assert_eq!(r.author_key.sk, "REPLY#0000001234");
    match ReplyBuilder::new()
        .with_submission_id(EntityId::from("s1".to_string()).unwrap())
        .build()
    {
        Err(ReplyBuildError::EmptyData(f)) => assert_eq!(f, "comment_id"),
        other => panic!("unexpected {other:?}"),
    }
}
