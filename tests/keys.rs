use valnk::comment;
use valnk::entity::{EntityId, Timestamp};
use valnk::reply;
use valnk::submission::{AuthorIndexKey, PrimaryKey, SubmissionId, TopicIndexKey};

#[test]
fn submission_primary_key() {
    let id = SubmissionId::from("id1".to_string()).unwrap();
    let pk = PrimaryKey::new(&id);
    assert_eq!(pk, PrimaryKey { pk: String::from("SUBMS#id1"), sk: String::from("A") });
}

#[test]
fn comment_and_reply_primary_keys() {
    let id = EntityId::from("c9".to_string()).unwrap();
    let c = comment::PrimaryKey::new(&id);
    assert_eq!(c.pk, "COMMT#c9");
    assert_eq!(c.sk, "A");
    let r = reply::PrimaryKey::new(&id);
    assert_eq!(r.pk, "REPLY#c9");
    assert_eq!(r.sk, "A");
}

#[test]
fn topic_index_key() {
    let key = TopicIndexKey::new("topic_xxx", &192);
    assert_eq!(
        key,
        TopicIndexKey { pk: String::from("TOPIC#topic_xxx"), sk: String::from("SUBMS#0000000192") }
    );
    assert_eq!(TopicIndexKey::sk_prefix(), "SUBMS#");
    assert_eq!(TopicIndexKey::INDEX_NAME, "GSI1");
}

#[test]
fn author_index_key() {
    let created_at = Timestamp { secs: 1234, nanos: 0 };
    let key = AuthorIndexKey::new("py0x", &created_at);
    assert_eq!(
        key,
        AuthorIndexKey { pk: String::from("AUTHR#py0x"), sk: String::from("SUBMS#0000001234") }
    );
}

#[test]
fn sort_key_range_edges() {
    assert_eq!(TopicIndexKey::sk(&0), "SUBMS#0000000000");
    assert_eq!(TopicIndexKey::sk(&7), format!("SUBMS#{:010}", 7));
    assert_eq!(TopicIndexKey::sk(&9_999_999_999), "SUBMS#9999999999");
    assert_eq!(TopicIndexKey::pk("news"), "TOPIC#news");
}

#[test]
fn sort_keys_follow_score_order() {
    let scores: [i64; 6] = [0, 1, 9, 10, 192, 9_999_999_999];
    for w in scores.windows(2) {
        assert!(TopicIndexKey::sk(&w[0]) < TopicIndexKey::sk(&w[1]));
    }
}

#[test]
fn comment_keys() {
    let sid = SubmissionId::from("submission_id_123".to_string()).unwrap();
    let k = comment::SubmissionIndexKey::new(&sid, &192);
    assert_eq!(k.pk, "SUBMS#submission_id_123");
    assert_eq!(k.sk, "COMMT#0000000192");
    let a = comment::AuthorIndexKey::new("py0x", &Timestamp { secs: 1234, nanos: 5 });
    assert_eq!(a.pk, "AUTHR#py0x");
    assert_eq!(a.sk, "COMMT#0000001234");
}

#[test]
fn reply_keys() {
    let sid = SubmissionId::from("s1".to_string()).unwrap();
    let cid = EntityId::from("c1".to_string()).unwrap();
    let at = Timestamp { secs: 1234, nanos: 0 };
    let k = reply::SubmissionCommentIndexKey::new(&sid, &cid, &at);
    assert_eq!(k.pk, "SUBMS#s1");
    assert_eq!(k.sk, "REPLY#c1#0000001234");
    let a = reply::AuthorIndexKey::new("py0x", &at);
    assert_eq!(a.pk, "AUTHR#py0x");
    assert_eq!(a.sk, "REPLY#0000001234");
}

#[test]
fn entity_ids() {
    assert_eq!(EntityId::from(String::new()), Err("invalid EntityId: empty id".to_string()));
    let id = EntityId::from("x".to_string()).unwrap();
    assert_eq!(id.as_str(), "x");
    assert_eq!(id.to_string(), "x");
    let a = EntityId::new();
    let b = EntityId::new();
    assert_eq!(a.as_str().len(), 36);
    assert_ne!(a, b);
}
