use valnk::cursor::Cursor;
use valnk::entity::{EntityId, Timestamp};
use valnk::query::{plan_topic_query, ListItemsByTopicInput, ListItemsByTopicOutput};
use valnk::result::Error;
use valnk::submission::{Submission, SubmissionBuilder};
use valnk::table::MemoryTable;

fn subm(id: &str, topic: &str, score: i64) -> Submission {
    SubmissionBuilder::new()
        .with_id(EntityId::from(id.to_string()).unwrap())
        .with_author_id("py0x".to_string())
        .with_topic(topic.to_string())
        .with_ranking_score(score)
        .with_title("t".to_string())
        .with_url("u".to_string())
        .with_text("x".to_string())
        .with_created_at(Timestamp { secs: 100, nanos: 0 })
        .build()
        .unwrap()
}

fn news_table() -> MemoryTable {
    let mut t = MemoryTable::new();
    t.create_item(subm("a", "news", 5)).unwrap();
    t.create_item(subm("b", "news", 10)).unwrap();
    t.create_item(subm("c", "news", 1)).unwrap();
    t.create_item(subm("z", "sport", 3)).unwrap();
    t
}

fn scores(out: &ListItemsByTopicOutput) -> Vec<i64> {
    out.items.iter().map(|s| s.ranking_score).collect()
}

fn request(limit: Option<i32>, reverse: Option<bool>, start: Option<Cursor>) -> ListItemsByTopicInput {
    let mut input = ListItemsByTopicInput::new("news".to_string());
    input.limit = limit;
    input.reverse = reverse;
    input.start_cursor = start;
    input
}

#[test]
fn news_scenario() {
    let t = news_table();
    let first = t.list_items_by_topic(request(Some(2), Some(false), None)).unwrap();
    assert_eq!(scores(&first), vec![1, 5]);
    let cursor = first.next_cursor.clone().expect("more items follow");
    let token = cursor.to_string();
    let resumed = Cursor::from_str(&token).unwrap();
    let second = t.list_items_by_topic(request(Some(2), None, Some(resumed))).unwrap();
    assert_eq!(scores(&second), vec![10]);
    assert!(second.next_cursor.is_none());
}

#[test]
fn test_list_items_by_topic() {
    let t = news_table();
    let mut input = ListItemsByTopicInput::new("news".to_string());
    input.limit = Some(1);
    let output = t.list_items_by_topic(input).unwrap();
    println!("output: {:#?}", output);
    println!("========");
    let mut input2 = ListItemsByTopicInput::new("news".to_string());
    input2.limit = Some(2);
    input2.start_cursor = output.next_cursor.clone();
    let output2 = t.list_items_by_topic(input2).unwrap();
    println!("output2: {:#?}", output2);
    println!("========");
    assert_eq!(scores(&output), vec![1]);
    assert_eq!(scores(&output2), vec![5, 10]);
    assert!(output2.next_cursor.is_none());
}

#[test]
fn paging_matches_one_scan() {
    let mut t = news_table();
    for (i, s) in [7i64, 7, 2, 30, 0, 7].iter().enumerate() {
        t.create_item(subm(&format!("n{i}"), "news", *s)).unwrap();
    }
    for reverse in [false, true] {
        let all = t.list_items_by_topic(request(Some(100), Some(reverse), None)).unwrap();
        assert!(all.next_cursor.is_none());
        for limit in 1..5 {
            let mut seen: Vec<String> = vec![];
            let mut cursor = None;
            loop {
                let page = t.list_items_by_topic(request(Some(limit), Some(reverse), cursor)).unwrap();
                assert!(page.items.len() <= limit as usize);
                seen.extend(page.items.iter().map(|s| s.id.to_string()));
                match page.next_cursor {
                    Some(c) => cursor = Some(c),
                    None => break,
                }
            }
            let ids: Vec<String> = all.items.iter().map(|s| s.id.to_string()).collect();
            assert_eq!(seen, ids);
        }
    }
}

#[test]
fn reverse_inverts_order() {
    let t = news_table();
    let up = t.list_items_by_topic(request(None, None, None)).unwrap();
    let down = t.list_items_by_topic(request(None, Some(true), None)).unwrap();
    let mut up_rev = scores(&up);
    up_rev.reverse();
    assert_eq!(scores(&down), up_rev);
    assert_eq!(scores(&down), vec![10, 5, 1]);
}

#[test]
fn exact_fit_has_no_cursor() {
    let t = news_table();
    let out = t.list_items_by_topic(request(Some(3), None, None)).unwrap();
    assert_eq!(out.items.len(), 3);
    assert!(out.next_cursor.is_none());
    let other = ListItemsByTopicInput::new("empty".to_string());
    let none = t.list_items_by_topic(other).unwrap();
    assert!(none.items.is_empty() && none.next_cursor.is_none());
}

#[test]
fn replacing_by_primary_key() {
    let mut t = news_table();
    t.create_item(subm("a", "news", 50)).unwrap();
    assert_eq!(t.len(), 4);
    let out = t.list_items_by_topic(request(None, None, None)).unwrap();
    assert_eq!(scores(&out), vec![1, 10, 50]);
}

#[test]
fn bad_requests() {
    let t = news_table();
    assert!(matches!(t.list_items_by_topic(request(Some(0), None, None)), Err(Error::BadRequest(_))));
    assert!(matches!(t.list_items_by_topic(request(Some(-3), None, None)), Err(Error::BadRequest(_))));
    let mut partial = Cursor::new();
    partial.insert("PK".to_string(), "SUBMS#a".to_string());
    assert!(matches!(
        t.list_items_by_topic(request(Some(2), None, Some(partial))),
        Err(Error::InvalidInputData(_))
    ));
}

#[test]
fn cursor_of_a_removed_item_resumes_at_its_position() {
    let mut t = news_table();
    let first = t.list_items_by_topic(request(Some(1), None, None)).unwrap();
    assert_eq!(scores(&first), vec![1]);
    let cursor = first.next_cursor.unwrap();
    // the item the cursor came from moves away; its position stays
    t.create_item(subm("c", "sport", 1)).unwrap();
    t.create_item(subm("d", "news", 2)).unwrap();
    let second = t.list_items_by_topic(request(Some(5), None, Some(cursor.clone()))).unwrap();
    assert_eq!(scores(&second), vec![2, 5, 10]);
    let back = t.list_items_by_topic(request(Some(5), Some(true), Some(cursor))).unwrap();
    assert!(back.items.is_empty());
}

#[test]
fn inconsistent_records_are_refused() {
    let mut t = news_table();
    let mut s = subm("q", "news", 4);
    s.topic_key.sk = "SUBMS#0000000099".to_string();
    assert!(matches!(t.create_item(s), Err(Error::InvalidInputData(_))));
    let mut s2 = subm("q", "news", 4);
    s2.ranking_score = -4;
    assert!(matches!(t.create_item(s2), Err(Error::InvalidInputData(_))));
    assert_eq!(t.len(), 4);
}

#[test]
fn equal_scores_follow_primary_key() {
    let mut t = MemoryTable::new();
    t.create_item(subm("b", "news", 3)).unwrap();
    t.create_item(subm("a", "news", 3)).unwrap();
    t.create_item(subm("c", "news", 3)).unwrap();
    let out = t.list_items_by_topic(request(None, None, None)).unwrap();
    let ids: Vec<String> = out.items.iter().map(|s| s.id.to_string()).collect();
    assert_eq!(ids, vec!["a", "b", "c"]);
}

#[test]
fn malformed_cursor_string_is_invalid_input() {
    let t = news_table();
    let first = t.list_items_by_topic(request(Some(1), None, None)).unwrap();
    let token = first.next_cursor.unwrap().to_string();
    let truncated = &token[..token.len() / 2];
    let result = Cursor::from_str(truncated).and_then(|c| t.list_items_by_topic(request(Some(2), None, Some(c))));
    assert!(matches!(result, Err(Error::InvalidInputData(_))));
}

#[test]
fn query_plan() {
    let q = plan_topic_query(&request(None, Some(true), None)).unwrap();
    assert_eq!(q.index_name, "GSI1");
    assert_eq!(q.partition, "TOPIC#news");
    assert_eq!(q.sort_prefix, "SUBMS#");
    assert!(!q.ascending);
    assert_eq!(q.limit, 30);
    assert!(q.exclusive_start.is_none());
    let out = ListItemsByTopicOutput::new(vec![]);
    assert!(out.items.is_empty() && out.next_cursor.is_none());
}
