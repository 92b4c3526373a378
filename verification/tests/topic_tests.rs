use sangha::topic::{apply_add_tag, apply_rm_tag, tags_for_topic, Index, OwnedTopicId, RevisionOp, TopicData};
use sangha::text::normalize_topic;
use sangha::ServerErr;

fn td(revs: Vec<RevisionOp>) -> TopicData {
    TopicData { name: "t".to_string(), revs, owner: None }
}

#[test]
fn replay_order_preserving() {
    // [Add([a,b]), Add([c]), Del([b])] replays to [a, c]
    let t = td(vec![
        RevisionOp::Add(vec!["a".to_string(), "b".to_string()]),
        RevisionOp::Add(vec!["c".to_string()]),
        RevisionOp::Del(vec!["b".to_string()]),
    ]);
    assert_eq!(t.list(), vec!["a".to_string(), "c".to_string()]);
}

#[test]
fn add_is_deduplicating() {
    let mut t = td(vec![]);
    t.add(vec!["a".to_string()]);
    t.add(vec!["a".to_string()]);
    assert_eq!(t.list(), vec!["a".to_string()]);
    // the second add is recorded as an empty Add, not double-appended
    assert_eq!(t.revs.len(), 2);
}

#[test]
fn add_dedups_within_batch() {
    let mut t = td(vec![]);
    t.add(vec!["a".to_string(), "a".to_string(), "b".to_string()]);
    assert_eq!(t.list(), vec!["a".to_string(), "b".to_string()]);
}

#[test]
fn del_removes_all_matching() {
    let t = td(vec![
        RevisionOp::Add(vec!["a".to_string(), "b".to_string(), "c".to_string()]),
        RevisionOp::Del(vec!["a".to_string(), "c".to_string()]),
    ]);
    assert_eq!(t.list(), vec!["b".to_string()]);
}

#[test]
fn rename_same_name_is_noop() {
    let mut t = td(vec![RevisionOp::Add(vec!["x".to_string()])]);
    t.rename("x".to_string(), "x".to_string());
    assert_eq!(t.list(), vec!["x".to_string()]);
    assert_eq!(t.revs.len(), 1);
}

#[test]
fn rename_missing_is_noop() {
    let mut t = td(vec![RevisionOp::Add(vec!["x".to_string()])]);
    t.rename("missing".to_string(), "y".to_string());
    assert_eq!(t.list(), vec!["x".to_string()]);
    assert_eq!(t.revs.len(), 1);
}

#[test]
fn rename_replaces() {
    let mut t = td(vec![RevisionOp::Add(vec!["a".to_string(), "b".to_string()])]);
    t.rename("a".to_string(), "z".to_string());
    assert_eq!(t.list(), vec!["b".to_string(), "z".to_string()]);
}

#[test]
fn new_records_initial_items() {
    let t = TopicData::new("cats".to_string(), None, vec!["m1".to_string(), "m2".to_string()]);
    assert_eq!(t.name, "cats");
    assert!(t.owner.is_none());
    assert_eq!(t.list(), vec!["m1".to_string(), "m2".to_string()]);
    assert!(t.contains(&"m1".to_string()));
    assert!(!t.contains(&"nope".to_string()));
}

#[test]
fn index_add_remove() {
    let mut ix = Index::new("cute".to_string());
    assert!(ix.is_empty());
    ix.add_topic("cats".to_string());
    ix.add_topic("dogs".to_string());
    ix.add_topic("cats".to_string());
    assert_eq!(ix.topics, vec!["cats".to_string(), "dogs".to_string()]);
    assert!(ix.contains_topic("cats"));
    ix.remove_topic("cats");
    assert!(!ix.contains_topic("cats"));
    assert_eq!(ix.topics, vec!["dogs".to_string()]);
    ix.remove_topic("dogs");
    assert!(ix.is_empty());
}

#[test]
fn tags_for_topic_scans_indexes() {
    let mut a = Index::new("cute".to_string());
    a.add_topic("cats".to_string());
    let mut b = Index::new("loud".to_string());
    b.add_topic("dogs".to_string());
    let mut c = Index::new("furry".to_string());
    c.add_topic("cats".to_string());
    c.add_topic("dogs".to_string());
    let tags = tags_for_topic(&vec![a, b, c], "cats");
    assert_eq!(tags, vec!["cute".to_string(), "furry".to_string()]);
}

#[test]
fn apply_add_tag_creates_or_extends() {
    let fresh = apply_add_tag(None, "cute", "cats".to_string());
    assert_eq!(fresh.name, "cute");
    assert_eq!(fresh.topics, vec!["cats".to_string()]);
    let grown = apply_add_tag(Some(fresh), "ignored", "dogs".to_string());
    assert_eq!(grown.name, "cute");
    assert_eq!(grown.topics, vec!["cats".to_string(), "dogs".to_string()]);
}

#[test]
fn apply_rm_tag_missing_index_not_found() {
    let r = apply_rm_tag(None, "cats");
    assert_eq!(r.unwrap_err(), ServerErr::NotFound);
}

#[test]
fn apply_rm_tag_deletes_empty_index() {
    let mut ix = Index::new("cute".to_string());
    ix.add_topic("cats".to_string());
    let r = apply_rm_tag(Some(ix), "cats").unwrap();
    assert!(r.is_none());

    let mut ix2 = Index::new("cute".to_string());
    ix2.add_topic("cats".to_string());
    ix2.add_topic("dogs".to_string());
    let kept = apply_rm_tag(Some(ix2), "cats").unwrap().unwrap();
    assert_eq!(kept.topics, vec!["dogs".to_string()]);
}

#[test]
fn normalize_topic_rewrites() {
    assert_eq!(normalize_topic("My Topic.Name%20X"), "my-topic_name-x");
    assert_eq!(normalize_topic("\tCats \n"), "cats-");
    assert_eq!(normalize_topic("plain"), "plain");
    assert_eq!(normalize_topic("a%20b c.d"), "a-b-c_d");
}

#[test]
fn owned_topic_id_serializes_as_quoted_pair() {
    let id = OwnedTopicId { topic: "cats".to_string(), owner_id: "abcd1234".to_string() };
    assert_eq!(id.to_string(), "\"cats.abcd1234\"");
    // same form serde_json gives the joined string
    let via_serde = serde_json::to_string("cats.abcd1234").unwrap();
    assert_eq!(id.to_string(), via_serde);
}
