use sangha::topic::{Index, RevisionOp, TopicData};
use sangha::PublicKey;

#[test]
fn topic_record_canonical_form() {
    let t = TopicData {
        name: "cats".to_string(),
        revs: vec![
            RevisionOp::Add(vec!["a.png".to_string(), "b.png".to_string()]),
            RevisionOp::Del(vec!["b.png".to_string()]),
        ],
        owner: None,
    };
    assert_eq!(
        t.to_json(),
        "{\"name\":\"cats\",\"revs\":[{\"Add\":[\"a.png\",\"b.png\"]},{\"Del\":[\"b.png\"]}],\"owner\":null}"
    );
}

#[test]
fn topic_record_parses_back() {
    let t = TopicData {
        name: "with \"quotes\" and \\slashes\\\nnewline".to_string(),
        revs: vec![RevisionOp::Add(vec!["x.png".to_string()])],
        owner: Some(PublicKey::new([5u8; 32])),
    };
    let s = t.to_json();
    let v: serde_json::Value = serde_json::from_str(&s).unwrap();
    assert_eq!(v["name"].as_str().unwrap(), "with \"quotes\" and \\slashes\\\nnewline");
    assert_eq!(v["revs"][0]["Add"][0].as_str().unwrap(), "x.png");
    assert_eq!(v["owner"].as_str().unwrap(), base64::encode([5u8; 32]));
}

#[test]
fn control_characters_are_escaped() {
    let t = TopicData { name: "a\u{01}b".to_string(), revs: vec![], owner: None };
    let s = t.to_json();
    assert_eq!(s, "{\"name\":\"a\\u0001b\",\"revs\":[],\"owner\":null}");
    let v: serde_json::Value = serde_json::from_str(&s).unwrap();
    assert_eq!(v["name"].as_str().unwrap(), "a\u{01}b");
}

#[test]
fn index_record_canonical_form() {
    let mut ix = Index::new("cute".to_string());
    ix.add_topic("cats".to_string());
    ix.add_topic("dogs".to_string());
    assert_eq!(ix.to_json(), "{\"name\":\"cute\",\"topics\":[\"cats\",\"dogs\"]}");
    let v: serde_json::Value = serde_json::from_str(&ix.to_json()).unwrap();
    assert_eq!(v["topics"][1].as_str().unwrap(), "dogs");
}
