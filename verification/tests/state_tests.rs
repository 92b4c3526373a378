use ed25519_dalek::{Signer, SigningKey};
use sangha::crypto::{Session, VerificationPayload};
use sangha::state::{record_upload, topic_owner, Args, ServerState};
use sangha::store::{content_hash, HashVal, TopicStore};
use sangha::topic::RevisionOp;
use sangha::{PublicKey, ServerErr, TopicData};

#[test]
fn args_default_values() {
    let a = Args::default();
    assert_eq!(a.root_dir, ".");
    assert_eq!(a.port, 2342);
    assert!(!a.migrate);
    assert_eq!(a.db_path, "./topic_db");
}

#[test]
fn hash_val_equality_is_by_bytes() {
    let a = HashVal::new([7u8; 32]);
    let b = HashVal::new([7u8; 32]);
    let mut raw = [7u8; 32];
    raw[31] = 8;
    let c = HashVal::new(raw);
    assert_eq!(a, b);
    assert_ne!(a, c);
    let bytes: Vec<u8> = b"xyz".to_vec();
    assert_eq!(content_hash(&bytes), content_hash(&bytes));
}

#[test]
fn fresh_session_is_unauthenticated() {
    let s = Session::new();
    assert!(s.verified_key().is_none());
}

#[test]
fn topic_store_keeps_one_record_per_key() {
    let mut topics = TopicStore::new();
    record_upload(&mut topics, "\"cats.abc\"", "cats", None, "m1.png".to_string());
    record_upload(&mut topics, "\"cats.abc\"", "cats", None, "m2.png".to_string());
    record_upload(&mut topics, "\"cats.xyz\"", "cats", None, "m3.png".to_string());
    let td = topics.get("\"cats.abc\"").unwrap();
    assert_eq!(td.list(), vec!["m1.png".to_string(), "m2.png".to_string()]);
    let other = topics.get("\"cats.xyz\"").unwrap();
    assert_eq!(other.list(), vec!["m3.png".to_string()]);
    assert!(topics.get("\"dogs.abc\"").is_none());
}

#[test]
fn topic_store_remove_takes_record_out() {
    let mut topics = TopicStore::new();
    record_upload(&mut topics, "k", "cats", None, "m.png".to_string());
    let td = topics.remove("k").unwrap();
    assert_eq!(td.name, "cats");
    assert!(topics.get("k").is_none());
    assert!(topics.remove("k").is_none());
}

#[test]
fn topic_owner_reports_missing_and_unowned() {
    let mut topics = TopicStore::new();
    assert_eq!(topic_owner(&topics, "k").unwrap_err(), ServerErr::NotFound);
    record_upload(&mut topics, "k", "cats", None, "m.png".to_string());
    assert_eq!(topic_owner(&topics, "k").unwrap_err(), ServerErr::NotFound);
    let pk = PublicKey::new([3u8; 32]);
    record_upload(&mut topics, "k2", "cats", Some(pk), "m.png".to_string());
    assert_eq!(topic_owner(&topics, "k2").unwrap(), pk);
}

#[test]
fn replay_never_lists_twice_even_for_raw_logs() {
    // a log written with duplicate adds still replays each item once
    let t = TopicData {
        name: "t".to_string(),
        revs: vec![
            RevisionOp::Add(vec!["a".to_string()]),
            RevisionOp::Add(vec!["a".to_string(), "b".to_string()]),
        ],
        owner: None,
    };
    assert_eq!(t.list(), vec!["a".to_string(), "b".to_string()]);
}

#[test]
fn short_id_upload_binds_owner() {
    let signing = SigningKey::from_bytes(&[31u8; 32]);
    let pk = PublicKey::new(signing.verifying_key().to_bytes());
    let challenge = vec![5u8; 32];
    let sig = signing.sign(&challenge).to_bytes().to_vec();
    let mut session = Session::new();
    session.issue_challenge(challenge);
    session
        .authenticate(&VerificationPayload { public_key: pk, signature: sig })
        .unwrap();

    let mut state = ServerState::new(Args::default());
    let short_id = pk.to_string()[..8].to_string();
    state
        .upload_authorized(&session, &short_id, "cats", "cats", b"img".to_vec(), "png")
        .unwrap();
    assert_eq!(topic_owner(&state.topics, "cats").unwrap(), pk);
}
