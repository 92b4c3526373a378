use ed25519_dalek::{Signer, SigningKey};
use sangha::crypto::{authorize_write, Session, VerificationPayload};
use sangha::{PublicKey, ServerErr};

fn keypair(seed: u8) -> (SigningKey, PublicKey) {
    let secret = [seed; 32];
    let signing = SigningKey::from_bytes(&secret);
    let public = PublicKey::new(signing.verifying_key().to_bytes());
    (signing, public)
}

#[test]
fn public_key_base64_round_trip() {
    let (_, pk) = keypair(3);
    let s = pk.to_string();
    assert_eq!(s, base64::encode(pk.to_bytes()));
    let back = PublicKey::from_b64(&s).unwrap();
    assert_eq!(back, pk);
}

#[test]
fn public_key_base64_of_known_bytes() {
    let pk = PublicKey::new([0u8; 32]);
    assert_eq!(pk.to_string(), "AAAAAAAAAAAAAAAAAAAAAAAAAAAAAAAAAAAAAAAAAAA=");
}

#[test]
fn public_key_rejects_bad_base64() {
    assert_eq!(PublicKey::from_b64("!!!not base64!!!").unwrap_err(), ServerErr::Unauthorized);
    // valid base64 of the wrong length
    assert_eq!(PublicKey::from_b64(&base64::encode([1u8; 8])).unwrap_err(), ServerErr::Unauthorized);
}

#[test]
fn authenticate_without_challenge_fails() {
    let (signing, pk) = keypair(1);
    let sig = signing.sign(b"anything").to_bytes().to_vec();
    let mut session = Session::new();
    let payload = VerificationPayload { public_key: pk, signature: sig };
    assert_eq!(session.authenticate(&payload), Err(ServerErr::NoChallenge));
}

#[test]
fn authenticate_accepts_valid_signature() {
    let (signing, pk) = keypair(2);
    let challenge = vec![9u8; 32];
    let sig = signing.sign(&challenge).to_bytes().to_vec();
    let mut session = Session::new();
    session.issue_challenge(challenge);
    let payload = VerificationPayload { public_key: pk, signature: sig };
    assert_eq!(session.authenticate(&payload), Ok(()));
    assert_eq!(session.verified_key(), Some(pk));
}

#[test]
fn challenge_replay_rejected() {
    let (signing, pk) = keypair(4);
    let challenge = vec![7u8; 32];
    let sig = signing.sign(&challenge).to_bytes().to_vec();
    let mut session = Session::new();
    session.issue_challenge(challenge);
    let payload = VerificationPayload { public_key: pk, signature: sig };
    // first use succeeds, the same pair a second time finds no challenge
    assert_eq!(session.authenticate(&payload), Ok(()));
    assert_eq!(session.authenticate(&payload), Err(ServerErr::NoChallenge));
}

#[test]
fn bad_signature_consumes_challenge() {
    let (signing, pk) = keypair(5);
    let sig = signing.sign(b"the wrong message").to_bytes().to_vec();
    let mut session = Session::new();
    session.issue_challenge(vec![1u8; 32]);
    let payload = VerificationPayload { public_key: pk, signature: sig };
    assert_eq!(session.authenticate(&payload), Err(ServerErr::Unauthorized));
    assert!(session.verified_key().is_none());
    // the failed attempt consumed the challenge too
    assert_eq!(session.authenticate(&payload), Err(ServerErr::NoChallenge));
}

#[test]
fn wrong_signature_length_rejected() {
    let (_, pk) = keypair(6);
    let mut session = Session::new();
    session.issue_challenge(vec![1u8; 32]);
    let payload = VerificationPayload { public_key: pk, signature: vec![0u8; 63] };
    assert_eq!(session.authenticate(&payload), Err(ServerErr::Unauthorized));
}

fn verified_session(seed: u8) -> (Session, PublicKey) {
    let (signing, pk) = keypair(seed);
    let challenge = vec![seed; 32];
    let sig = signing.sign(&challenge).to_bytes().to_vec();
    let mut session = Session::new();
    session.issue_challenge(challenge);
    session
        .authenticate(&VerificationPayload { public_key: pk, signature: sig })
        .unwrap();
    (session, pk)
}

#[test]
fn authorize_full_id_and_short_id() {
    let (session, pk) = verified_session(8);
    let full = pk.to_string();
    assert_eq!(authorize_write(&session, &full, &None).unwrap(), pk);
    assert_eq!(authorize_write(&session, &full[..8], &None).unwrap(), pk);
    // a 7-character prefix is neither the full id nor a short id
    assert_eq!(
        authorize_write(&session, &full[..7], &None).unwrap_err(),
        ServerErr::Unauthorized
    );
    assert_eq!(
        authorize_write(&session, "someone-else", &None).unwrap_err(),
        ServerErr::Unauthorized
    );
}

#[test]
fn authorize_respects_recorded_owner() {
    let (session_p, pk_p) = verified_session(10);
    let (session_q, pk_q) = verified_session(11);
    assert_ne!(pk_p, pk_q);
    // the topic is owned by P: P may write, Q may not
    let owner = Some(pk_p);
    assert_eq!(authorize_write(&session_p, &pk_p.to_string(), &owner).unwrap(), pk_p);
    assert_eq!(
        authorize_write(&session_q, &pk_q.to_string(), &owner).unwrap_err(),
        ServerErr::Unauthorized
    );
}

#[test]
fn unverified_session_cannot_write() {
    let session = Session::new();
    assert_eq!(
        authorize_write(&session, "anyone", &None).unwrap_err(),
        ServerErr::Unauthorized
    );
}
