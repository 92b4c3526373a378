use ed25519_dalek::{Signer, SigningKey};
use image::GenericImageView;
use sangha::crypto::{Session, VerificationPayload};
use sangha::media::ext_from_mime;
use sangha::state::{topic_owner, Args, ServerState};
use sangha::{PublicKey, ServerErr};

fn jpeg_bytes(w: u32, h: u32) -> Vec<u8> {
    let img = image::RgbImage::from_fn(w, h, |x, y| image::Rgb([(x % 256) as u8, (y % 256) as u8, 100]));
    let dynimg = image::DynamicImage::ImageRgb8(img);
    let mut buf = std::io::Cursor::new(Vec::new());
    dynimg.write_to(&mut buf, image::ImageOutputFormat::Jpeg(85)).unwrap();
    buf.into_inner()
}

fn png_bytes(w: u32, h: u32) -> Vec<u8> {
    let img = image::RgbImage::from_pixel(w, h, image::Rgb([10, 200, 30]));
    let dynimg = image::DynamicImage::ImageRgb8(img);
    let mut buf = std::io::Cursor::new(Vec::new());
    dynimg.write_to(&mut buf, image::ImageOutputFormat::Png).unwrap();
    buf.into_inner()
}

#[test]
fn thumbnail_failure_isolation() {
    let mut state = ServerState::new(Args::default());
    let corrupt = b"this is not an image at all".to_vec();
    state.upload("junk", "junk", corrupt, "png");
    let good = png_bytes(40, 40);
    let good_name = state.upload("pics", "pics", good, "png");

    // the corrupt item fails without crashing or blocking the queue
    assert_eq!(state.process_next(), Some(Err(ServerErr::CorruptDerivedAsset)));
    // the next item still produces its thumbnail
    assert_eq!(state.process_next(), Some(Ok(())));
    assert_eq!(state.process_next(), None);
    assert!(state.thumbs.get(&good_name).is_some());
    assert_eq!(state.thumbs.len(), 1);
}

#[test]
fn video_items_are_skipped() {
    let mut state = ServerState::new(Args::default());
    state.upload("vids", "vids", b"fake mp4 payload".to_vec(), "mp4");
    assert_eq!(state.process_next(), Some(Ok(())));
    assert_eq!(state.thumbs.len(), 0);
}

#[test]
fn missing_blob_reports_not_found() {
    let mut state = ServerState::new(Args::default());
    state.queue.enqueue("nowhere.png".to_string());
    assert_eq!(state.process_next(), Some(Err(ServerErr::NotFound)));
}

#[test]
fn end_to_end_upload_list_fetch_thumbnail() {
    // upload image/jpeg bytes B to topic "cats" with no owner
    let declared = "image/jpeg";
    let ext = ext_from_mime(declared).unwrap();
    assert_eq!(ext, "jpeg");
    let bytes = jpeg_bytes(800, 600);
    let expected_name = format!("{}.jpeg", hex::encode(blake3::hash(&bytes).as_bytes()));

    let mut state = ServerState::new(Args::default());
    let fname = state.upload("cats", "cats", bytes.clone(), &ext);
    assert_eq!(fname, expected_name);

    // membership is exactly the derived name
    let record = state.topics.get("cats").unwrap();
    assert_eq!(record.list(), vec![expected_name.clone()]);

    // the original comes back byte for byte
    let id = fname.strip_suffix(".jpeg").unwrap();
    let (blob, mime) = state.store.fetch(id, "jpeg").unwrap();
    assert_eq!(blob, bytes);
    assert_eq!(mime, "image/jpeg");

    // thumbnail is absent until the pipeline drains, then decodable & smaller
    assert_eq!(state.thumbs.fetch(id, "jpeg").unwrap_err(), ServerErr::NotFound);
    state.drain();
    assert_eq!(state.queue.len(), 0);
    let (thumb, _) = state.thumbs.fetch(id, "jpeg").unwrap();
    let decoded = image::load_from_memory(&thumb).unwrap();
    let (tw, th) = decoded.dimensions();
    assert!(tw <= 500 && th <= 500);
    assert!(tw < 800 && th < 600);
}

#[test]
fn duplicate_upload_single_file_and_absorbed_membership() {
    let mut state = ServerState::new(Args::default());
    let bytes = b"identical payload".to_vec();
    let n1 = state.upload("cats", "cats", bytes.clone(), "png");
    let n2 = state.upload("cats", "cats", bytes, "png");
    assert_eq!(n1, n2);
    assert_eq!(state.store.len(), 1);
    let record = state.topics.get("cats").unwrap();
    assert_eq!(record.list(), vec![n1]);
}

fn verified_session(seed: u8) -> (Session, PublicKey) {
    let signing = SigningKey::from_bytes(&[seed; 32]);
    let pk = PublicKey::new(signing.verifying_key().to_bytes());
    let challenge = vec![seed; 32];
    let sig = signing.sign(&challenge).to_bytes().to_vec();
    let mut session = Session::new();
    session.issue_challenge(challenge);
    session
        .authenticate(&VerificationPayload { public_key: pk, signature: sig })
        .unwrap();
    (session, pk)
}

#[test]
fn ownership_binding_on_first_write() {
    let (session_p, pk_p) = verified_session(21);
    let (session_q, pk_q) = verified_session(22);
    assert_ne!(pk_p, pk_q);

    let mut state = ServerState::new(Args::default());
    // first write to a fresh topic under P binds owner = P
    let id_p = pk_p.to_string();
    state
        .upload_authorized(&session_p, &id_p, "cats", "cats", b"one".to_vec(), "png")
        .unwrap();
    assert_eq!(topic_owner(&state.topics, "cats").unwrap(), pk_p);

    // a subsequent write authenticated as Q != P fails with Unauthorized
    let id_q = pk_q.to_string();
    let r = state.upload_authorized(&session_q, &id_q, "cats", "cats", b"two".to_vec(), "png");
    assert_eq!(r.unwrap_err(), ServerErr::Unauthorized);

    // and P can keep writing
    state
        .upload_authorized(&session_p, &id_p, "cats", "cats", b"three".to_vec(), "png")
        .unwrap();
    assert_eq!(state.topics.get("cats").unwrap().list().len(), 2);
}
