//! Public keys, challenge-response verification, and the ownership guard.

use vstd::prelude::*;
use crate::errors::ServerErr;
use crate::text::{str_eq, str_is_prefix};

verus! {

/// One digit of the standard base64 alphabet, for a value in `0..64`.
pub open spec fn b64_digit(v: int) -> char {
    if v < 26 {
        (('A' as u8) + v) as char
    } else if v < 52 {
        (('a' as u8) + (v - 26)) as char
    } else if v < 62 {
        (('0' as u8) + (v - 52)) as char
    } else if v == 62 {
        '+'
    } else {
        '/'
    }
}

/// Standard base64 with padding: big-endian 3-byte groups become 4 digits,
/// a trailing group of 1 or 2 bytes is padded with `=`.
pub open spec fn b64_of(b: Seq<u8>) -> Seq<char>
    decreases b.len(),
{
    if b.len() == 0 {
        Seq::empty()
    } else if b.len() == 1 {
        let n = b[0] as int;
        seq![b64_digit(n / 4), b64_digit((n % 4) * 16), '=', '=']
    } else if b.len() == 2 {
        let n = b[0] as int * 256 + b[1] as int;
        seq![b64_digit(n / 1024), b64_digit((n / 16) % 64), b64_digit((n % 16) * 4), '=']
    } else {
        let n = b[0] as int * 65536 + b[1] as int * 256 + b[2] as int;
        seq![
            b64_digit(n / 262144),
            b64_digit((n / 4096) % 64),
            b64_digit((n / 64) % 64),
            b64_digit(n % 64),
        ] + b64_of(b.skip(3))
    }
}

/// Relies on base64::encode: standard alphabet with padding, as `b64_of` lays
/// it out.
#[verifier::external_body]
fn b64_encode(b: &[u8]) -> (r: String)
    ensures
        r@ == b64_of(b@),
{
    base64::encode(b)
}

/// Relies on base64::decode: decoding the standard padded encoding of some
/// byte string yields exactly those bytes.
#[verifier::external_body]
fn b64_decode(s: &str) -> (r: Result<Vec<u8>, ()>)
    ensures
        forall|b: Seq<u8>| s@ == b64_of(b) ==> r is Ok && #[trigger] (r->Ok_0@) == b,
{
    base64::decode(s).map_err(|_| ())
}

/// A 32-byte Ed25519 verifying key, externally represented as base64.
#[derive(Clone, Copy, Debug)]
pub struct PublicKey([u8; 32]);

impl View for PublicKey {
    type V = Seq<u8>;

    closed spec fn view(&self) -> Seq<u8> {
        self.0@
    }
}

impl PartialEq for PublicKey {
    fn eq(&self, other: &PublicKey) -> (r: bool) {
        let mut i: usize = 0;
        while i < 32
            invariant
                i <= 32,
                forall|k: int| 0 <= k < i ==> self.0@[k] == other.0@[k],
            decreases 32 - i,
        {
            if self.0[i] != other.0[i] {
                assert(self@ != other@);
                return false;
            }
            i += 1;
        }
        assert(self@ =~= other@);
        true
    }
}

impl vstd::std_specs::cmp::PartialEqSpecImpl for PublicKey {
    open spec fn obeys_eq_spec() -> bool {
        true
    }

    open spec fn eq_spec(&self, other: &PublicKey) -> bool {
        self@ == other@
    }
}

impl Eq for PublicKey {}

impl PublicKey {
    /// Wrap raw verifying-key bytes.
    pub fn new(bytes: [u8; 32]) -> (r: Self)
        ensures
            r@ == bytes@,
    {
        PublicKey(bytes)
    }

    /// The raw key bytes.
    pub fn to_bytes(&self) -> (r: [u8; 32])
        ensures
            r@ == self@,
    {
        self.0
    }

    /// The base64 form under which the key travels and is persisted.
    pub fn to_string(&self) -> (r: String)
        ensures
            r@ == b64_of(self@),
    {
        b64_encode(&self.0)
    }

    /// Parse the base64 form of a key; the canonical encoding of any 32-byte
    /// key is accepted and gives back those bytes.
    pub fn from_b64(s: &str) -> (r: Result<PublicKey, ServerErr>)
        ensures
            forall|b: Seq<u8>|
                (b.len() == 32 && s@ == b64_of(b)) ==> r is Ok && #[trigger] (r->Ok_0@) == b,
            r is Ok ==> r->Ok_0@.len() == 32,
    {
        match b64_decode(s) {
            Ok(bytes) => {
                if bytes.len() == 32 {
                    let mut arr: [u8; 32] = [0; 32];
                    let mut i: usize = 0;
                    while i < 32
                        invariant
                            i <= 32,
                            bytes@.len() == 32,
                            forall|k: int| 0 <= k < i ==> arr@[k] == bytes@[k],
                        decreases 32 - i,
                    {
                        arr[i] = bytes[i];
                        i += 1;
                    }
                    assert(arr@ =~= bytes@);
                    Ok(PublicKey(arr))
                } else {
                    Err(ServerErr::Unauthorized)
                }
            },
            Err(_) => Err(ServerErr::Unauthorized),
        }
    }
}

/// Whether `sig` is a valid Ed25519 signature by the key `pk` over `msg`.
/// A `pk` that is not a valid verifying key validates nothing.
pub uninterp spec fn ed25519_verifies(pk: Seq<u8>, msg: Seq<u8>, sig: Seq<u8>) -> bool;

/// Relies on ed25519_dalek's VerifyingKey::from_bytes, Signature::from_bytes
/// and Verifier::verify: a deterministic function of key, message and
/// signature bytes; key bytes that decompress to no curve point verify
/// nothing.
#[verifier::external_body]
fn ed25519_verify(pk: &[u8; 32], msg: &Vec<u8>, sig: &[u8; 64]) -> (r: bool)
    ensures
        r == ed25519_verifies(pk@, msg@, sig@),
{
    match ed25519_dalek::VerifyingKey::from_bytes(pk) {
        Ok(key) => {
            let s = ed25519_dalek::Signature::from_bytes(sig);
            ed25519_dalek::Verifier::verify(&key, msg.as_slice(), &s).is_ok()
        },
        Err(_) => false,
    }
}

/// A caller's proof of key possession: the key and its signature over the
/// challenge the server issued.
pub struct VerificationPayload {
    pub public_key: PublicKey,
    pub signature: Vec<u8>,
}

/// Mathematical form of a session.
pub struct SessionView {
    pub challenge: Option<Seq<u8>>,
    pub verified: Option<Seq<u8>>,
}

/// Per-session authentication state: `Unauthenticated` (no challenge, not
/// verified) -> challenge issued -> verified under a public key.
pub struct Session {
    challenge: Option<Vec<u8>>,
    verified: Option<PublicKey>,
}

impl View for Session {
    type V = SessionView;

    closed spec fn view(&self) -> SessionView {
        SessionView {
            challenge: match self.challenge {
                Some(ref c) => Some(c@),
                None => None,
            },
            verified: match self.verified {
                Some(ref k) => Some(k@),
                None => None,
            },
        }
    }
}

/// Whether a verification attempt against session state `s` succeeds.
pub open spec fn auth_ok(s: SessionView, pk: Seq<u8>, sig: Seq<u8>) -> bool {
    &&& s.challenge is Some
    &&& sig.len() == 64
    &&& ed25519_verifies(pk, s.challenge->0, sig)
}

/// The session state after a verification attempt: the challenge is consumed
/// whatever the outcome, and the verified key is recorded only on success.
pub open spec fn auth_next(s: SessionView, pk: Seq<u8>, sig: Seq<u8>) -> SessionView {
    if s.challenge is None {
        s
    } else if auth_ok(s, pk, sig) {
        SessionView { challenge: None, verified: Some(pk) }
    } else {
        SessionView { challenge: None, verified: s.verified }
    }
}

/// The outcome reported for a verification attempt.
pub open spec fn auth_result(s: SessionView, pk: Seq<u8>, sig: Seq<u8>) -> Result<(), ServerErr> {
    if s.challenge is None {
        Err(ServerErr::NoChallenge)
    } else if auth_ok(s, pk, sig) {
        Ok(())
    } else {
        Err(ServerErr::Unauthorized)
    }
}

impl Session {
    /// A fresh, unauthenticated session.
    pub fn new() -> (s: Session)
        ensures
            s@.challenge is None,
            s@.verified is None,
    {
        Session { challenge: None, verified: None }
    }

    /// Record a newly issued challenge. The caller supplies the 32 random
    /// bytes; issuing replaces any previous challenge.
    pub fn issue_challenge(&mut self, bytes: Vec<u8>)
        requires
            bytes@.len() == 32,
        ensures
            final(self)@.challenge == Some(bytes@),
            final(self)@.verified == old(self)@.verified,
    {
        self.challenge = Some(bytes);
    }

    /// Verify a signature over the outstanding challenge. The challenge is
    /// consumed whatever the outcome, so no challenge/signature pair can be
    /// replayed; on success the session becomes verified under the key.
    pub fn authenticate(&mut self, payload: &VerificationPayload) -> (r: Result<(), ServerErr>)
        ensures
            final(self)@ == auth_next(old(self)@, payload.public_key@, payload.signature@),
            r == auth_result(old(self)@, payload.public_key@, payload.signature@),
    {
        let taken = self.challenge.take();
        match taken {
            None => Err(ServerErr::NoChallenge),
            Some(challenge) => {
                if payload.signature.len() != 64 {
                    return Err(ServerErr::Unauthorized);
                }
                let mut sig: [u8; 64] = [0; 64];
                let mut i: usize = 0;
                while i < 64
                    invariant
                        i <= 64,
                        payload.signature@.len() == 64,
                        forall|k: int| 0 <= k < i ==> sig@[k] == payload.signature@[k],
                    decreases 64 - i,
                {
                    sig[i] = payload.signature[i];
                    i += 1;
                }
                assert(sig@ =~= payload.signature@);
                let pk_bytes = payload.public_key.to_bytes();
                if ed25519_verify(&pk_bytes, &challenge, &sig) {
                    self.verified = Some(payload.public_key);
                    Ok(())
                } else {
                    Err(ServerErr::Unauthorized)
                }
            },
        }
    }

    /// The key this session is verified under, if any.
    pub fn verified_key(&self) -> (r: Option<PublicKey>)
        ensures
            match r {
                Some(k) => self@.verified == Some(k@),
                None => self@.verified is None,
            },
    {
        match &self.verified {
            Some(k) => Some(*k),
            None => None,
        }
    }
}

/// Law: challenge replay is rejected. A verification attempt consumes the
/// outstanding challenge whatever its outcome, so a second attempt with any
/// payload — the same pair included — fails with `NoChallenge`.
pub proof fn lemma_challenge_replay_rejected(
    s: SessionView,
    pk: Seq<u8>,
    sig: Seq<u8>,
    pk2: Seq<u8>,
    sig2: Seq<u8>,
)
    requires
        s.challenge is Some,
    ensures
        auth_result(auth_next(s, pk, sig), pk2, sig2) == Err::<(), ServerErr>(
            ServerErr::NoChallenge,
        ),
{
}

/// Whether a claimed owner id names the key whose base64 form is `full`:
/// either the whole form (full-identity mode) or its leading 8 characters
/// (short-id mode).
pub open spec fn id_matches(full: Seq<char>, claimed: Seq<char>) -> bool {
    claimed == full || (claimed.len() == 8 && full.len() >= 8 && claimed == full.take(8))
}

/// The view of an optional recorded owner key.
pub open spec fn owner_view(o: Option<PublicKey>) -> Option<Seq<u8>> {
    match o {
        Some(k) => Some(k@),
        None => None,
    }
}

/// When a write to a topic is allowed: the session is verified, the claimed
/// owner id names the verified key, and a topic that already has a recorded
/// owner only accepts that same key.
pub open spec fn write_allowed(s: SessionView, claimed: Seq<char>, owner: Option<Seq<u8>>) -> bool {
    &&& s.verified is Some
    &&& id_matches(b64_of(s.verified->0), claimed)
    &&& (owner is Some ==> owner->0 == s.verified->0)
}

/// Gate a topic write. On success the verified key is returned, to be bound
/// as owner if the topic is new.
pub fn authorize_write(
    session: &Session,
    claimed_id: &str,
    topic_owner: &Option<PublicKey>,
) -> (r: Result<PublicKey, ServerErr>)
    ensures
        r is Ok <==> write_allowed(session@, claimed_id@, owner_view(*topic_owner)),
        r is Ok ==> r->Ok_0@ == session@.verified->0,
        r is Err ==> r->Err_0 == ServerErr::Unauthorized,
{
    let key = match session.verified_key() {
        Some(k) => k,
        None => {
            return Err(ServerErr::Unauthorized);
        },
    };
    let full = key.to_string();
    let claimed_len = claimed_id.unicode_len();
    let matches_full = str_eq(claimed_id, full.as_str());
    let matches_short = claimed_len == 8 && str_is_prefix(claimed_id, full.as_str());
    if !(matches_full || matches_short) {
        return Err(ServerErr::Unauthorized);
    }
    match topic_owner {
        Some(owner) => {
            if owner == &key {
                Ok(key)
            } else {
                Err(ServerErr::Unauthorized)
            }
        },
        None => Ok(key),
    }
}

/// Law: ownership binding. A topic whose record carries owner `p` refuses a
/// write by a session verified under any other key `q`, whatever owner id
/// the caller claims.
pub proof fn lemma_ownership_binding(s: SessionView, claimed: Seq<char>, p: Seq<u8>, q: Seq<u8>)
    requires
        s.verified == Some(q),
        p != q,
    ensures
        !write_allowed(s, claimed, Some(p)),
{
}

} // verus!
