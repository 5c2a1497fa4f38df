//! Credential checks and token issuance.
//!
//! A stored password hash is the base64 text of the SHA-256 digest of the
//! password, with no salt. Digests are compared in time that depends only on
//! their length.
use crate::models::{Claims, User};
use crate::store::{has_user, wf, Store};
use sha2::Digest;
use vstd::prelude::*;

verus! {

/// The SHA-256 digest of the UTF-8 encoding of a text.
pub uninterp spec fn sha256_of(t: Seq<char>) -> Seq<u8>;

/// The standard base64 text (with padding) of a byte string.
pub uninterp spec fn base64_of(b: Seq<u8>) -> Seq<char>;

/// The bytes that standard base64 text decodes to, or `None` where it is not valid base64.
pub uninterp spec fn base64_decoded(t: Seq<u8>) -> Option<Seq<u8>>;

/// The HS256-signed token over the claims `{"iat": iat, "name": name}` with this secret,
/// or `None` where signing fails.
pub uninterp spec fn hs256_token_of(name: Seq<char>, iat: u64, secret: Seq<char>) -> Option<Seq<char>>;

/// Relies on sha2::Sha256::digest: the 32-byte SHA-256 digest of the text's UTF-8 bytes.
#[verifier::external_body]
fn sha256(t: &str) -> (r: Vec<u8>)
    ensures
        r@ == sha256_of(t@),
        r@.len() == 32,
{
    sha2::Sha256::digest(t.as_bytes()).to_vec()
}

/// Relies on base64::encode: the standard base64 text of the input.
#[verifier::external_body]
fn base64_encode(b: &[u8]) -> (r: String)
    ensures
        r@ == base64_of(b@),
{
    base64::encode(b)
}

/// Relies on base64::decode: the decoded bytes, or `None` where the input is not valid base64.
#[verifier::external_body]
fn base64_decode(t: &[u8]) -> (r: Option<Vec<u8>>)
    ensures
        match r {
            Some(v) => base64_decoded(t@) == Some(v@),
            None => base64_decoded(t@) is None,
        },
{
    match base64::decode(t) {
        Ok(v) => Some(v),
        Err(_) => None,
    }
}

/// Relies on frank_jwt::encode with HS256: signs the claims as a JSON object
/// `{"iat", "name"}` under a header that frank_jwt fills with `alg` and `typ`.
#[verifier::external_body]
fn sign_claims(claims: &Claims, secret: &str) -> (r: Option<String>)
    ensures
        match r {
            Some(t) => hs256_token_of(claims.name@, claims.iat, secret@) == Some(t@),
            None => hs256_token_of(claims.name@, claims.iat, secret@) is None,
        },
{
    let mut payload = serde_json::Map::new();
    payload.insert("iat".to_string(), serde_json::Value::from(claims.iat));
    payload.insert("name".to_string(), serde_json::Value::from(claims.name.as_str()));
    let header = serde_json::Value::Object(serde_json::Map::new());
    let body = serde_json::Value::Object(payload);
    match frank_jwt::encode(header, &secret.to_string(), &body, frank_jwt::Algorithm::HS256) {
        Ok(t) => Some(t),
        Err(_) => None,
    }
}

/// Whether `pass` matches the stored hash text `stored`.
pub open spec fn password_matches(stored: Seq<u8>, pass: Seq<char>) -> bool {
    base64_decoded(stored) == Some(sha256_of(pass))
}

/// Compares two digests; for equal lengths every byte is looked at, whatever differs.
pub fn digests_match(a: &[u8], b: &[u8]) -> (r: bool)
    ensures
        r == (a@ == b@),
{
    if a.len() != b.len() {
        return false;
    }
    let mut acc: u8 = 0;
    let mut i: usize = 0;
    while i < a.len()
        invariant
            i <= a.len(),
            a.len() == b.len(),
            (acc == 0) == (forall|k: int| 0 <= k < i ==> #[trigger] a@[k] == b@[k]),
        decreases a.len() - i,
    {
        let x = a[i];
        let y = b[i];
        let next = acc | (x ^ y);
        assert(next == 0 <==> (acc == 0 && x == y)) by (bit_vector)
            requires
                next == acc | (x ^ y),
        ;
        acc = next;
        i += 1;
    }
    if acc == 0 {
        assert(a@ =~= b@);
    }
    acc == 0
}

impl User {
    /// The stored form of a password: base64 text of its SHA-256 digest.
    pub fn hash_pw(s: &str) -> (r: String)
        ensures
            r@ == base64_of(sha256_of(s@)),
    {
        let h = sha256(s);
        base64_encode(h.as_slice())
    }

    /// Whether `pass` is this user's password; stored text that is not valid
    /// base64 matches no password.
    pub fn verifies(&self, pass: &str) -> (r: bool)
        ensures
            r == password_matches(self.password_hash@, pass@),
    {
        match base64_decode(self.password_hash.as_slice()) {
            Some(orig) => {
                let h = sha256(pass);
                digests_match(orig.as_slice(), h.as_slice())
            },
            None => false,
        }
    }

    /// The user with this username, where `pass` is that user's password.
    pub fn check_user(store: &Store, username: &str, pass: &str) -> (r: Option<User>)
        requires
            wf(store@),
        ensures
            match r {
                Some(u) => (exists|k: int| 0 <= k < store@.users.len() && #[trigger] store@.users[k] == u@)
                    && u@.username == username@ && password_matches(u@.password_hash, pass@),
                None => forall|k: int|
                    0 <= k < store@.users.len() && #[trigger] store@.users[k].username == username@
                        ==> !password_matches(store@.users[k].password_hash, pass@),
            },
    {
        match store.get_user(username) {
            Some(user) => {
                if user.verifies(pass) {
                    Some(user)
                } else {
                    proof {
                        let j = choose|j: int| 0 <= j < store@.users.len() && #[trigger] store@.users[j] == user@;
                        assert forall|k: int|
                            0 <= k < store@.users.len() && #[trigger] store@.users[k].username == username@
                                implies !password_matches(store@.users[k].password_hash, pass@) by {
                            if k < j {
                                assert(store@.users[k].username != store@.users[j].username);
                            } else if k > j {
                                assert(store@.users[j].username != store@.users[k].username);
                            }
                        }
                    }
                    None
                }
            },
            None => {
                assert(!has_user(store@, username@));
                None
            },
        }
    }
}

/// Signs a token for `user` issued at `iat` (seconds since the epoch); no
/// token without a configured secret.
pub fn generate_jwt(user: &str, iat: u64, secret: Option<&str>) -> (r: Option<String>)
    ensures
        secret is None ==> r is None,
        secret is Some ==> match r {
            Some(t) => hs256_token_of(user@, iat, secret->0@) == Some(t@),
            None => hs256_token_of(user@, iat, secret->0@) is None,
        },
{
    match secret {
        Some(k) => {
            let claims = Claims { name: user.to_owned(), iat };
            sign_claims(&claims, k)
        },
        None => None,
    }
}

} // verus!
