use vstd::prelude::*;
use vstd::string::StrSliceExecFns;
use vstd::string::StringExecFns;

use crate::text::{clone_opt_string, str_eq};

verus! {

/// The error kinds of the authentication subsystem.
#[derive(Debug, Clone, PartialEq, Eq)]
pub enum Error {
    /// No key pair matched, a token did not verify, or its claim expired.
    Unauthorized,
    /// The key storage could not complete the operation.
    StorageFailure,
}

/// The claims carried by a bearer token: when it was issued and when it
/// expires, both in seconds since the Unix epoch.
#[derive(Debug, Clone, Copy, PartialEq, Eq, Structural)]
pub struct Claims {
    pub iat: i64,
    pub exp: i64,
}

/// An access/secret key pair presented to obtain a token.
#[derive(Debug)]
pub struct Login {
    pub access: String,
    pub secret: String,
}

/// The abstract value of a stored API key.
pub struct KeyView {
    pub id: i32,
    pub access: Seq<char>,
    pub secret: Seq<char>,
    pub description: Option<Seq<char>>,
    pub expired_at: Option<i64>,
}

/// A stored API key: the access part is unique; a key without an expiry
/// never expires.
#[derive(Debug)]
pub struct Key {
    pub id: i32,
    pub access: String,
    pub secret: String,
    pub description: Option<String>,
    pub expired_at: Option<i64>,
}

impl View for Key {
    type V = KeyView;

    open spec fn view(&self) -> KeyView {
        KeyView {
            id: self.id,
            access: self.access@,
            secret: self.secret@,
            description: match self.description {
                Some(d) => Some(d@),
                None => None,
            },
            expired_at: self.expired_at,
        }
    }
}

impl DeepView for Key {
    type V = KeyView;

    open spec fn deep_view(&self) -> KeyView {
        self.view()
    }
}

/// The fields a caller supplies when storing a new API key.
#[derive(Debug)]
pub struct KeyToCreate {
    pub access: String,
    pub secret: String,
    pub description: Option<String>,
    pub expired_at: Option<i64>,
}

/// The in-memory storage behind the API-key table: ids and access parts
/// are unique.
#[derive(Debug)]
pub struct KeyStorage {
    pub keys: Vec<Key>,
    pub next_key_id: i32,
}

impl KeyStorage {
    /// The key rows as abstract values, in insertion order.
    pub open spec fn keys_view(&self) -> Seq<KeyView> {
        self.keys.deep_view()
    }

    /// The key table's invariants: unique ids below the counter, and a
    /// unique access part for each key.
    pub open spec fn wf(&self) -> bool {
        &&& 1 <= self.next_key_id
        &&& (forall|i: int, j: int|
            0 <= i < j < self.keys_view().len() ==> (#[trigger] self.keys_view()[i]).id
                != (#[trigger] self.keys_view()[j]).id)
        &&& (forall|i: int, j: int|
            0 <= i < j < self.keys_view().len() ==> (#[trigger] self.keys_view()[i]).access
                != (#[trigger] self.keys_view()[j]).access)
        &&& (forall|i: int|
            0 <= i < self.keys_view().len() ==> 1 <= (#[trigger] self.keys_view()[i]).id
                < self.next_key_id)
    }

    /// An empty key storage.
    pub fn new() -> (r: KeyStorage)
        ensures
            r.wf(),
            r.keys_view() =~= Seq::<KeyView>::empty(),
            r.next_key_id == 1,
    {
        KeyStorage { keys: Vec::new(), next_key_id: 1 }
    }
}

/// Whether some stored key already uses this access part.
pub open spec fn has_access(keys: Seq<KeyView>, access: Seq<char>) -> bool {
    exists|i: int| 0 <= i < keys.len() && (#[trigger] keys[i]).access == access
}

/// Stores a new API key. Fails exactly when the access part is already
/// taken or the id space is exhausted.
pub fn create(ks: &mut KeyStorage, arg: &KeyToCreate) -> (r: Result<usize, Error>)
    requires
        old(ks).wf(),
    ensures
        final(ks).wf(),
        ({
            if has_access(old(ks).keys_view(), arg.access@) || old(ks).next_key_id == i32::MAX {
                &&& r == Err::<usize, Error>(Error::StorageFailure)
                &&& final(ks).keys_view() == old(ks).keys_view()
                &&& final(ks).next_key_id == old(ks).next_key_id
            } else {
                &&& r == Ok::<usize, Error>(1)
                &&& final(ks).next_key_id == old(ks).next_key_id + 1
                &&& final(ks).keys_view() == old(ks).keys_view().push(
                    KeyView {
                        id: old(ks).next_key_id,
                        access: arg.access@,
                        secret: arg.secret@,
                        description: match arg.description {
                            Some(d) => Some(d@),
                            None => None,
                        },
                        expired_at: arg.expired_at,
                    },
                )
            }
        }),
{
    let ghost s0 = *ks;
    proof {
        assert(s0 == *old(ks));
    }
    let mut k: usize = 0;
    while k < ks.keys.len()
        invariant
            *ks == s0,
            s0 == *old(ks),
            s0.wf(),
            0 <= k <= ks.keys.len(),
            forall|j: int| 0 <= j < k ==> (#[trigger] s0.keys_view()[j]).access != arg.access@,
        decreases ks.keys.len() - k,
    {
        if str_eq(ks.keys[k].access.as_str(), arg.access.as_str()) {
            proof {
                assert((#[trigger] s0.keys_view()[k as int]).access == arg.access@);
            }
            return Err(Error::StorageFailure);
        }
        k = k + 1;
    }
    if ks.next_key_id == i32::MAX {
        return Err(Error::StorageFailure);
    }
    let row = Key {
        id: ks.next_key_id,
        access: arg.access.clone(),
        secret: arg.secret.clone(),
        description: clone_opt_string(&arg.description),
        expired_at: arg.expired_at,
    };
    ks.keys.push(row);
    ks.next_key_id = ks.next_key_id + 1;
    proof {
        let newk = KeyView {
            id: s0.next_key_id,
            access: arg.access@,
            secret: arg.secret@,
            description: match &arg.description {
                Some(d) => Some(d@),
                None => None,
            },
            expired_at: arg.expired_at,
        };
        let kv = ks.keys_view();
        assert(kv =~= s0.keys_view().push(newk));
        assert forall|i: int, j: int|
            0 <= i < j < kv.len() implies (#[trigger] kv[i]).id != (#[trigger] kv[j]).id && kv[i].access
            != kv[j].access by {
            if j < s0.keys_view().len() {
                assert(s0.keys_view()[i].id != s0.keys_view()[j].id);
                assert(s0.keys_view()[i].access != s0.keys_view()[j].access);
            } else {
                assert(kv[j] == newk);
                assert(1 <= (#[trigger] s0.keys_view()[i]).id < s0.next_key_id);
                assert(s0.keys_view()[i].access != arg.access@);
            }
        }
        assert forall|i: int|
            0 <= i < kv.len() implies 1 <= (#[trigger] kv[i]).id < ks.next_key_id by {
            if i < s0.keys_view().len() {
                assert(1 <= (#[trigger] s0.keys_view()[i]).id < s0.next_key_id);
            }
        }
    }
    Ok(1)
}

/// Whether a stored key authorizes the given pair at the given time: the
/// parts match and the key has not expired.
pub open spec fn key_matches(k: KeyView, access: Seq<char>, secret: Seq<char>, now: i64) -> bool {
    &&& k.access == access
    &&& k.secret == secret
    &&& match k.expired_at {
        Some(e) => e > now,
        None => true,
    }
}

/// Whether any stored, unexpired key carries the given access and secret
/// parts at time `now`.
pub fn exists_key(ks: &KeyStorage, access: &str, secret: &str, now: i64) -> (r: Result<bool, Error>)
    ensures
        r matches Ok(b) && b == exists|i: int|
            0 <= i < ks.keys_view().len() && key_matches(
                #[trigger] ks.keys_view()[i],
                access@,
                secret@,
                now,
            ),
{
    let mut k: usize = 0;
    while k < ks.keys.len()
        invariant
            0 <= k <= ks.keys.len(),
            forall|j: int|
                0 <= j < k ==> !key_matches(#[trigger] ks.keys_view()[j], access@, secret@, now),
        decreases ks.keys.len() - k,
    {
        let key = &ks.keys[k];
        let unexpired = match key.expired_at {
            Some(e) => e > now,
            None => true,
        };
        if unexpired && str_eq(key.access.as_str(), access) && str_eq(key.secret.as_str(), secret) {
            proof {
                assert(key_matches(#[trigger] ks.keys_view()[k as int], access@, secret@, now));
            }
            return Ok(true);
        }
        k = k + 1;
    }
    Ok(false)
}

/// The characters an API key is drawn from.
pub open spec fn key_charset() -> Seq<char> {
    "abcdefghijklmnopqrstuvwxyzABCDEFGHIJKLMNOPQRSTUVWXYZ0123456789!@#$%^&*_-"@
}

/// Relies on `rand::thread_rng` and `rand::Rng::gen_range`: a random index
/// below `bound`. Nothing more is promised of a random draw.
#[verifier::external_body]
fn random_below(bound: usize) -> (r: usize)
    requires
        bound > 0,
    ensures
        r < bound,
{
    rand::Rng::gen_range(&mut rand::thread_rng(), 0..bound)
}

/// Draws a fresh 64-character key over the key charset.
pub fn generate_key() -> (r: String)
    ensures
        r@.len() == 64,
        forall|j: int| 0 <= j < 64 ==> key_charset().contains(#[trigger] r@[j]),
{
    let charset = "abcdefghijklmnopqrstuvwxyzABCDEFGHIJKLMNOPQRSTUVWXYZ0123456789!@#$%^&*_-";
    proof {
        reveal_strlit("abcdefghijklmnopqrstuvwxyzABCDEFGHIJKLMNOPQRSTUVWXYZ0123456789!@#$%^&*_-");
        assert(charset@.len() == 72);
    }
    let mut key = String::new();
    let mut k: usize = 0;
    while k < 64
        invariant
            charset@ == key_charset(),
            charset@.len() == 72,
            0 <= k <= 64,
            key@.len() == k,
            forall|j: int| 0 <= j < k ==> key_charset().contains(#[trigger] key@[j]),
        decreases 64 - k,
    {
        let idx = random_below(72);
        let c = charset.substring_char(idx, idx + 1);
        let ghost key_before = key@;
        key.append(c);
        proof {
            assert(key@ =~= key_before + charset@.subrange(idx as int, idx + 1));
            assert(key@[k as int] == charset@[idx as int]);
            assert(key_charset().contains(key@[k as int]));
        }
        k = k + 1;
    }
    key
}

/// Creates and stores a fresh access/secret key pair; storage trouble is
/// ignored, as the caller still receives the pair it asked for. The pair is
/// stored exactly when the drawn access part is not already taken and an id
/// remains.
pub fn create_key_pair(ks: &mut KeyStorage, description: Option<&str>) -> (r: (String, String))
    requires
        old(ks).wf(),
    ensures
        final(ks).wf(),
        r.0@.len() == 64,
        r.1@.len() == 64,
        ({
            if has_access(old(ks).keys_view(), r.0@) || old(ks).next_key_id == i32::MAX {
                &&& final(ks).keys_view() == old(ks).keys_view()
                &&& final(ks).next_key_id == old(ks).next_key_id
            } else {
                &&& final(ks).next_key_id == old(ks).next_key_id + 1
                &&& final(ks).keys_view() == old(ks).keys_view().push(
                    KeyView {
                        id: old(ks).next_key_id,
                        access: r.0@,
                        secret: r.1@,
                        description: match description {
                            Some(d) => Some(d@),
                            None => None,
                        },
                        expired_at: None,
                    },
                )
            }
        }),
{
    let access_key = generate_key();
    let secret_key = generate_key();
    let arg = KeyToCreate {
        access: access_key.clone(),
        secret: secret_key.clone(),
        description: match description {
            Some(d) => Some(d.to_owned()),
            None => None,
        },
        expired_at: None,
    };
    let _ = create(ks, &arg);
    (access_key, secret_key)
}

/// Whether a token's claims are still valid at time `now`: the expiry lies
/// strictly in the future.
pub fn claims_valid(claims: &Claims, now: i64) -> (r: bool)
    ensures
        r == (claims.exp > now),
{
    claims.exp > now
}

/// How long an issued token lives, in seconds.
pub open spec fn token_lifetime() -> int {
    3600
}

/// The claims of a token issued at `now`: issued now, expiring one token
/// lifetime later.
pub fn issue_claims(now: i64) -> (r: Claims)
    requires
        now + token_lifetime() <= i64::MAX,
    ensures
        r.iat == now,
        r.exp == now + token_lifetime(),
{
    Claims { iat: now, exp: now + 3600 }
}

/// Decides whether a presented pair may receive a token at time `now`, and
/// with which claims: a matching unexpired key yields claims issued at `now`
/// that live for the token lifetime; anything else is unauthorized.
pub fn authorize(ks: &KeyStorage, access: &str, secret: &str, now: i64) -> (r: Result<Claims, Error>)
    requires
        now + token_lifetime() <= i64::MAX,
    ensures
        (exists|i: int|
            0 <= i < ks.keys_view().len() && key_matches(
                #[trigger] ks.keys_view()[i],
                access@,
                secret@,
                now,
            )) ==> (r matches Ok(c) && c.iat == now && c.exp == now + token_lifetime()),
        !(exists|i: int|
            0 <= i < ks.keys_view().len() && key_matches(
                #[trigger] ks.keys_view()[i],
                access@,
                secret@,
                now,
            )) ==> (r matches Err(e) && e == Error::Unauthorized),
{
    let found = match exists_key(ks, access, secret, now) {
        Ok(b) => b,
        Err(_) => false,
    };
    if found {
        Ok(issue_claims(now))
    } else {
        Err(Error::Unauthorized)
    }
}

} // verus!
