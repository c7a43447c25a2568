//! The token cache: a keyed store with per-key expiry.
//!
//! It holds refresh-token records (`auth:refresh:<token>` mapping to a user
//! id) and blacklist markers (`auth:blacklist:<jti>`). An entry is live at
//! time `t` exactly while `t` lies before its expiry; a key written again is
//! overwritten. All operations are independent — there are no cross-key
//! transactions.

use vstd::prelude::*;
use vstd::string::StringExecFns;

use crate::ids;

verus! {

struct CacheEntry {
    key: String,
    value: String,
    expires_at: i64,
}

/// The cache as a map from key to (value, expiry), later writes winning.
spec fn entries_map(s: Seq<CacheEntry>) -> Map<Seq<char>, (Seq<char>, int)>
    decreases s.len(),
{
    if s.len() == 0 {
        Map::empty()
    } else {
        entries_map(s.drop_last()).insert(
            s.last().key@,
            (s.last().value@, s.last().expires_at as int),
        )
    }
}

/// The value live under `k` at time `now`, if any.
pub open spec fn spec_live(
    m: Map<Seq<char>, (Seq<char>, int)>,
    k: Seq<char>,
    now: int,
) -> Option<Seq<char>> {
    if m.contains_key(k) && m[k].1 > now {
        Some(m[k].0)
    } else {
        None
    }
}

pub open spec fn spec_refresh_key(token_id: Seq<char>) -> Seq<char> {
    "auth:refresh:"@ + token_id
}

pub open spec fn spec_blacklist_key(jti: Seq<char>) -> Seq<char> {
    "auth:blacklist:"@ + jti
}

/// The two key namespaces never collide: a refresh-token record can never
/// stand under a blacklist key, nor the reverse.
pub proof fn lemma_key_namespaces_disjoint(a: Seq<char>, b: Seq<char>)
    ensures
        spec_refresh_key(a) != spec_blacklist_key(b),
{
    reveal_strlit("auth:refresh:");
    reveal_strlit("auth:blacklist:");
    let ra = spec_refresh_key(a);
    let bb = spec_blacklist_key(b);
    if ra == bb {
        assert(ra[5] == 'r');
        assert(bb[5] == 'b');
    }
}

/// A matching index after which the key never recurs holds the map's entry.
proof fn lemma_map_at(s: Seq<CacheEntry>, k: Seq<char>, i: int)
    requires
        0 <= i < s.len(),
        s[i].key@ == k,
        forall|j: int| i < j < s.len() ==> s[j].key@ != k,
    ensures
        entries_map(s).contains_key(k),
        entries_map(s)[k] == (s[i].value@, s[i].expires_at as int),
    decreases s.len(),
{
    if i == s.len() - 1 {
    } else {
        assert(s[s.len() - 1].key@ != k);
        let t = s.drop_last();
        assert(t[i] == s[i]);
        assert(forall|j: int| i < j < t.len() ==> t[j] == s[j]);
        lemma_map_at(t, k, i);
    }
}

/// A key matching no entry is absent from the map.
proof fn lemma_map_absent(s: Seq<CacheEntry>, k: Seq<char>)
    requires
        forall|i: int| 0 <= i < s.len() ==> s[i].key@ != k,
    ensures
        !entries_map(s).contains_key(k),
    decreases s.len(),
{
    if s.len() > 0 {
        let t = s.drop_last();
        assert(forall|i: int| 0 <= i < t.len() ==> t[i] == s[i]);
        lemma_map_absent(t, k);
        assert(s[s.len() - 1].key@ != k);
    }
}

/// The keyed, expiring store for refresh tokens and the blacklist.
pub struct AuthTokenCacheRepository {
    entries: Vec<CacheEntry>,
}

impl AuthTokenCacheRepository {
    pub closed spec fn contents(&self) -> Map<Seq<char>, (Seq<char>, int)> {
        entries_map(self.entries@)
    }

    pub fn new() -> (r: Self)
        ensures
            r.contents() == Map::<Seq<char>, (Seq<char>, int)>::empty(),
    {
        AuthTokenCacheRepository { entries: Vec::new() }
    }

    /// The cache key of a refresh-token record.
    pub fn refresh_key(token_id: &str) -> (r: String)
        ensures
            r@ == spec_refresh_key(token_id@),
    {
        String::from_str("auth:refresh:").concat(token_id)
    }

    /// The cache key of a blacklist marker.
    pub fn blacklist_key(jti: &str) -> (r: String)
        ensures
            r@ == spec_blacklist_key(jti@),
    {
        String::from_str("auth:blacklist:").concat(jti)
    }

    /// Writes `key` to `value`, expiring `ttl_secs` after `now`.
    fn set_ex(&mut self, key: String, value: String, ttl_secs: u64, now: i64)
        requires
            0 <= now,
            now + ttl_secs <= i64::MAX,
        ensures
            final(self).contents() == old(self).contents().insert(
                key@,
                (value@, now + ttl_secs),
            ),
    {
        let ghost k = key@;
        let ghost v = value@;
        let entry = CacheEntry { key, value, expires_at: now + (ttl_secs as i64) };
        self.entries.push(entry);
        proof {
            assert(self.entries@.drop_last() =~= old(self).entries@);
            assert(self.entries@.last().key@ == k);
        }
    }

    /// The live value under `key` at `now`, if any.
    #[verifier::loop_isolation(false)]
    fn lookup(&self, key: &String, now: i64) -> (r: Option<String>)
        ensures
            match r {
                Some(s) => spec_live(self.contents(), key@, now as int) == Some(s@),
                None => spec_live(self.contents(), key@, now as int) is None,
            },
    {
        let mut i: usize = self.entries.len();
        while i > 0
            invariant
                i <= self.entries@.len(),
                forall|j: int| i <= j < self.entries@.len() ==> self.entries@[j].key@ != key@,
            decreases i,
        {
            i = i - 1;
            if self.entries[i].key == *key {
                proof {
                    lemma_map_at(self.entries@, key@, i as int);
                }
                if self.entries[i].expires_at > now {
                    return Some(self.entries[i].value.clone());
                } else {
                    return None;
                }
            }
        }
        proof {
            lemma_map_absent(self.entries@, key@);
        }
        None
    }

    /// Maps a refresh token to its user id for `ttl_secs` seconds,
    /// overwriting silently if the key already exists.
    pub fn store_refresh_token(&mut self, user_id: u128, token_id: &str, ttl_secs: u64, now: i64)
        requires
            0 <= now,
            now + ttl_secs <= i64::MAX,
        ensures
            final(self).contents() == old(self).contents().insert(
                spec_refresh_key(token_id@),
                (ids::uuid_str_of(user_id), now + ttl_secs),
            ),
            ids::uuid_of(ids::uuid_str_of(user_id)) == Some(user_id),
    {
        let key = Self::refresh_key(token_id);
        let value = ids::uuid_to_string(user_id);
        self.set_ex(key, value, ttl_secs, now);
    }

    /// The user id a refresh token maps to, while the record is live; absent
    /// means expired or never issued.
    pub fn get_refresh_token(&self, token_id: &str, now: i64) -> (r: Option<String>)
        ensures
            match r {
                Some(s) => spec_live(
                    self.contents(),
                    spec_refresh_key(token_id@),
                    now as int,
                ) == Some(s@),
                None => spec_live(self.contents(), spec_refresh_key(token_id@), now as int)
                    is None,
            },
    {
        let key = Self::refresh_key(token_id);
        self.lookup(&key, now)
    }

    /// Marks an access-token id revoked for `ttl_secs` seconds.
    pub fn blacklist_access_token(&mut self, jti: &str, ttl_secs: u64, now: i64)
        requires
            0 <= now,
            now + ttl_secs <= i64::MAX,
        ensures
            final(self).contents() == old(self).contents().insert(
                spec_blacklist_key(jti@),
                ("true"@, now + ttl_secs),
            ),
    {
        let key = Self::blacklist_key(jti);
        let value = String::from_str("true");
        self.set_ex(key, value, ttl_secs, now);
    }

    /// Whether an access-token id carries a live blacklist marker; absence
    /// means not blacklisted.
    pub fn is_access_token_blacklisted(&self, jti: &str, now: i64) -> (r: bool)
        ensures
            r == (spec_live(self.contents(), spec_blacklist_key(jti@), now as int) is Some),
    {
        let key = Self::blacklist_key(jti);
        match self.lookup(&key, now) {
            Some(_) => true,
            None => false,
        }
    }
}

} // verus!
