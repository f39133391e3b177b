use vstd::prelude::*;

use crate::dict::StrDict;
use crate::strutil::string_clone;

verus! {

/// The capability set of a cache backend: best-effort reads and writes of
/// string values by string key.
pub trait Cache {
    fn get(&self, key: &str) -> Option<String>;

    fn set(&mut self, key: &str, value: &str);

    fn delete(&mut self, key: &str) -> Option<()>;
}

/// A process-local cache: a plain map that grows without bound.
pub struct InMemCache {
    map: StrDict,
}

impl View for InMemCache {
    type V = Map<Seq<char>, Seq<char>>;

    closed spec fn view(&self) -> Map<Seq<char>, Seq<char>> {
        self.map.to_map()
    }
}

impl InMemCache {
    /// The backing map holds each key once.
    pub closed spec fn wf(&self) -> bool {
        self.map.wf()
    }

    pub fn new() -> (r: InMemCache)
        ensures
            r@ == Map::<Seq<char>, Seq<char>>::empty(),
            r.wf(),
    {
        InMemCache { map: StrDict::new() }
    }

    /// The value stored under `key`, if any.
    pub fn lookup(&self, key: &str) -> (r: Option<String>)
        ensures
            match r {
                Some(v) => self@.contains_key(key@) && self@[key@] == v@,
                None => !self@.contains_key(key@),
            },
    {
        proof {
            crate::dict::lemma_entries_get_map(self.map@, key@);
        }
        match self.map.get(key) {
            Some(v) => Some(string_clone(v)),
            None => None,
        }
    }

    /// Stores `value` under `key`, overwriting unconditionally.
    pub fn store(&mut self, key: &str, value: &str)
        ensures
            final(self)@ == old(self)@.insert(key@, value@),
            old(self).wf() ==> final(self).wf(),
    {
        self.map.insert(String::from_str(key), String::from_str(value));
    }

    /// Removes the value under `key`; reports whether one was present.
    pub fn erase(&mut self, key: &str) -> (present: bool)
        ensures
            final(self)@ == old(self)@.remove(key@),
            old(self).wf() ==> final(self).wf(),
            present == old(self)@.contains_key(key@),
    {
        proof {
            crate::dict::lemma_entries_get_map(self.map@, key@);
            crate::dict::lemma_entries_remove_map(self.map@, key@);
        }
        self.map.remove(key)
    }
}

impl Cache for InMemCache {
    fn get(&self, key: &str) -> (r: Option<String>) {
        self.lookup(key)
    }

    fn set(&mut self, key: &str, value: &str) {
        self.store(key, value);
    }

    fn delete(&mut self, key: &str) -> (r: Option<()>) {
        if self.erase(key) {
            Some(())
        } else {
            None
        }
    }
}

/// A cache backed by a remote key-value server. Every operation is
/// best-effort: a failure reads as a miss and writes are dropped.
pub struct RedisCache {
    client: redis::Client,
}

#[verifier::external_type_specification]
#[verifier::external_body]
pub struct ExRedisClient(redis::Client);

/// Whether the text is a connection URL the client accepts; a function of
/// the text alone.
pub uninterp spec fn redis_url_ok(url: Seq<char>) -> bool;

impl RedisCache {
    /// Opens a client for the given URL.
    /// Relies on `redis::Client::open`, which only parses the URL — no
    /// network is touched — so acceptance is a function of the text.
    #[verifier::external_body]
    pub fn new(url: &str) -> (r: Result<RedisCache, String>)
        ensures
            (r is Ok) == redis_url_ok(url@),
    {
        match redis::Client::open(url) {
            Ok(client) => Ok(RedisCache { client }),
            Err(e) => Err(e.to_string()),
        }
    }

    /// Reads `key` from the server; any failure is a miss.
    /// Relies on `redis::Commands::get`; the result depends on the server's
    /// state, so nothing is promised of it.
    #[verifier::external_body]
    pub fn lookup(&self, key: &str) -> Option<String> {
        let mut con = self.client.get_connection().ok()?;
        redis::Commands::get::<&str, Option<String>>(&mut con, key).ok().flatten()
    }

    /// Writes `key` on the server; failures are dropped.
    /// Relies on `redis::Commands::set`.
    #[verifier::external_body]
    pub fn store(&self, key: &str, value: &str) {
        if let Ok(mut con) = self.client.get_connection() {
            let _ = redis::Commands::set::<&str, &str, ()>(&mut con, key, value);
        }
    }

    /// Deletes `key` on the server; reports only whether the call went
    /// through. Relies on `redis::Commands::del`.
    #[verifier::external_body]
    pub fn erase(&self, key: &str) -> Option<()> {
        let mut con = self.client.get_connection().ok()?;
        redis::Commands::del::<&str, ()>(&mut con, key).ok().map(|_| ())
    }
}

impl Cache for RedisCache {
    fn get(&self, key: &str) -> (r: Option<String>) {
        self.lookup(key)
    }

    fn set(&mut self, key: &str, value: &str) {
        self.store(key, value);
    }

    fn delete(&mut self, key: &str) -> (r: Option<()>) {
        self.erase(key)
    }
}

/// The cache the renderer works against: one of the two backends.
pub enum CacheHandle {
    Mem(InMemCache),
    Redis(RedisCache),
}

impl CacheHandle {
    /// The model of the in-memory backend, where there is one.
    pub open spec fn mem_map(&self) -> Map<Seq<char>, Seq<char>> {
        self->Mem_0@
    }

    pub open spec fn wf(&self) -> bool {
        self is Mem ==> self->Mem_0.wf()
    }

    /// Reads a key: exact on the in-memory backend, best-effort on the
    /// networked one.
    pub fn get(&self, key: &str) -> (r: Option<String>)
        ensures
            self is Mem ==> match r {
                Some(v) => self.mem_map().contains_key(key@) && self.mem_map()[key@] == v@,
                None => !self.mem_map().contains_key(key@),
            },
    {
        match self {
            CacheHandle::Mem(c) => c.lookup(key),
            CacheHandle::Redis(c) => c.lookup(key),
        }
    }

    /// Writes a key, overwriting unconditionally on the in-memory backend.
    pub fn set(&mut self, key: &str, value: &str)
        ensures
            (*old(self)) is Mem ==> (*final(self)) is Mem && final(self).mem_map() == old(
                self,
            ).mem_map().insert(key@, value@),
            (*old(self)) is Redis ==> *final(self) == *old(self),
            old(self).wf() ==> final(self).wf(),
    {
        match self {
            CacheHandle::Mem(c) => c.store(key, value),
            CacheHandle::Redis(c) => c.store(key, value),
        }
    }

    /// Deletes a key; on the in-memory backend the answer says whether a
    /// value was present.
    pub fn delete(&mut self, key: &str) -> (r: Option<()>)
        ensures
            old(self).wf() ==> final(self).wf(),
            (*old(self)) is Mem ==> (*final(self)) is Mem && final(self).mem_map() == old(
                self,
            ).mem_map().remove(key@) && (r is Some) == old(self).mem_map().contains_key(key@),
            (*old(self)) is Redis ==> *final(self) == *old(self),
    {
        match self {
            CacheHandle::Mem(c) => {
                if c.erase(key) {
                    Some(())
                } else {
                    None
                }
            },
            CacheHandle::Redis(c) => c.erase(key),
        }
    }
}

/// A write followed by a read of the same key sees the written value: the
/// in-memory cache's round-trip law, stated over the model transitions that
/// `store` and `lookup` guarantee.
pub proof fn lemma_cache_set_then_get(
    pre: Map<Seq<char>, Seq<char>>,
    post: Map<Seq<char>, Seq<char>>,
    k: Seq<char>,
    v: Seq<char>,
    got: Option<Seq<char>>,
)
    requires
        post == pre.insert(k, v),
        got == if post.contains_key(k) {
            Some(post[k])
        } else {
            None::<Seq<char>>
        },
    ensures
        got == Some(v),
{
}

/// A delete reports a value exactly when one was stored, and afterwards the
/// key reads as missing.
pub proof fn lemma_cache_delete(
    pre: Map<Seq<char>, Seq<char>>,
    post: Map<Seq<char>, Seq<char>>,
    k: Seq<char>,
    present: bool,
)
    requires
        post == pre.remove(k),
        present == pre.contains_key(k),
    ensures
        present == pre.dom().contains(k),
        !post.contains_key(k),
{
}

} // verus!
