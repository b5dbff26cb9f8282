//! The keyspace: typed values under byte-string keys, their expiry times and use,
//! and the clients that watch keys.

use vstd::prelude::*;

use crate::bytes::{dup, dup_all, same, views};
use crate::dict::Dict;
use crate::error::{ErrV, RedisError};
use crate::json_data::{json_ok, Json, JsonV};
use crate::stream_data::{InlineStream, StreamV};

verus! {

/// The encoding that a set was promoted to, from the smallest to the largest.
#[derive(Clone, Copy, PartialEq, Eq, Structural, Debug)]
pub enum InlineSetEncoding {
    /// The smallest encoding that the members allow.
    Auto,
    /// At least the listpack encoding.
    ForcedListpack,
    /// The hash-table encoding.
    ForcedHashtable,
}

/// A set of byte strings. No member occurs twice.
pub struct InlineSet {
    pub data: Vec<Vec<u8>>,
    pub sticky: InlineSetEncoding,
}

/// What a set holds.
#[verifier::ext_equal]
pub struct SetV {
    pub members: Seq<Seq<u8>>,
    pub sticky: InlineSetEncoding,
}

impl View for InlineSet {
    type V = SetV;

    open spec fn view(&self) -> SetV {
        SetV { members: views(self.data@), sticky: self.sticky }
    }
}

impl InlineSet {
    /// No member occurs twice.
    pub open spec fn wf(self) -> bool {
        self@.members.no_duplicates()
    }

    /// An empty set.
    pub fn new() -> (r: InlineSet)
        ensures
            r.wf(),
            r@ == new_set(),
    {
        let r = InlineSet { data: Vec::new(), sticky: InlineSetEncoding::Auto };
        assert(r@ =~= new_set());
        r
    }

    /// A copy of the set.
    pub fn dup(&self) -> (r: InlineSet)
        ensures
            r@ == self@,
    {
        InlineSet { data: dup_all(&self.data), sticky: self.sticky }
    }
}

/// An empty set.
pub open spec fn new_set() -> SetV {
    SetV { members: Seq::empty(), sticky: InlineSetEncoding::Auto }
}

/// A value.
pub enum RedisObject {
    Str(Vec<u8>),
    List(Vec<Vec<u8>>),
    Members(InlineSet),
    Stream(InlineStream),
    Json(Json),
    /// A value of a type whose commands live elsewhere, in serialized form.
    Opaque(Vec<u8>),
}

/// What a value holds.
#[verifier::ext_equal]
pub enum ObjV {
    Str(Seq<u8>),
    List(Seq<Seq<u8>>),
    Members(SetV),
    Stream(StreamV),
    Json(JsonV),
    Opaque(Seq<u8>),
}

impl View for RedisObject {
    type V = ObjV;

    open spec fn view(&self) -> ObjV {
        match self {
            RedisObject::Str(s) => ObjV::Str(s@),
            RedisObject::List(l) => ObjV::List(views(l@)),
            RedisObject::Members(s) => ObjV::Members(s@),
            RedisObject::Stream(s) => ObjV::Stream(s@),
            RedisObject::Json(j) => ObjV::Json(j@),
            RedisObject::Opaque(b) => ObjV::Opaque(b@),
        }
    }
}

impl RedisObject {
    /// The value keeps the invariant of its type.
    pub open spec fn wf(self) -> bool {
        match self {
            RedisObject::Members(s) => s.wf(),
            RedisObject::Stream(s) => s.wf(),
            RedisObject::Json(j) => json_ok(j@),
            _ => true,
        }
    }
}

/// A client that watches a key.
pub struct Watch {
    pub key: Vec<u8>,
    pub client: u64,
}

/// How a key was used, as told when it was stored.
#[derive(Clone, Copy, PartialEq, Eq, Structural, Debug)]
pub struct KeyUse {
    /// The seconds since the key was used, or -1 where that was not told.
    pub lru_idle: i64,
    /// How often the key is used, or -1 where that was not told.
    pub lfu_freq: i64,
}

impl View for KeyUse {
    type V = KeyUse;

    open spec fn view(&self) -> KeyUse {
        *self
    }
}

/// A database.
pub struct RedisDb {
    pub objects: Dict<RedisObject>,
    pub expires: Dict<i64>,
    pub uses: Dict<KeyUse>,
    pub watches: Vec<Watch>,
    pub dirty_clients: Vec<u64>,
}

/// What a database holds: values, expiry times, what was told of the use of keys,
/// watched keys with the clients that watch them, and the clients whose watched
/// keys were changed.
#[verifier::ext_equal]
pub struct DbV {
    pub objects: Map<Seq<u8>, ObjV>,
    pub expires: Map<Seq<u8>, i64>,
    pub uses: Map<Seq<u8>, KeyUse>,
    pub watchers: Set<(Seq<u8>, u64)>,
    pub dirty: Set<u64>,
}

/// Whether a list of watches has that key and client.
pub open spec fn watches_have(w: Seq<Watch>, key: Seq<u8>, client: u64) -> bool {
    exists|i: int| 0 <= i < w.len() && (#[trigger] w[i]).key@ == key && w[i].client == client
}

impl View for RedisDb {
    type V = DbV;

    open spec fn view(&self) -> DbV {
        DbV {
            objects: self.objects@,
            expires: self.expires@,
            uses: self.uses@,
            watchers: Set::new(|p: (Seq<u8>, u64)| watches_have(self.watches@, p.0, p.1)),
            dirty: Set::new(|c: u64| self.dirty_clients@.contains(c)),
        }
    }
}

/// The database after a key was changed: its watchers are dirty.
pub open spec fn db_touch(d: DbV, key: Seq<u8>) -> DbV {
    DbV { dirty: d.dirty.union(Set::new(|c: u64| d.watchers.contains((key, c)))), ..d }
}

/// The database after a value was stored. The expiry time goes unless it is
/// kept, and what was told of the use of the key goes.
pub open spec fn db_set(d: DbV, key: Seq<u8>, value: ObjV, keep_ttl: bool) -> DbV {
    db_touch(
        DbV {
            objects: d.objects.insert(key, value),
            expires: if keep_ttl {
                d.expires
            } else {
                d.expires.remove(key)
            },
            uses: d.uses.remove(key),
            ..d
        },
        key,
    )
}

/// The database after a value changed in place.
pub open spec fn db_update(d: DbV, key: Seq<u8>, value: ObjV) -> DbV {
    DbV { objects: d.objects.insert(key, value), ..d }
}

/// The database after a key was deleted.
pub open spec fn db_delete(d: DbV, key: Seq<u8>) -> DbV {
    if d.objects.contains_key(key) {
        db_touch(
            DbV {
                objects: d.objects.remove(key),
                expires: d.expires.remove(key),
                uses: d.uses.remove(key),
                ..d
            },
            key,
        )
    } else {
        d
    }
}

/// The database after an expiry time was set on a key that exists.
pub open spec fn db_expire(d: DbV, key: Seq<u8>, at_ms: i64) -> DbV {
    if d.objects.contains_key(key) {
        DbV { expires: d.expires.insert(key, at_ms), ..d }
    } else {
        d
    }
}

/// The database after an expiry time was removed.
pub open spec fn db_persist(d: DbV, key: Seq<u8>) -> DbV {
    DbV { expires: d.expires.remove(key), ..d }
}

/// The database after the use of a key that exists was told, if it was.
pub open spec fn db_use(d: DbV, key: Seq<u8>, u: KeyUse) -> DbV {
    if d.objects.contains_key(key) && (u.lru_idle != -1 || u.lfu_freq != -1) {
        DbV { uses: d.uses.insert(key, u), ..d }
    } else {
        d
    }
}

/// The value under a key.
pub open spec fn db_get(d: DbV, key: Seq<u8>) -> Option<ObjV> {
    if d.objects.contains_key(key) {
        Some(d.objects[key])
    } else {
        None
    }
}

/// The expiry time of a key.
pub open spec fn db_ttl(d: DbV, key: Seq<u8>) -> Option<i64> {
    if d.expires.contains_key(key) {
        Some(d.expires[key])
    } else {
        None
    }
}

/// What was told of the use of a key.
pub open spec fn db_used(d: DbV, key: Seq<u8>) -> Option<KeyUse> {
    if d.uses.contains_key(key) {
        Some(d.uses[key])
    } else {
        None
    }
}

/// The string under a key.
pub open spec fn str_in(d: DbV, key: Seq<u8>) -> Result<Option<Seq<u8>>, ErrV> {
    match db_get(d, key) {
        None => Ok(None),
        Some(ObjV::Str(s)) => Ok(Some(s)),
        Some(_) => Err(ErrV::WrongType),
    }
}

/// The list under a key.
pub open spec fn list_in(d: DbV, key: Seq<u8>) -> Result<Option<Seq<Seq<u8>>>, ErrV> {
    match db_get(d, key) {
        None => Ok(None),
        Some(ObjV::List(s)) => Ok(Some(s)),
        Some(_) => Err(ErrV::WrongType),
    }
}

/// The set under a key.
pub open spec fn set_in(d: DbV, key: Seq<u8>) -> Result<Option<SetV>, ErrV> {
    match db_get(d, key) {
        None => Ok(None),
        Some(ObjV::Members(s)) => Ok(Some(s)),
        Some(_) => Err(ErrV::WrongType),
    }
}

/// The stream under a key.
pub open spec fn stream_in(d: DbV, key: Seq<u8>) -> Result<Option<StreamV>, ErrV> {
    match db_get(d, key) {
        None => Ok(None),
        Some(ObjV::Stream(s)) => Ok(Some(s)),
        Some(_) => Err(ErrV::WrongType),
    }
}

/// The JSON value under a key.
pub open spec fn json_in(d: DbV, key: Seq<u8>) -> Result<Option<JsonV>, ErrV> {
    match db_get(d, key) {
        None => Ok(None),
        Some(ObjV::Json(j)) => Ok(Some(j)),
        Some(_) => Err(ErrV::WrongType),
    }
}

/// Reading a key after it was stored gives the stored value.
pub proof fn law_get_after_set(d: DbV, key: Seq<u8>, value: ObjV, keep: bool, other: Seq<u8>)
    ensures
        db_get(db_set(d, key, value, keep), key) == Some(value),
        other != key ==> db_get(db_set(d, key, value, keep), other) == db_get(d, other),
        other != key ==> db_ttl(db_set(d, key, value, keep), other) == db_ttl(d, other),
        other != key ==> db_used(db_set(d, key, value, keep), other) == db_used(d, other),
        db_used(db_set(d, key, value, keep), key) is None,
        !keep ==> db_ttl(db_set(d, key, value, keep), key) is None,
        keep ==> db_ttl(db_set(d, key, value, keep), key) == db_ttl(d, key),
{
}

/// A deleted key is gone, with its expiry time; other keys stay.
pub proof fn law_get_after_delete(d: DbV, key: Seq<u8>, other: Seq<u8>)
    requires
        d.expires.dom().subset_of(d.objects.dom()),
    ensures
        db_get(db_delete(d, key), key) is None,
        db_ttl(db_delete(d, key), key) is None,
        other != key ==> db_get(db_delete(d, key), other) == db_get(d, other),
{
    if !d.objects.contains_key(key) {
        assert(!d.expires.dom().contains(key));
    }
}

/// Storing or deleting a watched key makes its watchers dirty, and no one else.
pub proof fn law_watchers_become_dirty(d: DbV, key: Seq<u8>, value: ObjV, keep: bool, client: u64)
    ensures
        db_set(d, key, value, keep).dirty.contains(client) <==> d.dirty.contains(client)
            || d.watchers.contains((key, client)),
        db_delete(d, key).dirty.contains(client) <==> d.dirty.contains(client) || (
        d.objects.contains_key(key) && d.watchers.contains((key, client))),
{
}

impl RedisDb {
    /// The dictionaries ascend, values keep their invariants, and only keys
    /// that exist have an expiry time or a use.
    pub open spec fn wf(self) -> bool {
        &&& self.objects.wf()
        &&& self.expires.wf()
        &&& self.uses.wf()
        &&& forall|k: Seq<u8>| #[trigger] self.objects.map().contains_key(k)
            ==> self.objects.map()[k].wf()
        &&& self@.expires.dom().subset_of(self@.objects.dom())
        &&& self@.uses.dom().subset_of(self@.objects.dom())
    }

    /// An empty database.
    pub fn new() -> (r: RedisDb)
        ensures
            r.wf(),
            r@ == (DbV {
                objects: Map::empty(),
                expires: Map::empty(),
                uses: Map::empty(),
                watchers: Set::empty(),
                dirty: Set::empty(),
            }),
    {
        let r = RedisDb {
            objects: Dict::new(),
            expires: Dict::new(),
            uses: Dict::new(),
            watches: Vec::new(),
            dirty_clients: Vec::new(),
        };
        assert(r@.watchers =~= Set::empty());
        assert(r@.dirty =~= Set::empty());
        r
    }

    /// The value under a key.
    pub fn lookup_key_read(&self, key: &[u8]) -> (r: Option<&RedisObject>)
        requires
            self.wf(),
        ensures
            match r {
                Some(o) => db_get(self@, key@) == Some(o@) && o.wf(),
                None => db_get(self@, key@) is None,
            },
    {
        self.objects.get(key)
    }

    /// The value under a key, to change in place.
    pub fn lookup_key_write(&mut self, key: &[u8]) -> (r: Option<&mut RedisObject>)
        requires
            old(self).wf(),
        ensures
            match r {
                Some(o) => db_get(old(self)@, key@) == Some(o@) && o.wf() && final(self)@
                    == db_update(old(self)@, key@, final(o)@) && (final(o).wf()
                    ==> final(self).wf()),
                None => db_get(old(self)@, key@) is None && *final(self) == *old(self),
            },
    {
        let ghost before = *self;
        let r: Option<&mut RedisObject> = self.objects.get_mut(key);
        r
    }

    /// Whether a key exists.
    pub fn has_key(&self, key: &[u8]) -> (r: bool)
        requires
            self.wf(),
        ensures
            r == (db_get(self@, key@) is Some),
    {
        self.objects.contains(key)
    }

    /// The expiry time of a key.
    pub fn expire_of(&self, key: &[u8]) -> (r: Option<i64>)
        requires
            self.wf(),
        ensures
            r == db_ttl(self@, key@),
    {
        match self.expires.get(key) {
            Some(t) => Some(*t),
            None => None,
        }
    }

    /// Marks the clients that watch a key as dirty.
    pub fn touch(&mut self, key: &[u8])
        requires
            old(self).wf(),
        ensures
            final(self).wf(),
            final(self)@ == db_touch(old(self)@, key@),
    {
        let ghost before = *self;
        let mut i: usize = 0;
        while i < self.watches.len()
            invariant
                before.wf(),
                self.objects == before.objects,
                self.expires == before.expires,
                self.uses == before.uses,
                self.watches == before.watches,
                i <= self.watches@.len(),
                forall|c: u64| #[trigger]
                    self.dirty_clients@.contains(c) <==> before.dirty_clients@.contains(c)
                        || watches_have(self.watches@.take(i as int), key@, c),
            decreases self.watches@.len() - i,
        {
            let ghost had = self.dirty_clients@;
            let w: u64 = self.watches[i].client;
            let hit: bool = same(&self.watches[i].key, key);
            if hit {
                self.dirty_clients.push(w);
            }
            proof {
                let now = self.watches@.take(i + 1);
                let was = self.watches@.take(i as int);
                assert forall|c: u64| #[trigger]
                    self.dirty_clients@.contains(c) <==> before.dirty_clients@.contains(c)
                        || watches_have(now, key@, c) by {
                    if watches_have(was, key@, c) {
                        let j = choose|j: int|
                            0 <= j < was.len() && (#[trigger] was[j]).key@ == key@ && was[j].client
                                == c;
                        assert(now[j] == was[j]);
                    }
                    if watches_have(now, key@, c) {
                        let j = choose|j: int|
                            0 <= j < now.len() && (#[trigger] now[j]).key@ == key@ && now[j].client
                                == c;
                        if j < i {
                            assert(was[j] == now[j]);
                        }
                    }
                    if hit {
                        assert(now[i as int].client == w);
                        assert(self.dirty_clients@ == had.push(w));
                        if had.contains(c) {
                            let j = had.index_of(c);
                            assert(self.dirty_clients@[j] == c);
                        }
                        if c == w {
                            assert(self.dirty_clients@[had.len() as int] == c);
                        }
                        if self.dirty_clients@.contains(c) && c != w {
                            let j = self.dirty_clients@.index_of(c);
                            assert(had[j] == c);
                        }
                    }
                }
            }
            i += 1;
        }
        proof {
            assert(self.watches@.take(i as int) =~= self.watches@);
            assert(self@.dirty =~= db_touch(before@, key@).dirty);
            assert(self@ =~= db_touch(before@, key@));
        }
    }

    /// Stores a value.
    pub fn set_key(&mut self, key: Vec<u8>, value: RedisObject, keep_ttl: bool)
        requires
            old(self).wf(),
            value.wf(),
        ensures
            final(self).wf(),
            final(self)@ == db_set(old(self)@, key@, value@, keep_ttl),
    {
        let ghost before = self@;
        let ghost k = key@;
        let ghost v = value@;
        if !keep_ttl {
            let _gone: Option<i64> = self.expires.remove(&key);
        }
        let _use: Option<KeyUse> = self.uses.remove(&key);
        let for_touch: Vec<u8> = dup(&key);
        self.objects.insert(key, value);
        assert(self@.expires.dom().subset_of(self@.objects.dom()));
        assert(self@.uses.dom().subset_of(self@.objects.dom()));
        self.touch(&for_touch);
        assert(self@ =~= db_set(before, k, v, keep_ttl));
    }

    /// Deletes a key. Tells whether it existed.
    pub fn sync_delete(&mut self, key: &[u8]) -> (r: bool)
        requires
            old(self).wf(),
        ensures
            final(self).wf(),
            final(self)@ == db_delete(old(self)@, key@),
            r == (db_get(old(self)@, key@) is Some),
    {
        let ghost before = self@;
        if !self.objects.contains(key) {
            return false;
        }
        let _gone: Option<RedisObject> = self.objects.remove(key);
        let _time: Option<i64> = self.expires.remove(key);
        let _use: Option<KeyUse> = self.uses.remove(key);
        assert(self@.expires.dom().subset_of(self@.objects.dom()));
        assert(self@.uses.dom().subset_of(self@.objects.dom()));
        self.touch(key);
        assert(self@ =~= db_delete(before, key@));
        true
    }

    /// Sets the expiry time of a key that exists.
    pub fn set_expire(&mut self, key: &[u8], at_ms: i64)
        requires
            old(self).wf(),
        ensures
            final(self).wf(),
            final(self)@ == db_expire(old(self)@, key@, at_ms),
    {
        let ghost before = self@;
        if self.objects.contains(key) {
            self.expires.insert(dup(key), at_ms);
            assert(self@.expires.dom().subset_of(self@.objects.dom()));
            assert(self@ =~= db_expire(before, key@, at_ms));
        }
    }

    /// Keeps what was told of the use of a key that exists, if it was.
    pub fn set_use(&mut self, key: &[u8], u: KeyUse)
        requires
            old(self).wf(),
        ensures
            final(self).wf(),
            final(self)@ == db_use(old(self)@, key@, u),
    {
        let ghost before = self@;
        if self.objects.contains(key) && (u.lru_idle != -1 || u.lfu_freq != -1) {
            self.uses.insert(dup(key), u);
            assert(self@.uses.dom().subset_of(self@.objects.dom()));
            assert(self@ =~= db_use(before, key@, u));
        }
    }

    /// What was told of the use of a key.
    pub fn use_of(&self, key: &[u8]) -> (r: Option<KeyUse>)
        requires
            self.wf(),
        ensures
            r == db_used(self@, key@),
    {
        match self.uses.get(key) {
            Some(u) => Some(*u),
            None => None,
        }
    }

    /// Removes the expiry time of a key.
    pub fn remove_expire(&mut self, key: &[u8])
        requires
            old(self).wf(),
        ensures
            final(self).wf(),
            final(self)@ == db_persist(old(self)@, key@),
    {
        let ghost before = self@;
        let _time: Option<i64> = self.expires.remove(key);
        assert(self@.expires.dom().subset_of(self@.objects.dom()));
        assert(self@ =~= db_persist(before, key@));
    }

    /// The string under a key.
    pub fn string_at(&self, key: &[u8]) -> (r: Result<Option<&Vec<u8>>, RedisError>)
        requires
            self.wf(),
        ensures
            match r {
                Ok(Some(s)) => str_in(self@, key@) == Ok::<_, ErrV>(Some(s@)),
                Ok(None) => str_in(self@, key@) == Ok::<Option<Seq<u8>>, ErrV>(None),
                Err(e) => str_in(self@, key@) == Err::<Option<Seq<u8>>, ErrV>(e@),
            },
    {
        match self.lookup_key_read(key) {
            None => Ok(None),
            Some(RedisObject::Str(s)) => Ok(Some(s)),
            Some(_) => Err(RedisError::WrongType),
        }
    }

    /// The list under a key.
    pub fn list_at(&self, key: &[u8]) -> (r: Result<Option<&Vec<Vec<u8>>>, RedisError>)
        requires
            self.wf(),
        ensures
            match r {
                Ok(Some(s)) => list_in(self@, key@) == Ok::<_, ErrV>(Some(views(s@))),
                Ok(None) => list_in(self@, key@) == Ok::<Option<Seq<Seq<u8>>>, ErrV>(None),
                Err(e) => list_in(self@, key@) == Err::<Option<Seq<Seq<u8>>>, ErrV>(e@),
            },
    {
        match self.lookup_key_read(key) {
            None => Ok(None),
            Some(RedisObject::List(s)) => Ok(Some(s)),
            Some(_) => Err(RedisError::WrongType),
        }
    }

    /// The list under a key, to change in place.
    pub fn list_for_write(&mut self, key: &[u8]) -> (r: Result<
        Option<&mut Vec<Vec<u8>>>,
        RedisError,
    >)
        requires
            old(self).wf(),
        ensures
            match r {
                Ok(Some(s)) => list_in(old(self)@, key@) == Ok::<_, ErrV>(Some(views(s@)))
                    && final(self)@ == db_update(
                    old(self)@,
                    key@,
                    ObjV::List(views(final(s)@)),
                ) && final(self).wf(),
                Ok(None) => list_in(old(self)@, key@) == Ok::<Option<Seq<Seq<u8>>>, ErrV>(None)
                    && *final(self) == *old(self),
                Err(e) => list_in(old(self)@, key@) == Err::<Option<Seq<Seq<u8>>>, ErrV>(e@)
                    && final(self)@ == old(self)@ && final(self).wf(),
            },
    {
        match self.lookup_key_read(key) {
            None => return Ok(None),
            Some(RedisObject::List(_)) => {},
            Some(_) => return Err(RedisError::WrongType),
        }
        match self.lookup_key_write(key) {
            Some(RedisObject::List(s)) => Ok(Some(s)),
            _ => Ok(None),
        }
    }

    /// The set under a key.
    pub fn set_at(&self, key: &[u8]) -> (r: Result<Option<&InlineSet>, RedisError>)
        requires
            self.wf(),
        ensures
            match r {
                Ok(Some(s)) => set_in(self@, key@) == Ok::<_, ErrV>(Some(s@)) && s.wf(),
                Ok(None) => set_in(self@, key@) == Ok::<Option<SetV>, ErrV>(None),
                Err(e) => set_in(self@, key@) == Err::<Option<SetV>, ErrV>(e@),
            },
    {
        match self.lookup_key_read(key) {
            None => Ok(None),
            Some(RedisObject::Members(s)) => Ok(Some(s)),
            Some(_) => Err(RedisError::WrongType),
        }
    }

    /// The set under a key, to change in place.
    pub fn set_for_write(&mut self, key: &[u8]) -> (r: Result<Option<&mut InlineSet>, RedisError>)
        requires
            old(self).wf(),
        ensures
            match r {
                Ok(Some(s)) => set_in(old(self)@, key@) == Ok::<_, ErrV>(Some(s@)) && s.wf()
                    && final(self)@ == db_update(old(self)@, key@, ObjV::Members(final(s)@)) && (
                final(s).wf() ==> final(self).wf()),
                Ok(None) => set_in(old(self)@, key@) == Ok::<Option<SetV>, ErrV>(None)
                    && *final(self) == *old(self),
                Err(e) => set_in(old(self)@, key@) == Err::<Option<SetV>, ErrV>(e@)
                    && *final(self) == *old(self),
            },
    {
        match self.lookup_key_read(key) {
            None => return Ok(None),
            Some(RedisObject::Members(_)) => {},
            Some(_) => return Err(RedisError::WrongType),
        }
        match self.lookup_key_write(key) {
            Some(RedisObject::Members(s)) => Ok(Some(s)),
            _ => Ok(None),
        }
    }

    /// The stream under a key.
    pub fn stream_at(&self, key: &[u8]) -> (r: Result<Option<&InlineStream>, RedisError>)
        requires
            self.wf(),
        ensures
            match r {
                Ok(Some(s)) => stream_in(self@, key@) == Ok::<_, ErrV>(Some(s@)) && s.wf(),
                Ok(None) => stream_in(self@, key@) == Ok::<Option<StreamV>, ErrV>(None),
                Err(e) => stream_in(self@, key@) == Err::<Option<StreamV>, ErrV>(e@),
            },
    {
        match self.lookup_key_read(key) {
            None => Ok(None),
            Some(RedisObject::Stream(s)) => Ok(Some(s)),
            Some(_) => Err(RedisError::WrongType),
        }
    }

    /// The stream under a key, to change in place.
    pub fn stream_for_write(&mut self, key: &[u8]) -> (r: Result<
        Option<&mut InlineStream>,
        RedisError,
    >)
        requires
            old(self).wf(),
        ensures
            match r {
                Ok(Some(s)) => stream_in(old(self)@, key@) == Ok::<_, ErrV>(Some(s@)) && s.wf()
                    && final(self)@ == db_update(old(self)@, key@, ObjV::Stream(final(s)@)) && (
                final(s).wf() ==> final(self).wf()),
                Ok(None) => stream_in(old(self)@, key@) == Ok::<Option<StreamV>, ErrV>(None)
                    && *final(self) == *old(self),
                Err(e) => stream_in(old(self)@, key@) == Err::<Option<StreamV>, ErrV>(e@)
                    && *final(self) == *old(self),
            },
    {
        match self.lookup_key_read(key) {
            None => return Ok(None),
            Some(RedisObject::Stream(_)) => {},
            Some(_) => return Err(RedisError::WrongType),
        }
        match self.lookup_key_write(key) {
            Some(RedisObject::Stream(s)) => Ok(Some(s)),
            _ => Ok(None),
        }
    }

    /// The JSON value under a key.
    pub fn json_at(&self, key: &[u8]) -> (r: Result<Option<&Json>, RedisError>)
        requires
            self.wf(),
        ensures
            match r {
                Ok(Some(j)) => json_in(self@, key@) == Ok::<_, ErrV>(Some(j@)) && json_ok(j@),
                Ok(None) => json_in(self@, key@) == Ok::<Option<JsonV>, ErrV>(None),
                Err(e) => json_in(self@, key@) == Err::<Option<JsonV>, ErrV>(e@),
            },
    {
        match self.lookup_key_read(key) {
            None => Ok(None),
            Some(RedisObject::Json(j)) => Ok(Some(j)),
            Some(_) => Err(RedisError::WrongType),
        }
    }

    /// The JSON value under a key, to change in place.
    pub fn json_for_write(&mut self, key: &[u8]) -> (r: Result<Option<&mut Json>, RedisError>)
        requires
            old(self).wf(),
        ensures
            match r {
                Ok(Some(j)) => json_in(old(self)@, key@) == Ok::<_, ErrV>(Some(j@)) && json_ok(j@)
                    && final(self)@ == db_update(old(self)@, key@, ObjV::Json(final(j)@)) && (
                json_ok(final(j)@) ==> final(self).wf()),
                Ok(None) => json_in(old(self)@, key@) == Ok::<Option<JsonV>, ErrV>(None)
                    && *final(self) == *old(self),
                Err(e) => json_in(old(self)@, key@) == Err::<Option<JsonV>, ErrV>(e@)
                    && *final(self) == *old(self),
            },
    {
        match self.lookup_key_read(key) {
            None => return Ok(None),
            Some(RedisObject::Json(_)) => {},
            Some(_) => return Err(RedisError::WrongType),
        }
        match self.lookup_key_write(key) {
            Some(RedisObject::Json(j)) => Ok(Some(j)),
            _ => Ok(None),
        }
    }

    /// Puts a value under a key. The expiry time stays.
    pub fn put_object(&mut self, key: Vec<u8>, value: RedisObject)
        requires
            old(self).wf(),
            value.wf(),
        ensures
            final(self).wf(),
            final(self)@ == db_update(old(self)@, key@, value@),
    {
        let ghost before = self@;
        let ghost k = key@;
        let ghost v = value@;
        self.objects.insert(key, value);
        assert(self@ =~= db_update(before, k, v));
        assert(self@.expires.dom().subset_of(self@.objects.dom()));
        assert(self@.uses.dom().subset_of(self@.objects.dom()));
    }

    /// Registers a client as a watcher of a key.
    pub fn watch(&mut self, key: &[u8], client: u64)
        requires
            old(self).wf(),
        ensures
            final(self).wf(),
            final(self)@ == (DbV {
                watchers: old(self)@.watchers.insert((key@, client)),
                ..old(self)@
            }),
    {
        let ghost before = *self;
        self.watches.push(Watch { key: dup(key), client });
        proof {
            let w = self.watches@;
            let b = before.watches@;
            assert(forall|i: int| 0 <= i < b.len() ==> w[i] == b[i]);
            assert forall|p: (Seq<u8>, u64)| self@.watchers.contains(p)
                == before@.watchers.insert((key@, client)).contains(p) by {
                if watches_have(b, p.0, p.1) {
                    let i = choose|i: int|
                        0 <= i < b.len() && (#[trigger] b[i]).key@ == p.0 && b[i].client == p.1;
                    assert(w[i].key@ == p.0);
                }
                if p == (key@, client) {
                    assert(w[b.len() as int].key@ == p.0);
                }
                if watches_have(w, p.0, p.1) {
                    let i = choose|i: int|
                        0 <= i < w.len() && (#[trigger] w[i]).key@ == p.0 && w[i].client == p.1;
                    if i < b.len() {
                        assert(b[i].key@ == p.0);
                    }
                }
            }
            assert(self@.watchers =~= before@.watchers.insert((key@, client)));
            assert(self@ =~= (DbV {
                watchers: before@.watchers.insert((key@, client)),
                ..before@
            }));
        }
    }

    /// Removes every watch of a client.
    pub fn unwatch(&mut self, client: u64)
        requires
            old(self).wf(),
        ensures
            final(self).wf(),
            final(self)@ == db_unwatch(old(self)@, client),
    {
        let ghost before = *self;
        let mut kept: Vec<Watch> = Vec::new();
        let mut i: usize = 0;
        while i < self.watches.len()
            invariant
                *self == before,
                i <= self.watches@.len(),
                forall|k: Seq<u8>, c: u64| #[trigger]
                    watches_have(kept@, k, c) <==> c != client && watches_have(
                        self.watches@.take(i as int),
                        k,
                        c,
                    ),
            decreases self.watches@.len() - i,
        {
            let ghost had = kept@;
            let ghost was = self.watches@.take(i as int);
            let ghost now = self.watches@.take(i + 1);
            if self.watches[i].client != client {
                kept.push(
                    Watch { key: dup(&self.watches[i].key), client: self.watches[i].client },
                );
            }
            proof {
                let fresh = self.watches@[i as int];
                assert(forall|j: int| 0 <= j < was.len() ==> now[j] == was[j]);
                assert(now[i as int] == fresh);
                assert(forall|j: int| 0 <= j < had.len() ==> kept@[j] == had[j]);
                assert forall|k: Seq<u8>, c: u64| #[trigger]
                    watches_have(kept@, k, c) <==> c != client && watches_have(now, k, c) by {
                    if watches_have(was, k, c) {
                        let j = choose|j: int|
                            0 <= j < was.len() && (#[trigger] was[j]).key@ == k && was[j].client == c;
                        assert(now[j].key@ == k);
                    }
                    if watches_have(now, k, c) {
                        let j = choose|j: int|
                            0 <= j < now.len() && (#[trigger] now[j]).key@ == k && now[j].client == c;
                        if j < i {
                            assert(was[j].key@ == k);
                        } else if c != client {
                            assert(kept@[had.len() as int].key@ == k);
                        }
                    }
                    if watches_have(had, k, c) {
                        let j = choose|j: int|
                            0 <= j < had.len() && (#[trigger] had[j]).key@ == k && had[j].client == c;
                        assert(kept@[j].key@ == k);
                    }
                    if watches_have(kept@, k, c) {
                        let j = choose|j: int|
                            0 <= j < kept@.len() && (#[trigger] kept@[j]).key@ == k
                                && kept@[j].client == c;
                        if j < had.len() {
                            assert(had[j].key@ == k);
                        } else {
                            assert(now[i as int].key@ == k);
                        }
                    }
                }
            }
            i += 1;
        }
        self.watches = kept;
        proof {
            assert(before.watches@.take(i as int) =~= before.watches@);
            assert(self@.watchers =~= db_unwatch(before@, client).watchers);
            assert(self@ =~= db_unwatch(before@, client));
        }
    }

    /// Whether a client's watched keys were changed; forgets that they were.
    pub fn take_dirty(&mut self, client: u64) -> (r: bool)
        requires
            old(self).wf(),
        ensures
            final(self).wf(),
            r == old(self)@.dirty.contains(client),
            final(self)@ == (DbV { dirty: old(self)@.dirty.remove(client), ..old(self)@ }),
    {
        let ghost before = *self;
        let mut kept: Vec<u64> = Vec::new();
        let mut found: bool = false;
        let mut i: usize = 0;
        while i < self.dirty_clients.len()
            invariant
                *self == before,
                i <= self.dirty_clients@.len(),
                found == self.dirty_clients@.take(i as int).contains(client),
                forall|c: u64| #[trigger]
                    kept@.contains(c) <==> c != client && self.dirty_clients@.take(
                        i as int,
                    ).contains(c),
            decreases self.dirty_clients@.len() - i,
        {
            let ghost had = kept@;
            let ghost was = self.dirty_clients@.take(i as int);
            let ghost now = self.dirty_clients@.take(i + 1);
            let c: u64 = self.dirty_clients[i];
            if c == client {
                found = true;
            } else {
                kept.push(c);
            }
            proof {
                assert(now =~= was.push(c));
                assert forall|d: u64| now.contains(d) == (was.contains(d) || d == c) by {
                    if was.contains(d) {
                        assert(now[was.index_of(d)] == d);
                    }
                    if d == c {
                        assert(now[i as int] == d);
                    }
                    if now.contains(d) && d != c {
                        assert(was[now.index_of(d)] == d);
                    }
                }
                assert forall|d: u64| #[trigger] kept@.contains(d) == (had.contains(d) || (d == c
                    && c != client)) by {
                    if had.contains(d) {
                        assert(kept@[had.index_of(d)] == d);
                    }
                    if d == c && c != client {
                        assert(kept@[had.len() as int] == d);
                    }
                    if kept@.contains(d) && d != c {
                        assert(had[kept@.index_of(d)] == d);
                    }
                }
            }
            i += 1;
        }
        self.dirty_clients = kept;
        proof {
            assert(before.dirty_clients@.take(i as int) =~= before.dirty_clients@);
            assert(self@.dirty =~= before@.dirty.remove(client));
            assert(self@ =~= (DbV { dirty: before@.dirty.remove(client), ..before@ }));
        }
        found
    }
}

/// The database after a client stopped watching.
pub open spec fn db_unwatch(d: DbV, client: u64) -> DbV {
    DbV {
        watchers: Set::new(|p: (Seq<u8>, u64)| p.1 != client && d.watchers.contains(p)),
        ..d
    }
}

} // verus!
