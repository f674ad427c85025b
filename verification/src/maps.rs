//! The two maps that a regional server keeps: which users are connected to
//! it (and through which connection), and in which region every known user
//! is present. Both are `dashmap::DashMap`s keyed by user id.
use vstd::prelude::*;
use dashmap::DashMap;

verus! {

/// A connection to a client of this region, as the server numbers them.
pub type ConnId = u64;

/// The shared table behind a `ConnectionMap`.
pub type ConnectionTable = DashMap<String, u64>;

/// The shared table behind a `PresenceMap`.
pub type PresenceTable = DashMap<String, String>;

#[verifier::external_type_specification]
#[verifier::external_body]
#[verifier::reject_recursive_types(K)]
#[verifier::reject_recursive_types(V)]
#[verifier::reject_recursive_types(S)]
pub struct ExDashMap<K, V, S>(DashMap<K, V, S>);

/// What a map from user ids to connections holds, by the characters of each id.
pub uninterp spec fn connection_entries(m: DashMap<String, u64>) -> Map<Seq<char>, u64>;

/// What a map from user ids to region ids holds, by characters.
pub uninterp spec fn presence_entries(m: DashMap<String, String>) -> Map<Seq<char>, Seq<char>>;

/// `DashMap::new` for connections: an empty map.
#[verifier::external_body]
fn connections_new() -> (table: ConnectionTable)
    ensures
        connection_entries(table).dom() == Set::<Seq<char>>::empty(),
{
    DashMap::new()
}

/// `DashMap::insert` for connections: `key` now maps to `value`, the other
/// entries stay.
#[verifier::external_body]
fn connections_insert(m: &mut DashMap<String, u64>, key: String, value: u64)
    ensures
        connection_entries(*final(m)) == connection_entries(*old(m)).insert(key@, value),
{
    m.insert(key, value);
}

/// `DashMap::remove` for connections: `key` no longer maps to anything, the
/// other entries stay.
#[verifier::external_body]
fn connections_remove(m: &mut DashMap<String, u64>, key: &str)
    ensures
        connection_entries(*final(m)) == connection_entries(*old(m)).remove(key@),
{
    m.remove(key);
}

/// `DashMap::get` for connections, the entry's value copied out.
#[verifier::external_body]
fn connections_get(m: &DashMap<String, u64>, key: &str) -> (r: Option<u64>)
    ensures
        match r {
            Some(v) => connection_entries(*m).contains_key(key@) && v == connection_entries(*m)[key@],
            None => !connection_entries(*m).contains_key(key@),
        },
{
    match m.get(key) {
        Some(entry) => Some(*entry.value()),
        None => None,
    }
}

/// `DashMap::new` for presence: an empty map.
#[verifier::external_body]
fn presence_new() -> (table: PresenceTable)
    ensures
        presence_entries(table).dom() == Set::<Seq<char>>::empty(),
{
    DashMap::new()
}

/// `DashMap::insert` for presence: `key` now maps to `value`, the other
/// entries stay.
#[verifier::external_body]
fn presence_insert(m: &mut DashMap<String, String>, key: String, value: String)
    ensures
        presence_entries(*final(m)) == presence_entries(*old(m)).insert(key@, value@),
{
    m.insert(key, value);
}

/// `DashMap::remove` for presence: `key` no longer maps to anything, the
/// other entries stay.
#[verifier::external_body]
fn presence_remove(m: &mut DashMap<String, String>, key: &str)
    ensures
        presence_entries(*final(m)) == presence_entries(*old(m)).remove(key@),
{
    m.remove(key);
}

/// `DashMap::get` for presence, the entry's value cloned out.
#[verifier::external_body]
fn presence_get(m: &DashMap<String, String>, key: &str) -> (r: Option<String>)
    ensures
        match r {
            Some(v) => presence_entries(*m).contains_key(key@) && v@ == presence_entries(*m)[key@],
            None => !presence_entries(*m).contains_key(key@),
        },
{
    match m.get(key) {
        Some(entry) => Some(entry.value().clone()),
        None => None,
    }
}

/// `DashMap::len` for presence: the number of users with a known region.
#[verifier::external_body]
fn presence_len(m: &DashMap<String, String>) -> (n: usize)
    ensures
        n == presence_entries(*m).len(),
{
    m.len()
}

/// The users connected to this region, each with the connection that
/// currently carries its messages.
pub struct ConnectionMap {
    inner: DashMap<String, u64>,
}

impl View for ConnectionMap {
    type V = Map<Seq<char>, ConnId>;

    closed spec fn view(&self) -> Map<Seq<char>, ConnId> {
        connection_entries(self.inner)
    }
}

impl ConnectionMap {
    /// No user connected.
    pub fn new() -> (m: ConnectionMap)
        ensures
            m@ == Map::<Seq<char>, ConnId>::empty(),
    {
        let m = ConnectionMap { inner: connections_new() };
        assert(m@ =~= Map::<Seq<char>, ConnId>::empty());
        m
    }

    /// `user` is now reached through `conn`, replacing any earlier connection.
    pub fn insert(&mut self, user: String, conn: ConnId)
        ensures
            final(self)@ == old(self)@.insert(user@, conn),
    {
        connections_insert(&mut self.inner, user, conn);
    }

    /// `user` is no longer connected.
    pub fn remove(&mut self, user: &str)
        ensures
            final(self)@ == old(self)@.remove(user@),
    {
        connections_remove(&mut self.inner, user);
    }

    /// The connection of `user`, if `user` is connected.
    pub fn get(&self, user: &str) -> (r: Option<ConnId>)
        ensures
            r == (if self@.contains_key(user@) {
                Some(self@[user@])
            } else {
                None
            }),
    {
        connections_get(&self.inner, user)
    }

    /// Whether `user` is connected.
    pub fn contains_key(&self, user: &str) -> (b: bool)
        ensures
            b == self@.contains_key(user@),
    {
        connections_get(&self.inner, user).is_some()
    }
}

/// The region in which each known user is present.
pub struct PresenceMap {
    inner: DashMap<String, String>,
}

impl View for PresenceMap {
    type V = Map<Seq<char>, Seq<char>>;

    closed spec fn view(&self) -> Map<Seq<char>, Seq<char>> {
        presence_entries(self.inner)
    }
}

impl PresenceMap {
    /// No user known.
    pub fn new() -> (m: PresenceMap)
        ensures
            m@ == Map::<Seq<char>, Seq<char>>::empty(),
    {
        let m = PresenceMap { inner: presence_new() };
        assert(m@ =~= Map::<Seq<char>, Seq<char>>::empty());
        m
    }

    /// `user` is now present in `region`, replacing what was known before.
    pub fn insert(&mut self, user: String, region: String)
        ensures
            final(self)@ == old(self)@.insert(user@, region@),
    {
        presence_insert(&mut self.inner, user, region);
    }

    /// Nothing is known of `user` any more.
    pub fn remove(&mut self, user: &str)
        ensures
            final(self)@ == old(self)@.remove(user@),
    {
        presence_remove(&mut self.inner, user);
    }

    /// The region of `user`, if known.
    pub fn get(&self, user: &str) -> (r: Option<String>)
        ensures
            match r {
                Some(region) => self@.contains_key(user@) && region@ == self@[user@],
                None => !self@.contains_key(user@),
            },
    {
        presence_get(&self.inner, user)
    }

    /// Whether the region of `user` is known.
    pub fn contains_key(&self, user: &str) -> (b: bool)
        ensures
            b == self@.contains_key(user@),
    {
        presence_get(&self.inner, user).is_some()
    }

    /// The number of users with a known region.
    pub fn len(&self) -> (n: usize)
        ensures
            n == self@.len(),
    {
        presence_len(&self.inner)
    }
}

/// What a read gives back of a write, for both maps: after `insert(user, v)`
/// a lookup of `user` gives `v`, after `remove(user)` it gives nothing, and
/// lookups of other users are unaffected by either.
pub proof fn law_read_after_write<V>(m: Map<Seq<char>, V>, user: Seq<char>, v: V, other: Seq<char>)
    requires
        other != user,
    ensures
        m.insert(user, v).contains_key(user),
        m.insert(user, v)[user] == v,
        !m.remove(user).contains_key(user),
        m.insert(user, v).contains_key(other) == m.contains_key(other),
        m.remove(user).contains_key(other) == m.contains_key(other),
        m.contains_key(other) ==> m.insert(user, v)[other] == m[other] && m.remove(user)[other]
            == m[other],
{
}

} // verus!
