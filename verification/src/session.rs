//! The session cache: one store client for each session, made when the
//! session is first served, handed out again on every later request, and
//! dropped once the session has been idle for longer than the timeout.
//!
//! The cache is an ordinary value. Whoever shares it between requests puts
//! it behind a lock, so that one call at a time reaches it; time is a count
//! of ticks that the caller reads off a clock that never runs backwards.

use crate::errors::KVAdminerError;
use crate::redis_ops::{client_of_url, create_redis_client, redis_url, RedisInfo};
use vstd::prelude::*;

verus! {

/// What the cache holds for one session.
pub struct SessionData {
    /// The client that serves the session.
    pub client: redis::Client,
    /// When the session was last served.
    pub last_active: u64,
}

/// One record of the cache.
struct Session {
    id: String,
    data: SessionData,
}

/// The session cache.
pub struct AppState {
    connections: Vec<Session>,
    session_timeout: u64,
}

/// The sessions that `entries` record, each under its identifier.
spec fn records(entries: Seq<Session>) -> Map<Seq<char>, SessionData>
    decreases entries.len(),
{
    if entries.len() == 0 {
        Map::empty()
    } else {
        records(entries.drop_last()).insert(entries.last().id@, entries.last().data)
    }
}

/// Whether no two of `entries` belong to one session.
spec fn distinct_ids(entries: Seq<Session>) -> bool {
    forall|i: int, j: int|
        0 <= i < j < entries.len() ==> (#[trigger] entries[i]).id@ != (#[trigger] entries[j]).id@
}

/// The sessions of `sessions` after session `id` was served by `client` at
/// time `now`.
pub open spec fn touched(
    sessions: Map<Seq<char>, SessionData>,
    id: Seq<char>,
    client: redis::Client,
    now: u64,
) -> Map<Seq<char>, SessionData> {
    sessions.insert(id, SessionData { client, last_active: now })
}

/// What a request for the client of session `id` at time `now` does to
/// `sessions` and returns, where `opened` is the client that the connection
/// parameters of the request give, if they give one.
///
/// A session that is there is served by the client it has, whatever the
/// request's parameters are. A session that is not there is served by the
/// client that the parameters give, which is recorded for it. Parameters that
/// give no client leave the sessions as they were.
pub open spec fn get_or_create(
    sessions: Map<Seq<char>, SessionData>,
    id: Seq<char>,
    opened: Option<redis::Client>,
    now: u64,
) -> (Map<Seq<char>, SessionData>, Result<redis::Client, KVAdminerError>) {
    if sessions.contains_key(id) {
        (touched(sessions, id, sessions[id].client, now), Ok(sessions[id].client))
    } else {
        match opened {
            Some(client) => (touched(sessions, id, client, now), Ok(client)),
            None => (sessions, Err(KVAdminerError::InvalidRedisUrl)),
        }
    }
}

/// Whether a session last served at `last_active` has, at time `now`, been
/// idle for longer than `timeout`.
pub open spec fn is_expired(last_active: u64, now: u64, timeout: u64) -> bool {
    now - last_active > timeout
}

/// The sessions of `sessions` that have not expired at time `now`.
pub open spec fn swept(sessions: Map<Seq<char>, SessionData>, now: u64, timeout: u64) -> Map<
    Seq<char>,
    SessionData,
> {
    Map::new(
        |id: Seq<char>|
            sessions.contains_key(id) && !is_expired(sessions[id].last_active, now, timeout),
        |id: Seq<char>| sessions[id],
    )
}

/// Whether `c` is a digit or one of the letters `a` to `f`.
pub open spec fn is_lower_hex(c: char) -> bool {
    ('0' as u32 <= c as u32 <= '9' as u32) || ('a' as u32 <= c as u32 <= 'f' as u32)
}

/// Whether `id` has the form of a random session identifier: 32 hexadecimal
/// digits in lower case, in groups of 8, 4, 4, 4 and 12 with a hyphen between
/// them, where the first digit of the third group is `4` and the first digit
/// of the fourth is `8`, `9`, `a` or `b`.
pub open spec fn is_session_token(id: Seq<char>) -> bool {
    &&& id.len() == 36
    &&& forall|i: int|
        0 <= i < 36 ==> if i == 8 || i == 13 || i == 18 || i == 23 {
            id[i] == '-'
        } else {
            is_lower_hex(#[trigger] id[i])
        }
    &&& id[14] == '4'
    &&& (id[19] == '8' || id[19] == '9' || id[19] == 'a' || id[19] == 'b')
}

/// A fresh session identifier: `uuid::Uuid::new_v4`, written out by
/// `to_string`, that is by the `Display` of `Uuid`. Which identifier comes is
/// left to chance; every one is a version 4 UUID in the hyphenated
/// lower-case form. The random bytes are the operating system's, and where
/// it has none to give, `new_v4` does not return.
#[verifier::external_body]
pub fn generate_session_id() -> (id: String)
    ensures
        is_session_token(id@),
{
    uuid::Uuid::new_v4().to_string()
}

/// The session identifier of a request: the one that the request brought in
/// its cookie, or a fresh one where it brought none.
pub fn get_or_create_session_id(cookie: Option<&str>) -> (id: String)
    ensures
        cookie matches Some(value) ==> id@ == value@,
        cookie is None ==> is_session_token(id@),
{
    match cookie {
        Some(value) => value.to_owned(),
        None => generate_session_id(),
    }
}

/// `Clone::clone` of `redis::Client`, which the `redis` crate derives: the
/// copy equals the client it was made of.
#[verifier::external_body]
fn clone_client(client: &redis::Client) -> (copy: redis::Client)
    ensures
        copy == *client,
{
    client.clone()
}

impl View for AppState {
    type V = Map<Seq<char>, SessionData>;

    closed spec fn view(&self) -> Map<Seq<char>, SessionData> {
        records(self.connections@)
    }
}

impl AppState {
    #[verifier::type_invariant]
    spec fn well_formed(self) -> bool {
        distinct_ids(self.connections@)
    }

    /// How long a session may be idle before it expires.
    pub closed spec fn timeout(&self) -> u64 {
        self.session_timeout
    }

    /// A cache without sessions, in which a session expires once it has been
    /// idle for longer than `session_timeout`.
    pub fn new(session_timeout: u64) -> (state: AppState)
        ensures
            state@ == Map::<Seq<char>, SessionData>::empty(),
            state.timeout() == session_timeout,
    {
        AppState { connections: Vec::new(), session_timeout }
    }

    /// How long a session may be idle before it expires.
    pub fn session_timeout(&self) -> (timeout: u64)
        ensures
            timeout == self.timeout(),
    {
        self.session_timeout
    }

    /// The number of sessions in the cache.
    pub fn len(&self) -> (n: usize)
        ensures
            n == self@.len(),
            self@.dom().finite(),
    {
        proof {
            use_type_invariant(self);
            lemma_records_len(self.connections@);
        }
        self.connections.len()
    }

    /// The client of session `session_id`, if the cache holds the session,
    /// which is then noted as served at time `now`.
    pub fn touch(&mut self, session_id: &str, now: u64) -> (r: Option<redis::Client>)
        ensures
            r is Some <==> old(self)@.contains_key(session_id@),
            r matches Some(client) ==> client == old(self)@[session_id@].client && final(self)@
                == touched(old(self)@, session_id@, client, now),
            r is None ==> final(self)@ == old(self)@,
            final(self).timeout() == old(self).timeout(),
    {
        proof {
            use_type_invariant(&*self);
        }
        let mut entries: Vec<Session> = Vec::new();
        std::mem::swap(&mut entries, &mut self.connections);
        let ghost before = entries@;
        let found = find_session(&entries, session_id);
        let r = match found {
            Some(i) => {
                let client = clone_client(&entries[i].data.client);
                entries[i].data.last_active = now;
                proof {
                    let data = SessionData { client, last_active: now };
                    lemma_records_update(before, i as int, data);
                    let changed = Session { id: before[i as int].id, data };
                    assert(entries@ == before.update(i as int, changed));
                }
                Some(client)
            },
            None => None,
        };
        self.connections = entries;
        r
    }

    /// Records `client` as the client of session `session_id`, served at
    /// time `now`, in place of what the cache held for the session.
    pub fn record(&mut self, session_id: &str, client: redis::Client, now: u64)
        ensures
            final(self)@ == touched(old(self)@, session_id@, client, now),
            final(self).timeout() == old(self).timeout(),
    {
        proof {
            use_type_invariant(&*self);
        }
        let mut entries: Vec<Session> = Vec::new();
        std::mem::swap(&mut entries, &mut self.connections);
        let ghost before = entries@;
        let data = SessionData { client, last_active: now };
        match find_session(&entries, session_id) {
            Some(i) => {
                entries[i].data = data;
                proof {
                    lemma_records_update(before, i as int, data);
                    let changed = Session { id: before[i as int].id, data };
                    assert(entries@ == before.update(i as int, changed));
                }
            },
            None => {
                entries.push(Session { id: session_id.to_owned(), data });
                proof {
                    lemma_records_dom(before, session_id@);
                    assert(entries@.drop_last() == before);
                }
            },
        }
        self.connections = entries;
    }

    /// When session `session_id` was last served, if it is in the cache.
    pub fn last_active(&self, session_id: &str) -> (r: Option<u64>)
        ensures
            r is Some <==> self@.contains_key(session_id@),
            r matches Some(at) ==> at == self@[session_id@].last_active,
    {
        proof {
            use_type_invariant(self);
        }
        match find_session(&self.connections, session_id) {
            Some(i) => Some(self.connections[i].data.last_active),
            None => None,
        }
    }
}

/// The client that serves session `session_id`, at time `now`.
///
/// A session that the cache holds is served by the client it has, and the
/// time is noted as the time it was last served. For a session that the
/// cache does not hold, a client is made from `info` and recorded; where
/// `info` gives none, the cache stays as it was, so that the next request
/// tries afresh.
pub fn get_redis_client(
    state: &mut AppState,
    session_id: &str,
    info: &RedisInfo,
    now: u64,
) -> (r: Result<redis::Client, KVAdminerError>)
    ensures
        final(state)@ == get_or_create(
            old(state)@,
            session_id@,
            client_of_url(redis_url(info)),
            now,
        ).0,
        r == get_or_create(old(state)@, session_id@, client_of_url(redis_url(info)), now).1,
        final(state).timeout() == old(state).timeout(),
{
    match state.touch(session_id, now) {
        Some(client) => Ok(client),
        None => match create_redis_client(info) {
            Ok(client) => {
                state.record(session_id, clone_client(&client), now);
                Ok(client)
            },
            Err(e) => Err(e),
        },
    }
}

/// Drops every session that, at time `now`, has been idle for longer than
/// the timeout, and no other.
pub fn cleanup_expired_sessions(state: &mut AppState, now: u64)
    ensures
        final(state)@ == swept(old(state)@, now, old(state).timeout()),
        final(state).timeout() == old(state).timeout(),
{
    proof {
        use_type_invariant(&*state);
    }
    let timeout = state.session_timeout;
    let mut entries: Vec<Session> = Vec::new();
    std::mem::swap(&mut entries, &mut state.connections);
    let ghost before = entries@;
    let mut kept: Vec<Session> = Vec::new();
    for entry in it: entries.into_iter()
        invariant
            it.seq() == before,
            distinct_ids(before),
            distinct_ids(kept@),
            records(kept@) == swept(records(before.take(it.index())), now, timeout),
    {
        let ghost seen = before.take(it.index());
        let ghost had = kept@;
        proof {
            assert(before.take(it.index() + 1).drop_last() == seen);
            lemma_records_dom(seen, entry.id@);
            if records(seen).contains_key(entry.id@) {
                let k = choose|k: int| 0 <= k < seen.len() && (#[trigger] seen[k]).id@ == entry.id@;
                assert(before[k].id@ == before[it.index()].id@);
            }
            lemma_records_dom(had, entry.id@);
        }
        let last = entry.data.last_active;
        if !(now > last && now - last > timeout) {
            kept.push(entry);
            proof {
                assert(kept@.drop_last() == had);
                assert forall|a: int, b: int| 0 <= a < b < kept@.len() implies (#[trigger] kept@[a]).id@
                    != (#[trigger] kept@[b]).id@ by {
                    if b == kept@.len() - 1 {
                        assert(had[a].id@ != entry.id@);
                    } else {
                        assert(had[a].id@ != had[b].id@);
                    }
                }
            }
        }
        proof {
            assert(records(kept@) == swept(records(before.take(it.index() + 1)), now, timeout));
        }
    }
    proof {
        assert(before.take(before.len() as int) == before);
    }
    state.connections = kept;
}

/// Where the record of session `session_id` stands in `entries`.
fn find_session(entries: &Vec<Session>, session_id: &str) -> (r: Option<usize>)
    requires
        distinct_ids(entries@),
    ensures
        r is Some <==> records(entries@).contains_key(session_id@),
        r matches Some(i) ==> i < entries.len() && entries@[i as int].id@ == session_id@
            && records(entries@)[session_id@] == entries@[i as int].data,
{
    let wanted = session_id.to_owned();
    let mut i: usize = 0;
    while i < entries.len()
        invariant
            i <= entries.len(),
            distinct_ids(entries@),
            wanted@ == session_id@,
            forall|j: int| 0 <= j < i ==> entries@[j].id@ != session_id@,
        decreases entries.len() - i,
    {
        if entries[i].id == wanted {
            proof {
                lemma_records_lookup(entries@, i as int);
            }
            return Some(i);
        }
        i += 1;
    }
    proof {
        lemma_records_dom(entries@, session_id@);
    }
    None
}

/// The sessions that `entries` record are those that an entry names.
proof fn lemma_records_dom(entries: Seq<Session>, id: Seq<char>)
    ensures
        records(entries).contains_key(id) <==> exists|i: int|
            0 <= i < entries.len() && (#[trigger] entries[i]).id@ == id,
    decreases entries.len(),
{
    if entries.len() > 0 {
        let init = entries.drop_last();
        lemma_records_dom(init, id);
        if records(entries).contains_key(id) {
            if entries.last().id@ == id {
                assert(entries[entries.len() - 1].id@ == id);
            } else {
                let i = choose|i: int| 0 <= i < init.len() && (#[trigger] init[i]).id@ == id;
                assert(entries[i].id@ == id);
            }
        }
        if exists|i: int| 0 <= i < entries.len() && (#[trigger] entries[i]).id@ == id {
            let i = choose|i: int| 0 <= i < entries.len() && (#[trigger] entries[i]).id@ == id;
            if i < init.len() {
                assert(init[i].id@ == id);
            }
        }
    }
}

/// Where no two entries belong to one session, no two of those before the
/// last do.
proof fn lemma_distinct_prefix(entries: Seq<Session>)
    requires
        distinct_ids(entries),
        entries.len() > 0,
    ensures
        distinct_ids(entries.drop_last()),
{
    let init = entries.drop_last();
    assert forall|a: int, b: int| 0 <= a < b < init.len() implies (#[trigger] init[a]).id@ != (
    #[trigger] init[b]).id@ by {
        assert(init[a] == entries[a] && init[b] == entries[b]);
    }
}

/// Where no two entries belong to one session, each entry is what is
/// recorded for its session.
proof fn lemma_records_lookup(entries: Seq<Session>, i: int)
    requires
        distinct_ids(entries),
        0 <= i < entries.len(),
    ensures
        records(entries).contains_key(entries[i].id@),
        records(entries)[entries[i].id@] == entries[i].data,
    decreases entries.len(),
{
    let init = entries.drop_last();
    if i < entries.len() - 1 {
        lemma_distinct_prefix(entries);
        lemma_records_lookup(init, i);
        assert(init[i] == entries[i]);
        assert(entries[i].id@ != entries[entries.len() - 1].id@);
    }
}

/// Where no two entries belong to one session, there are as many sessions
/// as entries.
proof fn lemma_records_len(entries: Seq<Session>)
    requires
        distinct_ids(entries),
    ensures
        records(entries).dom().finite(),
        records(entries).len() == entries.len(),
    decreases entries.len(),
{
    if entries.len() > 0 {
        let init = entries.drop_last();
        lemma_distinct_prefix(entries);
        lemma_records_len(init);
        lemma_records_dom(init, entries.last().id@);
        if records(init).contains_key(entries.last().id@) {
            let i = choose|i: int|
                0 <= i < init.len() && (#[trigger] init[i]).id@ == entries.last().id@;
            assert(entries[i].id@ == entries[entries.len() - 1].id@);
        }
    }
}


/// Where no two entries belong to one session, new data in one entry is new
/// data for its session, and for no other.
proof fn lemma_records_update(entries: Seq<Session>, i: int, data: SessionData)
    requires
        distinct_ids(entries),
        0 <= i < entries.len(),
    ensures
        distinct_ids(entries.update(i, Session { id: entries[i].id, data })),
        records(entries.update(i, Session { id: entries[i].id, data })) == records(entries).insert(
            entries[i].id@,
            data,
        ),
    decreases entries.len(),
{
    let changed = entries.update(i, Session { id: entries[i].id, data });
    assert(distinct_ids(changed)) by {
        assert forall|a: int, b: int| 0 <= a < b < changed.len() implies (#[trigger] changed[a]).id@
            != (#[trigger] changed[b]).id@ by {
            assert(changed[a].id@ == entries[a].id@ && changed[b].id@ == entries[b].id@);
        }
    }
    let init = entries.drop_last();
    if i == entries.len() - 1 {
        assert(changed.drop_last() == init);
        assert(records(changed) == records(entries).insert(entries[i].id@, data));
    } else {
        lemma_distinct_prefix(entries);
        lemma_records_update(init, i, data);
        assert(changed.drop_last() == init.update(i, Session { id: init[i].id, data }));
        assert(changed.last() == entries.last());
        assert(entries[i].id@ != entries[entries.len() - 1].id@);
        assert(records(changed) == records(entries).insert(entries[i].id@, data));
    }
}


/// The sessions after requests for the client of session `id` were served
/// one after the other, at the times `times`, each with connection
/// parameters that give `opened`.
pub open spec fn serve_all(
    sessions: Map<Seq<char>, SessionData>,
    id: Seq<char>,
    opened: Option<redis::Client>,
    times: Seq<u64>,
) -> Map<Seq<char>, SessionData>
    decreases times.len(),
{
    if times.len() == 0 {
        sessions
    } else {
        let before = serve_all(sessions, id, opened, times.drop_last());
        get_or_create(before, id, opened, times.last()).0
    }
}

/// What request number `k` of `serve_all` returns.
pub open spec fn served(
    sessions: Map<Seq<char>, SessionData>,
    id: Seq<char>,
    opened: Option<redis::Client>,
    times: Seq<u64>,
    k: int,
) -> Result<redis::Client, KVAdminerError> {
    get_or_create(serve_all(sessions, id, opened, times.take(k)), id, opened, times[k]).1
}

/// Whether request number `k` of `serve_all` has a client recorded that was
/// made for it: the session is not there when the request comes, and its
/// parameters give a client.
pub open spec fn records_new_client(
    sessions: Map<Seq<char>, SessionData>,
    id: Seq<char>,
    opened: Option<redis::Client>,
    times: Seq<u64>,
    k: int,
) -> bool {
    !serve_all(sessions, id, opened, times.take(k)).contains_key(id) && opened is Some
}

/// However many requests come for a session that the cache does not hold,
/// one client is recorded for it, by the first request, and every request
/// is served by that client. The requests reach the cache one at a time,
/// since each borrows it mutably.
pub proof fn lemma_one_client_per_session(
    sessions: Map<Seq<char>, SessionData>,
    id: Seq<char>,
    client: redis::Client,
    times: Seq<u64>,
)
    requires
        !sessions.contains_key(id),
    ensures
        forall|k: int|
            0 <= k < times.len() ==> #[trigger] served(sessions, id, Some(client), times, k) == Ok::<
                redis::Client,
                KVAdminerError,
            >(client),
        forall|k: int|
            0 <= k < times.len() ==> (#[trigger] records_new_client(
                sessions,
                id,
                Some(client),
                times,
                k,
            ) <==> k == 0),
        times.len() > 0 ==> serve_all(sessions, id, Some(client), times) == touched(
            sessions,
            id,
            client,
            times.last(),
        ),
    decreases times.len(),
{
    if times.len() > 0 {
        let init = times.drop_last();
        lemma_one_client_per_session(sessions, id, client, init);
        let n = times.len() - 1;
        assert(times.take(n) == init);
        assert forall|k: int| 0 <= k < times.len() implies #[trigger] served(
            sessions,
            id,
            Some(client),
            times,
            k,
        ) == Ok::<redis::Client, KVAdminerError>(client) && (records_new_client(
            sessions,
            id,
            Some(client),
            times,
            k,
        ) <==> k == 0) by {
            if k < n {
                assert(times.take(k) == init.take(k));
                assert(times[k] == init[k]);
                assert(served(sessions, id, Some(client), init, k) == Ok::<
                    redis::Client,
                    KVAdminerError,
                >(client));
                assert(records_new_client(sessions, id, Some(client), init, k) <==> k == 0);
            } else {
                if n > 0 {
                    assert(serve_all(sessions, id, Some(client), init) == touched(
                        sessions,
                        id,
                        client,
                        init.last(),
                    ));
                }
            }
        }
        assert(serve_all(sessions, id, Some(client), init) == if n > 0 {
            touched(sessions, id, client, init.last())
        } else {
            sessions
        });
        assert(serve_all(sessions, id, Some(client), times) =~= touched(
            sessions,
            id,
            client,
            times.last(),
        ));
    }
}

/// Connection parameters that give no client leave nothing behind: the
/// request fails and the sessions are as they were.
pub proof fn lemma_failure_is_not_recorded(
    sessions: Map<Seq<char>, SessionData>,
    id: Seq<char>,
    now: u64,
)
    requires
        !sessions.contains_key(id),
    ensures
        get_or_create(sessions, id, None, now).0 == sessions,
        get_or_create(sessions, id, None, now).1 == Err::<redis::Client, KVAdminerError>(
            KVAdminerError::InvalidRedisUrl,
        ),
{
}

/// A session comes into the cache by a request for it and leaves by a
/// sweep, and in no other way: a request for one session leaves every other
/// session as it was, and a sweep brings no session in.
pub proof fn lemma_sessions_come_and_go(
    sessions: Map<Seq<char>, SessionData>,
    id: Seq<char>,
    opened: Option<redis::Client>,
    now: u64,
    timeout: u64,
    other: Seq<char>,
)
    requires
        other != id,
    ensures
        get_or_create(sessions, id, opened, now).0.contains_key(other) == sessions.contains_key(
            other,
        ),
        sessions.contains_key(other) ==> get_or_create(sessions, id, opened, now).0[other]
            == sessions[other],
        sessions.contains_key(id) ==> get_or_create(sessions, id, opened, now).0.contains_key(id),
        swept(sessions, now, timeout).contains_key(other) ==> sessions.contains_key(other),
{
}

/// A sweep drops a session if and only if it has been idle for longer than
/// the timeout; what it keeps, it keeps unchanged.
pub proof fn lemma_sweep_drops_expired(
    sessions: Map<Seq<char>, SessionData>,
    id: Seq<char>,
    now: u64,
    timeout: u64,
)
    ensures
        swept(sessions, now, timeout).contains_key(id) <==> sessions.contains_key(id) && !(now
            - sessions[id].last_active > timeout),
        swept(sessions, now, timeout).contains_key(id) ==> swept(sessions, now, timeout)[id]
            == sessions[id],
{
}

/// A session that was served at time `at` is still there after a sweep at
/// a time `now` that is no more than the timeout later.
pub proof fn lemma_served_session_survives(
    sessions: Map<Seq<char>, SessionData>,
    id: Seq<char>,
    opened: Option<redis::Client>,
    at: u64,
    now: u64,
    timeout: u64,
)
    requires
        get_or_create(sessions, id, opened, at).1 is Ok,
        now - at <= timeout,
    ensures
        swept(get_or_create(sessions, id, opened, at).0, now, timeout).contains_key(id),
        swept(get_or_create(sessions, id, opened, at).0, now, timeout)[id] == get_or_create(
            sessions,
            id,
            opened,
            at,
        ).0[id],
{
}

} // verus!
