//! Per-socket state, kept in a concurrent map keyed by the socket handle.

use vstd::prelude::*;
use dashmap::DashMap;

verus! {

/// What the hooks remember about one socket.
#[derive(Clone, Copy, Debug)]
pub struct SocketState {
    pub is_tcp: bool,
    pub is_udp: bool,
    pub first_send_done: bool,
    pub fake_http_proxy: bool,
}

/// Socket type of a stream (TCP) socket.
pub const SOCK_STREAM: i32 = 1;

/// Socket type of a datagram (UDP) socket.
pub const SOCK_DGRAM: i32 = 2;

/// The handle value of a socket that could not be created.
pub const INVALID_SOCKET: usize = usize::MAX;

#[verifier::external_type_specification]
#[verifier::external_body]
#[verifier::reject_recursive_types(K)]
#[verifier::reject_recursive_types(V)]
#[verifier::reject_recursive_types(S)]
pub struct ExDashMap<K, V, S>(DashMap<K, V, S>);

/// The concurrent map behind a socket table.
pub type SocketMap = DashMap<usize, SocketState>;

/// The entries of a socket map.
pub uninterp spec fn socket_entries(map: SocketMap) -> Map<usize, SocketState>;

/// The entries of a table with no sockets.
pub open spec fn no_sockets() -> Map<usize, SocketState> {
    Map::empty()
}

/// `DashMap::new`: a map with no entries.
#[verifier::external_body]
fn socket_map_new() -> (created: SocketMap)
    ensures
        socket_entries(created) == no_sockets(),
{
    DashMap::new()
}

/// `DashMap::insert`: sets the entry for `key` and hands back the value it replaced.
#[verifier::external_body]
fn socket_map_insert(map: &mut SocketMap, key: usize, value: SocketState) -> (previous: Option<SocketState>)
    ensures
        socket_entries(*final(map)) == socket_entries(*old(map)).insert(key, value),
        previous == (if socket_entries(*old(map)).contains_key(key) {
            Some(socket_entries(*old(map))[key])
        } else {
            None
        }),
{
    map.insert(key, value)
}

/// `DashMap::remove`: drops the entry for `key` and hands it back.
#[verifier::external_body]
fn socket_map_remove(map: &mut SocketMap, key: usize) -> (removed: Option<(usize, SocketState)>)
    ensures
        socket_entries(*final(map)) == socket_entries(*old(map)).remove(key),
        removed == (if socket_entries(*old(map)).contains_key(key) {
            Some((key, socket_entries(*old(map))[key]))
        } else {
            None
        }),
{
    map.remove(&key)
}

/// `DashMap::get`: a copy of the entry for `key`.
#[verifier::external_body]
fn socket_map_get(map: &SocketMap, key: usize) -> (found: Option<SocketState>)
    ensures
        found == (if socket_entries(*map).contains_key(key) {
            Some(socket_entries(*map)[key])
        } else {
            None
        }),
{
    match map.get(&key) {
        Some(entry) => Some(*entry),
        None => None,
    }
}

/// The state a newly created socket of type `type_` starts in.
pub open spec fn fresh_socket_state(type_: i32) -> SocketState {
    SocketState {
        is_tcp: type_ == SOCK_STREAM,
        is_udp: type_ == SOCK_DGRAM,
        first_send_done: false,
        fake_http_proxy: false,
    }
}

/// The table of live sockets.
pub struct SocketTable {
    sockets: SocketMap,
}

impl View for SocketTable {
    type V = Map<usize, SocketState>;

    closed spec fn view(&self) -> Map<usize, SocketState> {
        socket_entries(self.sockets)
    }
}

impl SocketTable {
    /// An empty table.
    pub fn new() -> (t: Self)
        ensures
            t@ == no_sockets(),
    {
        SocketTable { sockets: socket_map_new() }
    }

    /// The state of socket `sock_id`, if it is registered.
    pub fn get(&self, sock_id: usize) -> (found: Option<SocketState>)
        ensures
            found == (if self@.contains_key(sock_id) { Some(self@[sock_id]) } else { None }),
    {
        socket_map_get(&self.sockets, sock_id)
    }

    /// Stores a changed state for a socket that is registered; others are left alone.
    pub fn update(&mut self, sock_id: usize, state: SocketState)
        ensures
            final(self)@ == (if old(self)@.contains_key(sock_id) {
                old(self)@.insert(sock_id, state)
            } else {
                old(self)@
            }),
    {
        if socket_map_get(&self.sockets, sock_id).is_some() {
            let _ = socket_map_insert(&mut self.sockets, sock_id, state);
        }
    }
}

/// Records a newly created socket; a failed creation (`INVALID_SOCKET`) is ignored.
pub fn register_socket(table: &mut SocketTable, sock_id: usize, type_: i32)
    ensures
        final(table)@ == (if sock_id != INVALID_SOCKET {
            old(table)@.insert(sock_id, fresh_socket_state(type_))
        } else {
            old(table)@
        }),
        sock_id != usize::MAX ==> final(table)@.contains_key(sock_id)
            && final(table)@[sock_id].is_tcp == (type_ == 1)
            && final(table)@[sock_id].is_udp == (type_ == 2)
            && !final(table)@[sock_id].first_send_done
            && !final(table)@[sock_id].fake_http_proxy,
        sock_id == usize::MAX ==> final(table)@ == old(table)@,
        forall|k: usize| k != sock_id ==> (#[trigger] final(table)@.contains_key(k) == old(table)@.contains_key(k)
            && (old(table)@.contains_key(k) ==> final(table)@[k] == old(table)@[k])),
{
    if sock_id != INVALID_SOCKET {
        let _ = socket_map_insert(
            &mut table.sockets,
            sock_id,
            SocketState {
                is_tcp: type_ == SOCK_STREAM,
                is_udp: type_ == SOCK_DGRAM,
                first_send_done: false,
                fake_http_proxy: false,
            },
        );
    }
}

/// Forgets a closed socket.
pub fn remove_socket(table: &mut SocketTable, sock_id: usize)
    ensures
        final(table)@ == old(table)@.remove(sock_id),
        !final(table)@.contains_key(sock_id),
        forall|k: usize| k != sock_id ==> (#[trigger] final(table)@.contains_key(k) == old(table)@.contains_key(k)
            && (old(table)@.contains_key(k) ==> final(table)@[k] == old(table)@[k])),
{
    let _ = socket_map_remove(&mut table.sockets, sock_id);
}

/// A send on a socket: the state afterwards, and whether it was the first send.
pub open spec fn first_send_transition(state: SocketState) -> (SocketState, bool) {
    (SocketState { first_send_done: true, ..state }, !state.first_send_done)
}

/// Marks the first send on a socket and tells whether this send is the first.
pub fn take_first_send(state: &mut SocketState) -> (first: bool)
    ensures
        (*final(state), first) == first_send_transition(*old(state)),
        first == !old(state).first_send_done,
        final(state).first_send_done,
        final(state).is_tcp == old(state).is_tcp && final(state).is_udp == old(state).is_udp,
        final(state).fake_http_proxy == old(state).fake_http_proxy,
{
    let first = !state.first_send_done;
    state.first_send_done = true;
    first
}

/// A socket is never taken for both a stream and a datagram socket.
pub proof fn lemma_fresh_state_one_kind(type_: i32)
    ensures
        !(fresh_socket_state(type_).is_tcp && fresh_socket_state(type_).is_udp),
        !fresh_socket_state(type_).first_send_done,
        !fresh_socket_state(type_).fake_http_proxy,
{
}

/// Only the first send on a socket is reported as first.
pub proof fn lemma_first_send_once(state: SocketState)
    ensures
        !first_send_transition(first_send_transition(state).0).1,
        first_send_transition(first_send_transition(state).0).0 == first_send_transition(state).0,
{
}

/// Registering a socket and then removing it leaves no entry for it, and
/// every other entry as it was.
pub proof fn lemma_register_then_remove(sockets: Map<usize, SocketState>, sock_id: usize, type_: i32)
    ensures
        sockets.insert(sock_id, fresh_socket_state(type_)).remove(sock_id) == sockets.remove(sock_id),
{
    assert(sockets.insert(sock_id, fresh_socket_state(type_)).remove(sock_id) =~= sockets.remove(sock_id));
}

} // verus!
