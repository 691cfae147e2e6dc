//! The relay server's decisions. One TCP client (the radar reader)
//! authenticates with the API key; from then on, each message it sends is
//! forwarded to every connected WebSocket client. The event loop itself,
//! which receives network events and sends the data, stands outside; it
//! hands each event to [`RelayState::handle`] and carries out the outcome.
use vstd::prelude::*;
use vstd::utf8::valid_utf8;
use vstd::string::StringSliceAdditionalSpecFns;
use message_io::network::Endpoint;

verus! {

/// The network library's endpoint type, carried through unchanged so that
/// the event loop can send to the peers the relay selects.
#[verifier::external_type_specification]
#[verifier::external_body]
pub struct ExEndpoint(Endpoint);

/// A connection as the relay sees it: `key` is the raw value of the
/// connection's resource id, `adapter` the id of the transport adapter it
/// came through, and `endpoint` the network library's handle used to send
/// to it. The library gives each TCP or WebSocket connection a resource id
/// of its own, whose peer address does not change, so two peers are the
/// same connection exactly when their keys are equal.
#[derive(Clone, Copy)]
pub struct Peer {
    pub key: usize,
    pub adapter: u8,
    pub endpoint: Endpoint,
}

/// A network event, as the event loop reports it.
pub enum RelayEvent {
    /// An outgoing connection was established.
    Connected(Peer),
    /// A listener accepted a new connection.
    Accepted(Peer),
    /// A message arrived from a connection.
    Message(Peer, Vec<u8>),
    /// A connection was closed.
    Disconnected(Peer),
}

/// What the relay decided about one event.
pub enum RelayOutcome {
    /// An outgoing connection was reported; nothing changes.
    Connected,
    /// A WebSocket client was accepted and now receives the relayed data.
    AcceptedWebSocket,
    /// A connection on another listener (the TCP one) was accepted.
    AcceptedTcp,
    /// A message came from a connection that is not on the TCP listener.
    UnexpectedMessage,
    /// No client was authenticated and this message was the API key:
    /// its sender is now the authenticated client.
    Authenticated,
    /// No client was authenticated and this message was valid UTF-8 text
    /// other than the API key.
    AuthRejected,
    /// No client was authenticated and this message is not UTF-8 text
    /// (the event loop stops, as on a failed decoding).
    AuthNotUtf8,
    /// A client other than the authenticated one sent data on the TCP listener.
    Unauthorized,
    /// The authenticated client sent data: send it to each of these peers.
    Broadcast(Vec<Peer>),
    /// A connection closed; the flag tells whether it was the
    /// authenticated client (which is then forgotten).
    Disconnected(bool),
}

/// The abstract state of the relay.
pub struct RelayView {
    /// Adapter id of the TCP listener.
    pub tcp_adapter: u8,
    /// Adapter id of the WebSocket listener.
    pub ws_adapter: u8,
    /// The UTF-8 bytes of the API key.
    pub api_key: Seq<u8>,
    /// The connected WebSocket clients, in the order they were accepted.
    pub ws: Seq<Peer>,
    /// The authenticated TCP client, if any.
    pub auth: Option<Peer>,
}

/// Whether the client with key `key` is the authenticated one.
pub open spec fn is_authenticated(s: RelayView, key: usize) -> bool {
    s.auth matches Some(a) && a.key == key
}

/// The keys of a sequence of peers.
pub open spec fn peer_keys(peers: Seq<Peer>) -> Seq<usize> {
    peers.map_values(|p: Peer| p.key)
}

/// Whether some peer in `peers` has key `key`.
pub open spec fn has_key(peers: Seq<Peer>, key: usize) -> bool {
    exists|i: int| 0 <= i < peers.len() && peers[i].key == key
}

/// No two peers in `peers` share a key.
pub open spec fn distinct_keys(peers: Seq<Peer>) -> bool {
    forall|i: int, j: int| 0 <= i < j < peers.len() ==> peers[i].key != peers[j].key
}

/// `peers` without the peer whose key is `key`, if there is one.
pub open spec fn remove_key(peers: Seq<Peer>, key: usize) -> Seq<Peer> {
    if has_key(peers, key) {
        peers.remove(choose|i: int| 0 <= i < peers.len() && peers[i].key == key)
    } else {
        peers
    }
}

/// The state after `event`.
pub open spec fn next_view(s: RelayView, event: RelayEvent) -> RelayView {
    match event {
        RelayEvent::Connected(_) => s,
        RelayEvent::Accepted(p) => {
            if p.adapter == s.ws_adapter && !has_key(s.ws, p.key) {
                RelayView { ws: s.ws.push(p), ..s }
            } else {
                s
            }
        },
        RelayEvent::Message(p, data) => {
            if p.adapter == s.tcp_adapter && s.auth is None && data@ == s.api_key {
                RelayView { auth: Some(p), ..s }
            } else {
                s
            }
        },
        RelayEvent::Disconnected(p) => RelayView {
            ws: remove_key(s.ws, p.key),
            auth: if is_authenticated(s, p.key) {
                None
            } else {
                s.auth
            },
            ..s
        },
    }
}

/// Whether `outcome` is the relay's decision on `event` in state `s`.
pub open spec fn is_outcome(s: RelayView, event: RelayEvent, outcome: RelayOutcome) -> bool {
    match event {
        RelayEvent::Connected(_) => outcome is Connected,
        RelayEvent::Accepted(p) => if p.adapter == s.ws_adapter {
            outcome is AcceptedWebSocket
        } else {
            outcome is AcceptedTcp
        },
        RelayEvent::Message(p, data) => {
            if p.adapter != s.tcp_adapter {
                outcome is UnexpectedMessage
            } else if s.auth is None {
                if data@ == s.api_key {
                    outcome is Authenticated
                } else if valid_utf8(data@) {
                    outcome is AuthRejected
                } else {
                    outcome is AuthNotUtf8
                }
            } else if !is_authenticated(s, p.key) {
                outcome is Unauthorized
            } else {
                outcome matches RelayOutcome::Broadcast(targets) && targets@ == s.ws
            }
        },
        RelayEvent::Disconnected(p) => outcome == RelayOutcome::Disconnected(
            is_authenticated(s, p.key),
        ),
    }
}

/// Only the authenticated client's data is relayed: whenever the relay
/// decides to broadcast, the event was a message from the TCP listener,
/// sent by the client that authenticated.
pub proof fn lemma_broadcast_only_from_authenticated(
    s: RelayView,
    event: RelayEvent,
    outcome: RelayOutcome,
)
    requires
        is_outcome(s, event, outcome),
        outcome is Broadcast,
    ensures
        event matches RelayEvent::Message(p, _) && p.adapter == s.tcp_adapter && is_authenticated(
            s,
            p.key,
        ),
{
}

/// A broadcast reaches exactly the connected WebSocket clients.
pub proof fn lemma_broadcast_reaches_all_clients(
    s: RelayView,
    event: RelayEvent,
    outcome: RelayOutcome,
)
    requires
        is_outcome(s, event, outcome),
        outcome is Broadcast,
    ensures
        outcome matches RelayOutcome::Broadcast(targets) && targets@.to_set() == s.ws.to_set(),
{
}

/// A client becomes authenticated only when none was, by sending exactly
/// the API key over the TCP listener.
pub proof fn lemma_authentication_needs_key(s: RelayView, event: RelayEvent)
    requires
        next_view(s, event).auth != s.auth,
        next_view(s, event).auth is Some,
    ensures
        s.auth is None,
        event matches RelayEvent::Message(p, data) && p.adapter == s.tcp_adapter && data@
            == s.api_key && next_view(s, event).auth == Some(p),
{
}

/// Once a client is authenticated, only its disconnection changes that.
pub proof fn lemma_authentication_kept_until_disconnect(s: RelayView, event: RelayEvent)
    requires
        s.auth is Some,
        next_view(s, event).auth != s.auth,
    ensures
        event matches RelayEvent::Disconnected(p) && is_authenticated(s, p.key),
        next_view(s, event).auth is None,
{
}

/// After a connection closes, it is neither a WebSocket client nor the
/// authenticated client.
pub proof fn lemma_disconnect_forgets(s: RelayView, p: Peer)
    requires
        distinct_keys(s.ws),
    ensures
        !has_key(next_view(s, RelayEvent::Disconnected(p)).ws, p.key),
        !is_authenticated(next_view(s, RelayEvent::Disconnected(p)), p.key),
{
    if has_key(s.ws, p.key) {
        let c = choose|i: int| 0 <= i < s.ws.len() && s.ws[i].key == p.key;
        let after = s.ws.remove(c);
        assert forall|i: int| 0 <= i < after.len() implies after[i].key != p.key by {
            if i < c {
                assert(after[i] == s.ws[i]);
            } else {
                assert(after[i] == s.ws[i + 1]);
            }
        }
    }
}

/// A disconnection takes away at most the disconnecting peer from the
/// WebSocket clients, whether or not it was the authenticated client:
/// every other client stays, and no client is added.
pub proof fn lemma_disconnect_keeps_others(s: RelayView, p: Peer)
    ensures
        forall|i: int|
            0 <= i < s.ws.len() && s.ws[i].key != p.key ==> next_view(
                s,
                RelayEvent::Disconnected(p),
            ).ws.contains(#[trigger] s.ws[i]),
        forall|q: Peer|
            #[trigger] next_view(s, RelayEvent::Disconnected(p)).ws.contains(q) ==> s.ws.contains(q),
        next_view(s, RelayEvent::Disconnected(p)).ws.len() + 1 >= s.ws.len(),
{
    let after = next_view(s, RelayEvent::Disconnected(p)).ws;
    if has_key(s.ws, p.key) {
        let c = choose|i: int| 0 <= i < s.ws.len() && s.ws[i].key == p.key;
        assert(after == s.ws.remove(c));
        assert forall|i: int| 0 <= i < s.ws.len() && s.ws[i].key != p.key implies after.contains(
            #[trigger] s.ws[i],
        ) by {
            if i < c {
                assert(after[i] == s.ws[i]);
            } else {
                assert(after[i - 1] == s.ws[i]);
            }
        }
        assert forall|q: Peer| #[trigger] after.contains(q) implies s.ws.contains(q) by {
            let j = choose|j: int| 0 <= j < after.len() && after[j] == q;
            if j < c {
                assert(s.ws[j] == q);
            } else {
                assert(s.ws[j + 1] == q);
            }
        }
    } else {
        assert forall|i: int| 0 <= i < s.ws.len() && s.ws[i].key != p.key implies after.contains(
            #[trigger] s.ws[i],
        ) by {
            assert(after[i] == s.ws[i]);
        }
    }
}

/// Only acceptances and disconnections change the WebSocket clients: an
/// outgoing connection or a message leaves them as they are, and an
/// acceptance adds at most the accepted peer, at the end, keeping all others.
pub proof fn lemma_clients_change_only_on_connections(s: RelayView, event: RelayEvent)
    ensures
        event is Connected || event is Message ==> next_view(s, event).ws == s.ws,
        forall|p: Peer|
            event == RelayEvent::Accepted(p) ==> (next_view(s, event).ws == s.ws || next_view(
                s,
                event,
            ).ws == s.ws.push(p)),
        forall|p: Peer|
            event == RelayEvent::Accepted(p) && p.adapter == s.ws_adapter ==> (next_view(
                s,
                event,
            ).ws.contains(p) || has_key(s.ws, p.key)),
{
    if let RelayEvent::Accepted(p) = event {
        if p.adapter == s.ws_adapter && !has_key(s.ws, p.key) {
            assert(s.ws.push(p)[s.ws.len() as int] == p);
        }
    }
}

/// The relay's invariant is kept by every event: no WebSocket client is
/// held twice, and each came through the WebSocket listener.
pub proof fn lemma_step_keeps_invariant(s: RelayView, event: RelayEvent)
    requires
        distinct_keys(s.ws),
        forall|i: int| 0 <= i < s.ws.len() ==> #[trigger] s.ws[i].adapter == s.ws_adapter,
    ensures
        distinct_keys(next_view(s, event).ws),
        forall|i: int|
            0 <= i < next_view(s, event).ws.len() ==> #[trigger] next_view(s, event).ws[i].adapter
                == s.ws_adapter,
        next_view(s, event).ws_adapter == s.ws_adapter,
{
    match event {
        RelayEvent::Disconnected(p) => {
            if has_key(s.ws, p.key) {
                let c = choose|i: int| 0 <= i < s.ws.len() && s.ws[i].key == p.key;
                let after = s.ws.remove(c);
                assert forall|i: int| 0 <= i < after.len() implies after[i] == s.ws[if i < c {
                    i
                } else {
                    i + 1
                }] by {}
            }
        },
        RelayEvent::Accepted(p) => {
            if p.adapter == s.ws_adapter && !has_key(s.ws, p.key) {
                let after = s.ws.push(p);
                assert forall|i: int, j: int| 0 <= i < j < after.len() implies after[i].key
                    != after[j].key by {
                    if j == s.ws.len() {
                        assert(after[i] == s.ws[i]);
                    }
                }
            }
        },
        _ => {},
    }
}

/// A WebSocket client that connects and then disconnects leaves the relay
/// as it was.
pub proof fn lemma_accept_then_disconnect(s: RelayView, p: Peer)
    requires
        distinct_keys(s.ws),
        !has_key(s.ws, p.key),
        p.adapter == s.ws_adapter,
        !is_authenticated(s, p.key),
    ensures
        next_view(next_view(s, RelayEvent::Accepted(p)), RelayEvent::Disconnected(p)) == s,
{
    let mid = next_view(s, RelayEvent::Accepted(p));
    assert(mid.ws == s.ws.push(p));
    assert(mid.ws[s.ws.len() as int].key == p.key);
    assert(has_key(mid.ws, p.key));
    let c = choose|i: int| 0 <= i < mid.ws.len() && mid.ws[i].key == p.key;
    if c < s.ws.len() {
        assert(s.ws[c] == mid.ws[c]);
        assert(false);
    }
    assert(mid.ws.remove(c) =~= s.ws);
}

/// Wraps `std::str::from_utf8`: tells whether `bytes` is well-formed UTF-8,
/// as the standard library checks it; `valid_utf8` is vstd's statement of
/// that well-formedness.
#[verifier::external_body]
fn is_utf8(bytes: &[u8]) -> (res: bool)
    ensures
        res == valid_utf8(bytes@),
{
    std::str::from_utf8(bytes).is_ok()
}

/// The relay server's state.
pub struct RelayState {
    tcp_adapter: u8,
    ws_adapter: u8,
    api_key: Vec<u8>,
    ws_peers: Vec<Peer>,
    auth: Option<Peer>,
}

impl RelayState {
    /// The abstract state.
    pub closed spec fn view(&self) -> RelayView {
        RelayView {
            tcp_adapter: self.tcp_adapter,
            ws_adapter: self.ws_adapter,
            api_key: self.api_key@,
            ws: self.ws_peers@,
            auth: self.auth,
        }
    }

    /// The state's invariant: no WebSocket client is held twice, and each
    /// came through the WebSocket listener.
    pub closed spec fn wf(&self) -> bool {
        &&& distinct_keys(self.ws_peers@)
        &&& forall|i: int|
            0 <= i < self.ws_peers@.len() ==> #[trigger] self.ws_peers@[i].adapter
                == self.ws_adapter
    }

    /// A relay with no client: `tcp_adapter` and `ws_adapter` are the
    /// adapter ids of the two listeners, `api_key` the key that the
    /// radar reader must send first.
    pub fn new(tcp_adapter: u8, ws_adapter: u8, api_key: &str) -> (res: RelayState)
        ensures
            res.wf(),
            res.view() == (RelayView {
                tcp_adapter,
                ws_adapter,
                api_key: api_key.spec_bytes(),
                ws: Seq::empty(),
                auth: None,
            }),
    {
        let bytes = api_key.as_bytes();
        let mut key: Vec<u8> = Vec::new();
        let mut i: usize = 0;
        while i < bytes.len()
            invariant
                i <= bytes@.len(),
                key@ == bytes@.subrange(0, i as int),
            decreases bytes@.len() - i,
        {
            key.push(bytes[i]);
            i = i + 1;
            assert(key@ == bytes@.subrange(0, i as int));
        }
        assert(key@ == bytes@);
        RelayState { tcp_adapter, ws_adapter, api_key: key, ws_peers: Vec::new(), auth: None }
    }

    /// The number of connected WebSocket clients.
    pub fn ws_count(&self) -> (n: usize)
        ensures
            n == self.view().ws.len(),
    {
        self.ws_peers.len()
    }

    /// Index of the WebSocket client with key `key`, if it is held.
    fn find_ws(&self, key: usize) -> (res: Option<usize>)
        requires
            self.wf(),
        ensures
            match res {
                Some(i) => i < self.ws_peers@.len() && self.ws_peers@[i as int].key == key,
                None => !has_key(self.ws_peers@, key),
            },
    {
        let mut i: usize = 0;
        while i < self.ws_peers.len()
            invariant
                i <= self.ws_peers@.len(),
                forall|j: int| 0 <= j < i ==> self.ws_peers@[j].key != key,
            decreases self.ws_peers@.len() - i,
        {
            if self.ws_peers[i].key == key {
                return Some(i);
            }
            i = i + 1;
        }
        None
    }

    /// Whether `data` is the API key.
    fn is_api_key(&self, data: &[u8]) -> (res: bool)
        ensures
            res == (data@ == self.api_key@),
    {
        if data.len() != self.api_key.len() {
            return false;
        }
        let mut i: usize = 0;
        while i < data.len()
            invariant
                data@.len() == self.api_key@.len(),
                i <= data@.len(),
                forall|j: int| 0 <= j < i ==> data@[j] == self.api_key@[j],
            decreases data@.len() - i,
        {
            if data[i] != self.api_key[i] {
                return false;
            }
            i = i + 1;
        }
        assert(data@ == self.api_key@);
        true
    }

    /// Decides on one network event: updates the state to
    /// `next_view(old, event)` and returns the outcome that `is_outcome`
    /// prescribes.
    pub fn handle(&mut self, event: RelayEvent) -> (outcome: RelayOutcome)
        requires
            old(self).wf(),
        ensures
            final(self).wf(),
            final(self).view() == next_view(old(self).view(), event),
            is_outcome(old(self).view(), event, outcome),
    {
        match event {
            RelayEvent::Connected(_) => RelayOutcome::Connected,
            RelayEvent::Accepted(p) => {
                if p.adapter == self.ws_adapter {
                    match self.find_ws(p.key) {
                        Some(_) => {},
                        None => {
                            self.ws_peers.push(p);
                        },
                    }
                    RelayOutcome::AcceptedWebSocket
                } else {
                    RelayOutcome::AcceptedTcp
                }
            },
            RelayEvent::Message(p, data) => {
                if p.adapter != self.tcp_adapter {
                    RelayOutcome::UnexpectedMessage
                } else {
                    match self.auth {
                        None => {
                            if self.is_api_key(data.as_slice()) {
                                self.auth = Some(p);
                                RelayOutcome::Authenticated
                            } else if is_utf8(data.as_slice()) {
                                RelayOutcome::AuthRejected
                            } else {
                                RelayOutcome::AuthNotUtf8
                            }
                        },
                        Some(a) => {
                            if a.key != p.key {
                                RelayOutcome::Unauthorized
                            } else {
                                let mut targets: Vec<Peer> = Vec::new();
                                let mut i: usize = 0;
                                while i < self.ws_peers.len()
                                    invariant
                                        i <= self.ws_peers@.len(),
                                        targets@ == self.ws_peers@.subrange(0, i as int),
                                    decreases self.ws_peers@.len() - i,
                                {
                                    targets.push(self.ws_peers[i]);
                                    i = i + 1;
                                    assert(targets@ == self.ws_peers@.subrange(0, i as int));
                                }
                                assert(targets@ == self.ws_peers@);
                                RelayOutcome::Broadcast(targets)
                            }
                        },
                    }
                }
            },
            RelayEvent::Disconnected(p) => {
                let was_auth = match self.auth {
                    Some(a) => a.key == p.key,
                    None => false,
                };
                match self.find_ws(p.key) {
                    Some(i) => {
                        let ghost before = self.ws_peers@;
                        proof {
                            let c = choose|j: int| 0 <= j < before.len() && before[j].key == p.key;
                            assert(c == i as int);
                        }
                        self.ws_peers.remove(i);
                    },
                    None => {},
                }
                if was_auth {
                    self.auth = None;
                }
                RelayOutcome::Disconnected(was_auth)
            },
        }
    }
}

} // verus!
