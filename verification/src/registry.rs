//! The clients that are connected, each under the key of its session.
use vstd::prelude::*;

use crate::api::{is_answered, ApiError, ApiErrorView, BAD_REQUEST, SERVICE_UNAVAILABLE};
use crate::text::optional_str;

verus! {

/// The session of a client that is connected through standard input and output.
pub const DEFAULT_STDIO_SESSION_KEY: &'static str = "stdio";

/// The header that names the session of a client.
pub const MCP_SESSION_HEADER: &'static str = "mcp-session-id";

/// The header by which a request chooses a client.
pub const API_SESSION_HEADER: &'static str = "x-mcp-session-id";

/// The clients that are connected, each under the key of its session. `P` is
/// whatever stands for a client.
pub struct PeerRegistry<P> {
    entries: Vec<(String, P)>,
}

/// Whether no two entries have the same key.
spec fn distinct_keys<P>(entries: Seq<(String, P)>) -> bool {
    forall|i: int, j: int|
        0 <= i < j < entries.len() ==> (#[trigger] entries[i]).0@ != (#[trigger] entries[j]).0@
}

/// What entries hold: the client under each key.
spec fn peer_map<P>(entries: Seq<(String, P)>) -> Map<Seq<char>, P>
    decreases entries.len(),
{
    if entries.len() == 0 {
        Map::empty()
    } else {
        peer_map(entries.drop_last()).insert(entries.last().0@, entries.last().1)
    }
}

/// The client that serves a request: the one under the key that the request
/// names, and otherwise the one on standard input and output or, without it,
/// the only one.
pub open spec fn selection<P>(peers: Map<Seq<char>, P>, requested: Option<Seq<char>>) -> Result<
    P,
    ApiErrorView,
> {
    match requested {
        Some(key) => if peers.contains_key(key) {
            Ok(peers[key])
        } else {
            Err(
                ApiErrorView::service_unavailable(
                    "no MCP client session registered for '"@ + key + "'"@,
                ),
            )
        },
        None => if peers.contains_key(DEFAULT_STDIO_SESSION_KEY@) {
            Ok(peers[DEFAULT_STDIO_SESSION_KEY@])
        } else if peers.dom().len() == 0 {
            Err(ApiErrorView::service_unavailable("no MCP client is connected yet"@))
        } else if peers.dom().len() == 1 {
            Ok(peers[peers.dom().choose()])
        } else {
            Err(
                ApiErrorView::invalid_request(
                    "multiple MCP client sessions are connected; set the '"@ + API_SESSION_HEADER@
                        + "' header"@,
                ),
            )
        },
    }
}

/// An entry is in the map of the entries, and nothing else is.
proof fn lemma_peer_map<P>(entries: Seq<(String, P)>)
    requires
        distinct_keys(entries),
    ensures
        peer_map(entries).dom().finite(),
        peer_map(entries).dom().len() == entries.len(),
        forall|i: int|
            0 <= i < entries.len() ==> peer_map(entries).contains_key(
                (#[trigger] entries[i]).0@,
            ) && peer_map(entries)[entries[i].0@] == entries[i].1,
        forall|key: Seq<char>| #[trigger]
            peer_map(entries).contains_key(key) ==> exists|i: int|
                0 <= i < entries.len() && (#[trigger] entries[i]).0@ == key,
    decreases entries.len(),
{
    if entries.len() > 0 {
        let first = entries.drop_last();
        let last = entries.len() - 1;
        assert(distinct_keys(first)) by {
            assert forall|i: int, j: int| 0 <= i < j < first.len() implies (#[trigger] first[i]).0@
                != (#[trigger] first[j]).0@ by {
                assert(first[i] == entries[i] && first[j] == entries[j]);
            }
        }
        lemma_peer_map(first);
        assert forall|i: int| 0 <= i < entries.len() implies peer_map(entries).contains_key(
            (#[trigger] entries[i]).0@,
        ) && peer_map(entries)[entries[i].0@] == entries[i].1 by {
            if i < last {
                assert(first[i] == entries[i]);
                assert(entries[i].0@ != entries[last].0@);
            }
        }
        assert forall|key: Seq<char>| #[trigger] peer_map(entries).contains_key(key) implies exists|
            i: int,
        |
            0 <= i < entries.len() && (#[trigger] entries[i]).0@ == key by {
            if key != entries[last].0@ {
                let i = choose|i: int| 0 <= i < first.len() && (#[trigger] first[i]).0@ == key;
                assert(entries[i].0@ == key);
            } else {
                assert(entries[last].0@ == key);
            }
        }
        if peer_map(first).contains_key(entries[last].0@) {
            let i = choose|i: int|
                0 <= i < first.len() && (#[trigger] first[i]).0@ == entries[last].0@;
            assert(entries[i].0@ == entries[last].0@);
        }
    }
}

impl<P> View for PeerRegistry<P> {
    type V = Map<Seq<char>, P>;

    closed spec fn view(&self) -> Map<Seq<char>, P> {
        peer_map(self.entries@)
    }
}

/// The place of a key among entries.
fn position<P>(entries: &Vec<(String, P)>, key: &String) -> (place: Option<usize>)
    ensures
        match place {
            Some(i) => i < entries@.len() && entries@[i as int].0@ == key@,
            None => forall|i: int| 0 <= i < entries@.len() ==> (#[trigger] entries@[i]).0@ != key@,
        },
{
    for i in 0..entries.len()
        invariant
            forall|j: int| 0 <= j < i ==> (#[trigger] entries@[j]).0@ != key@,
    {
        if entries[i].0 == *key {
            return Some(i);
        }
    }
    None
}

impl<P> Default for PeerRegistry<P> {
    /// No client is connected.
    fn default() -> (registry: PeerRegistry<P>)
        ensures
            registry@ == Map::<Seq<char>, P>::empty(),
    {
        PeerRegistry::new()
    }
}

impl<P> PeerRegistry<P> {
    #[verifier::type_invariant]
    spec fn well_formed(self) -> bool {
        distinct_keys(self.entries@)
    }

    /// No client is connected.
    pub fn new() -> (registry: PeerRegistry<P>)
        ensures
            registry@ == Map::<Seq<char>, P>::empty(),
    {
        PeerRegistry { entries: Vec::new() }
    }

    /// Puts a client under a key, in place of one that was there.
    pub fn register(&mut self, key: String, peer: P)
        ensures
            final(self)@ == old(self)@.insert(key@, peer),
    {
        proof {
            use_type_invariant(&*self);
        }
        let mut entries: Vec<(String, P)> = Vec::new();
        std::mem::swap(&mut entries, &mut self.entries);
        let ghost before = entries@;
        proof {
            lemma_peer_map(before);
        }
        let found = position(&entries, &key);
        match found {
            Some(i) => {
                entries.set(i, (key, peer));
            },
            None => {
                entries.push((key, peer));
            },
        }
        proof {
            let place = match found {
                Some(i) => i as int,
                None => before.len() as int,
            };
            assert(entries@[place] == (key, peer));
            assert(distinct_keys(entries@)) by {
                assert forall|i: int, j: int| 0 <= i < j < entries@.len() implies (
                #[trigger] entries@[i]).0@ != (#[trigger] entries@[j]).0@ by {
                    if j < before.len() {
                        assert(before[i].0@ != before[j].0@);
                    }
                }
            }
            lemma_peer_map(entries@);
            let want = peer_map(before).insert(key@, peer);
            assert forall|k: Seq<char>|
                peer_map(entries@).contains_key(k) == #[trigger] want.contains_key(k) by {
                if peer_map(entries@).contains_key(k) {
                    let i = choose|i: int|
                        0 <= i < entries@.len() && (#[trigger] entries@[i]).0@ == k;
                    if k != key@ {
                        assert(before[i] == entries@[i]);
                    }
                }
                if want.contains_key(k) && k != key@ {
                    let i = choose|i: int| 0 <= i < before.len() && (#[trigger] before[i]).0@ == k;
                    assert(before[i] == entries@[i]);
                }
            }
            assert forall|k: Seq<char>| #[trigger] want.contains_key(k) implies peer_map(
                entries@,
            )[k] == want[k] by {
                if k != key@ {
                    let i = choose|i: int| 0 <= i < before.len() && (#[trigger] before[i]).0@ == k;
                    assert(before[i] == entries@[i]);
                }
            }
            assert(peer_map(entries@) =~= want);
        }
        self.entries = entries;
    }

    /// The client that serves a request.
    pub fn select(&self, requested_key: Option<&str>) -> (peer: Result<&P, ApiError>)
        ensures
            match selection(self@, optional_str(requested_key)) {
                Ok(value) => peer matches Ok(p) && *p == value,
                Err(error) => peer matches Err(e) && e@ == error,
            },
            self@.dom().finite(),
    {
        proof {
            use_type_invariant(self);
            lemma_peer_map(self.entries@);
        }
        if let Some(requested_key) = requested_key {
            return match position(&self.entries, &requested_key.to_owned()) {
                Some(i) => Ok(&self.entries[i].1),
                None => {
                    let mut message = "no MCP client session registered for '".to_owned();
                    message.append(requested_key);
                    message.append("'");
                    Err(ApiError::service_unavailable(message))
                },
            };
        }
        if let Some(i) = position(&self.entries, &DEFAULT_STDIO_SESSION_KEY.to_owned()) {
            return Ok(&self.entries[i].1);
        }
        if self.entries.len() == 0 {
            Err(ApiError::service_unavailable("no MCP client is connected yet".to_owned()))
        } else if self.entries.len() == 1 {
            proof {
                let key = self@.dom().choose();
                assert(self@.contains_key(self.entries@[0].0@));
                assert(self@.contains_key(key));
            }
            Ok(&self.entries[0].1)
        } else {
            let mut message = "multiple MCP client sessions are connected; set the '".to_owned();
            message.append(API_SESSION_HEADER);
            message.append("' header");
            Err(ApiError::invalid_request(message))
        }
    }
}

/// A client that is registered serves the requests that name its session, and
/// takes none from the clients under other keys.
pub proof fn registered_client_serves<P>(
    peers: Map<Seq<char>, P>,
    key: Seq<char>,
    peer: P,
    other: Seq<char>,
)
    ensures
        selection(peers.insert(key, peer), Some(key)) == Ok::<P, ApiErrorView>(peer),
        other != key ==> selection(peers.insert(key, peer), Some(other)) == selection(
            peers,
            Some(other),
        ),
{
}

/// Without a session, a request is served by the client on standard input and
/// output, whoever else is connected.
pub proof fn stdio_client_comes_first<P>(peers: Map<Seq<char>, P>, peer: P)
    ensures
        selection(peers.insert(DEFAULT_STDIO_SESSION_KEY@, peer), None) == Ok::<P, ApiErrorView>(
            peer,
        ),
{
}

/// Without a session, a request is served by the only client there is,
/// whatever its key.
pub proof fn only_client_serves<P>(key: Seq<char>, peer: P)
    ensures
        selection(Map::empty().insert(key, peer), None) == Ok::<P, ApiErrorView>(peer),
{
    let peers = Map::<Seq<char>, P>::empty().insert(key, peer);
    assert(peers.dom() =~= set![key]);
    assert(peers.dom().contains(peers.dom().choose())) by {
        assert(peers.dom().contains(key));
    }
}

/// Where no client is connected, every request is answered that the service
/// is unavailable.
pub proof fn no_client_serves_none<P>(requested: Option<Seq<char>>)
    ensures
        selection(Map::<Seq<char>, P>::empty(), requested) matches Err(error) && error.status
            == SERVICE_UNAVAILABLE,
{
}

/// Without a session, a request is refused where two clients are connected
/// and neither is on standard input and output: it must choose.
pub proof fn request_must_choose<P>(peers: Map<Seq<char>, P>, a: Seq<char>, b: Seq<char>)
    requires
        peers.dom().finite(),
        peers.contains_key(a),
        peers.contains_key(b),
        a != b,
        !peers.contains_key(DEFAULT_STDIO_SESSION_KEY@),
    ensures
        selection(peers, None) matches Err(error) && error.status == BAD_REQUEST,
{
    assert(peers.dom().remove(a).contains(b));
    assert(peers.dom().remove(a).len() > 0);
}

/// A request for a session is served by the client of that session alone.
/// Where there is none the service is unavailable, and the answer names the
/// session.
pub proof fn session_is_served_by_its_client_alone<P>(
    peers: Map<Seq<char>, P>,
    session: Seq<char>,
)
    ensures
        match selection(peers, Some(session)) {
            Ok(peer) => peers.contains_key(session) && peer == peers[session],
            Err(error) => !peers.contains_key(session) && is_answered(
                error,
                503,
                "service_unavailable_error"@,
                "no MCP client session registered for '"@ + session + "'"@,
            ),
        },
{
}

/// Who serves a request that names no session: the client under `stdio` if
/// there is one, and otherwise the only client. Without any client the service
/// is unavailable, and between several the request must choose, with the header
/// that the answer names.
pub proof fn request_without_session_is_served_by<P>(peers: Map<Seq<char>, P>, key: Seq<char>)
    requires
        peers.dom().finite(),
    ensures
        peers.contains_key("stdio"@) ==> selection(peers, None) == Ok::<P, ApiErrorView>(
            peers["stdio"@],
        ),
        peers.dom() == set![key] ==> selection(peers, None) == Ok::<P, ApiErrorView>(peers[key]),
        peers.dom() == Set::<Seq<char>>::empty() ==> selection(peers, None) is Err && is_answered(
            selection(peers, None)->Err_0,
            503,
            "service_unavailable_error"@,
            "no MCP client is connected yet"@,
        ),
        peers.dom().len() >= 2 && !peers.contains_key("stdio"@) ==> selection(peers, None) is Err
            && is_answered(
            selection(peers, None)->Err_0,
            400,
            "invalid_request_error"@,
            "multiple MCP client sessions are connected; set the 'x-mcp-session-id' header"@,
        ),
{
    if peers.dom() == set![key] {
        assert(peers.dom().contains(key));
        assert(peers.dom().contains(peers.dom().choose()));
    }
    reveal_strlit("multiple MCP client sessions are connected; set the '");
    reveal_strlit("x-mcp-session-id");
    reveal_strlit("' header");
    reveal_strlit("multiple MCP client sessions are connected; set the 'x-mcp-session-id' header");
    assert("multiple MCP client sessions are connected; set the 'x-mcp-session-id' header"@
        =~= "multiple MCP client sessions are connected; set the '"@ + API_SESSION_HEADER@
        + "' header"@);
}

} // verus!
