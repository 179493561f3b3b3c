//! The bridge at work: how clients are registered, and how a request to the
//! Messages API is served.
use vstd::prelude::*;

use crate::anthropic::{MessagesRequest, MessagesResponse, RequestView, ResponseView};
use crate::api::{
    is_answered, ApiError, ApiErrorView, ServiceFailure, ServiceFailureView, BAD_GATEWAY,
    BAD_REQUEST,
};
use crate::conversion::{messages_request_to_sampling, step_matches, ConversionStep};
use crate::error::BridgeErrorView;
use crate::outcome::{request_outcome, ImageReply, Outcome};
use crate::registry::{
    registered_client_serves, selection, stdio_client_comes_first, PeerRegistry,
    DEFAULT_STDIO_SESSION_KEY,
};
use crate::response::{response_verdict, sampling_result_to_messages_response};
use crate::sampling::{SamplingResult, SamplingResultView};
use crate::streaming::{
    messages_response_to_sse_frames, response_frames, sse_frames, SseFrame, SseFrameView,
};
use crate::text::{
    decimal, decimal_is_injective, decimal_reads_back, decimal_text, number_read, optional_str,
    optional_text,
};

verus! {

/// What the bridge says of itself to a client.
pub const INSTRUCTIONS: &'static str =
    "sampling2api exposes Anthropic-compatible HTTP endpoints backed by MCP client sampling.";

/// What `GET /health` answers.
pub const HEALTHY: &'static str = "ok";

/// The id of the message with this number.
pub open spec fn message_id(number: u64) -> Seq<char> {
    "msg_"@ + decimal(number as nat)
}

/// The number behind a number: behind the last one comes zero.
pub open spec fn next_number(number: u64) -> u64 {
    if number == u64::MAX {
        0
    } else {
        (number + 1) as u64
    }
}

/// How a session gets its key.
#[derive(Debug, Clone)]
pub enum RegistrationStrategy {
    /// All have this one.
    Fixed(String),
    /// The header of the HTTP request names it.
    HttpSessionHeader,
}

impl RegistrationStrategy {
    /// The key of a session, given what the header says.
    pub open spec fn key_for(self, session_header: Option<Seq<char>>) -> Option<Seq<char>> {
        match self {
            RegistrationStrategy::Fixed(key) => Some(key@),
            RegistrationStrategy::HttpSessionHeader => session_header,
        }
    }

    /// The key of a session, given what the header says.
    pub fn session_key(&self, session_header: Option<String>) -> (key: Option<String>)
        ensures
            optional_text(key) == self.key_for(optional_text(session_header)),
    {
        match self {
            RegistrationStrategy::Fixed(key) => Some(key.clone()),
            RegistrationStrategy::HttpSessionHeader => session_header,
        }
    }
}

/// What is to be done when a client introduces itself.
#[derive(Debug)]
pub struct InitializePlan {
    /// Whether to keep what the client says of itself.
    pub set_peer_info: bool,
    /// The key to register the client under, if it has one.
    pub register_as: Option<String>,
}

/// The MCP server that clients connect to. `R` stands for the registry of the
/// clients, wherever it is held.
#[derive(Debug, Clone)]
pub struct SamplingBridgeServer<R> {
    pub registry: R,
    pub registration_strategy: RegistrationStrategy,
}

impl<R> SamplingBridgeServer<R> {
    /// A server for the one client on standard input and output.
    pub fn stdio(registry: R) -> (server: SamplingBridgeServer<R>)
        ensures
            server.registry == registry,
            server.registration_strategy matches RegistrationStrategy::Fixed(key) && key@
                == DEFAULT_STDIO_SESSION_KEY@,
    {
        SamplingBridgeServer {
            registry,
            registration_strategy: RegistrationStrategy::Fixed(
                DEFAULT_STDIO_SESSION_KEY.to_owned(),
            ),
        }
    }

    /// A server for clients that connect over HTTP.
    pub fn http(registry: R) -> (server: SamplingBridgeServer<R>)
        ensures
            server.registry == registry,
            server.registration_strategy is HttpSessionHeader,
    {
        SamplingBridgeServer {
            registry,
            registration_strategy: RegistrationStrategy::HttpSessionHeader,
        }
    }

    /// What is to be done when a client introduces itself: what it says of
    /// itself is kept unless something is known already, and it is registered
    /// if its session has a key.
    pub fn initialize(&self, peer_info_known: bool, session_header: Option<String>) -> (plan:
        InitializePlan)
        ensures
            plan.set_peer_info == !peer_info_known,
            optional_text(plan.register_as) == self.registration_strategy.key_for(
                optional_text(session_header),
            ),
    {
        InitializePlan {
            set_peer_info: !peer_info_known,
            register_as: self.registration_strategy.session_key(session_header),
        }
    }

    /// The key to register a client under once it is ready, if it has one.
    pub fn on_initialized(&self, session_header: Option<String>) -> (register_as: Option<String>)
        ensures
            optional_text(register_as) == self.registration_strategy.key_for(
                optional_text(session_header),
            ),
    {
        self.registration_strategy.session_key(session_header)
    }
}

/// What the bridge holds: the clients, and the number of the next message.
pub struct AppState<P> {
    peers: PeerRegistry<P>,
    next_message_id: u64,
}

/// What a request is answered with.
#[derive(Debug)]
pub enum MessagesReply {
    /// The response in one piece.
    Json(MessagesResponse),
    /// The response as a stream of events.
    Events(Vec<SseFrame>),
}

/// What a [`MessagesReply`] is.
pub enum MessagesReplyView {
    Json(ResponseView),
    Events(Seq<SseFrameView>),
}

impl View for MessagesReply {
    type V = MessagesReplyView;

    open spec fn view(&self) -> MessagesReplyView {
        match self {
            MessagesReply::Json(response) => MessagesReplyView::Json(response@),
            MessagesReply::Events(frames) => MessagesReplyView::Events(sse_frames(frames@)),
        }
    }
}

/// What came of asking a client.
pub open spec fn sampling_outcome(sampled: Result<SamplingResult, ServiceFailure>) -> Result<
    SamplingResultView,
    ServiceFailureView,
> {
    match sampled {
        Ok(result) => Ok(result@),
        Err(failure) => Err(failure@),
    }
}

/// What a request is answered with, given what came of asking the client.
pub open spec fn reply_verdict(
    number: u64,
    stream: bool,
    sampled: Result<SamplingResultView, ServiceFailureView>,
) -> Result<MessagesReplyView, ApiErrorView> {
    match sampled {
        Err(failure) => Err(ApiErrorView::of_service_failure(failure)),
        Ok(result) => match response_verdict(message_id(number), result) {
            Err(error) => Err(ApiErrorView::of_bridge_error(error)),
            Ok(response) => if stream {
                Ok(MessagesReplyView::Events(response_frames(response)))
            } else {
                Ok(MessagesReplyView::Json(response))
            },
        },
    }
}

/// A request that a client was found for.
pub struct Exchange<'a, P> {
    /// The client.
    pub peer: &'a P,
    /// Whether the response is to be streamed.
    pub stream: bool,
    /// How far the conversion of the request has come.
    pub step: ConversionStep,
}

impl<P> Default for AppState<P> {
    /// No client is connected, and no message has a number yet.
    fn default() -> (state: AppState<P>)
        ensures
            state.registered() == Map::<Seq<char>, P>::empty(),
            state.next_number() == 0,
    {
        AppState::new()
    }
}

impl<P> AppState<P> {
    /// The clients that are connected.
    pub closed spec fn registered(self) -> Map<Seq<char>, P> {
        self.peers@
    }

    /// The number of the next message.
    pub closed spec fn next_number(self) -> u64 {
        self.next_message_id
    }

    /// No client is connected, and no message has a number yet.
    pub fn new() -> (state: AppState<P>)
        ensures
            state.registered() == Map::<Seq<char>, P>::empty(),
            state.next_number() == 0,
    {
        AppState { peers: PeerRegistry::new(), next_message_id: 0 }
    }

    /// The clients that are connected.
    pub fn peers(&self) -> (peers: &PeerRegistry<P>)
        ensures
            peers@ == self.registered(),
    {
        &self.peers
    }

    /// Puts a client under a key, in place of one that was there.
    pub fn register(&mut self, key: String, peer: P)
        ensures
            final(self).registered() == old(self).registered().insert(key@, peer),
            final(self).next_number() == old(self).next_number(),
    {
        self.peers.register(key, peer);
    }

    /// An id for a message, with a number that the next id will not have.
    pub fn allocate_message_id(&mut self) -> (id: String)
        ensures
            id@ == message_id(old(self).next_number()),
            final(self).next_number() == next_number(old(self).next_number()),
            final(self).registered() == old(self).registered(),
    {
        let number = self.next_message_id;
        self.next_message_id = number.wrapping_add(1);
        let mut id = "msg_".to_owned();
        id.append(decimal_text(number).as_str());
        id
    }

    /// Begins to serve a request: finds the client, and begins to convert.
    pub fn open_exchange(&self, session: Option<&str>, request: MessagesRequest) -> (exchange:
        Result<Exchange<'_, P>, ApiError>)
        ensures
            match selection(self.registered(), optional_str(session)) {
                Ok(peer) => exchange matches Ok(e) && {
                    &&& *e.peer == peer
                    &&& e.stream == (request@.stream == Some(true))
                    &&& step_matches(e.step, request@, Seq::empty())
                },
                Err(error) => exchange matches Err(e) && e@ == error,
            },
            self.registered().dom().finite(),
    {
        match self.peers.select(session) {
            Ok(peer) => {
                let stream = request.wants_stream();
                Ok(Exchange { peer, stream, step: messages_request_to_sampling(request) })
            },
            Err(error) => Err(error),
        }
    }

    /// Ends to serve a request, with what came of asking the client. Only a
    /// result takes an id.
    pub fn close_exchange(
        &mut self,
        stream: bool,
        sampled: Result<SamplingResult, ServiceFailure>,
    ) -> (reply: Result<MessagesReply, ApiError>)
        ensures
            match reply_verdict(old(self).next_number(), stream, sampling_outcome(sampled)) {
                Ok(value) => reply matches Ok(r) && r@ == value,
                Err(error) => reply matches Err(e) && e@ == error,
            },
            final(self).registered() == old(self).registered(),
            final(self).next_number() == (if sampled is Ok {
                next_number(old(self).next_number())
            } else {
                old(self).next_number()
            }),
    {
        let result = match sampled {
            Ok(result) => result,
            Err(failure) => {
                return Err(ApiError::from_service_error(failure));
            },
        };
        let id = self.allocate_message_id();
        match sampling_result_to_messages_response(id, result) {
            Ok(response) => if stream {
                Ok(MessagesReply::Events(messages_response_to_sse_frames(&response)))
            } else {
                Ok(MessagesReply::Json(response))
            },
            Err(error) => Err(ApiError::from(error)),
        }
    }
}

/// Messages with different numbers have different ids.
pub proof fn message_ids_differ(a: u64, b: u64)
    requires
        a != b,
    ensures
        message_id(a) != message_id(b),
{
    decimal_is_injective(a as nat, b as nat);
    let start = "msg_"@;
    if message_id(a) == message_id(b) {
        assert(message_id(a).skip(start.len() as int) =~= decimal(a as nat));
        assert(message_id(b).skip(start.len() as int) =~= decimal(b as nat));
    }
}

/// The number that comes so many numbers behind a number.
pub open spec fn number_after(start: u64, steps: nat) -> u64
    decreases steps,
{
    if steps == 0 {
        start
    } else {
        next_number(number_after(start, (steps - 1) as nat))
    }
}

/// Counting wraps around behind the last number.
proof fn lemma_number_after(start: u64, steps: nat)
    ensures
        number_after(start, steps) == (start + steps) % (u64::MAX + 1),
    decreases steps,
{
    if steps > 0 {
        lemma_number_after(start, (steps - 1) as nat);
    }
}

/// No id is given twice, before all numbers were given.
pub proof fn message_ids_are_fresh(start: u64, i: nat, j: nat)
    requires
        i < j <= i + u64::MAX,
    ensures
        message_id(number_after(start, i)) != message_id(number_after(start, j)),
{
    lemma_number_after(start, i);
    lemma_number_after(start, j);
    message_ids_differ(number_after(start, i), number_after(start, j));
}

/// A client that connects through standard input and output serves every
/// request that names no session.
pub proof fn stdio_client_serves<P>(
    strategy: RegistrationStrategy,
    session_header: Option<Seq<char>>,
    peers: Map<Seq<char>, P>,
    peer: P,
)
    requires
        strategy matches RegistrationStrategy::Fixed(key) && key@ == DEFAULT_STDIO_SESSION_KEY@,
    ensures
        strategy.key_for(session_header) matches Some(key) && selection(
            peers.insert(key, peer),
            None,
        ) == Ok::<P, ApiErrorView>(peer),
{
    stdio_client_comes_first(peers, peer);
}

/// A client that connects over HTTP serves the requests that name its session.
pub proof fn http_client_serves<P>(session: Seq<char>, peers: Map<Seq<char>, P>, peer: P)
    ensures
        RegistrationStrategy::HttpSessionHeader.key_for(Some(session)) matches Some(key)
            && selection(peers.insert(key, peer), Some(session)) == Ok::<P, ApiErrorView>(peer),
        RegistrationStrategy::HttpSessionHeader.key_for(None) is None,
{
    registered_client_serves(peers, session, peer, session);
}

/// A stream tells what the response in one piece tells, and fails as it does.
pub proof fn stream_agrees_with_response(
    number: u64,
    sampled: Result<SamplingResultView, ServiceFailureView>,
)
    ensures
        match reply_verdict(number, false, sampled) {
            Ok(MessagesReplyView::Json(response)) => reply_verdict(number, true, sampled)
                == Ok::<MessagesReplyView, ApiErrorView>(
                MessagesReplyView::Events(response_frames(response)),
            ),
            Ok(MessagesReplyView::Events(_)) => false,
            Err(error) => reply_verdict(number, true, sampled)
                == Err::<MessagesReplyView, ApiErrorView>(error),
        },
{
}

/// A request that cannot be converted is answered that it is invalid, with
/// what is wrong with it.
pub proof fn refused_request_is_told_why(request: RequestView, replies: Seq<ImageReply>)
    ensures
        request_outcome(request, replies) matches Outcome::Fails(error)
            ==> ApiErrorView::of_bridge_error(error) == (ApiErrorView {
            status: BAD_REQUEST,
            error_type: "invalid_request_error"@,
            message: error.detail(),
        }),
{
}

/// A request that a client could not serve is answered that the gateway is
/// bad, and one whose result has no response that the request is.
pub proof fn failures_tell_who_is_at_fault(
    number: u64,
    stream: bool,
    sampled: Result<SamplingResultView, ServiceFailureView>,
)
    ensures
        reply_verdict(number, stream, sampled) matches Err(error) ==> error.status == (
        if sampled is Err {
            BAD_GATEWAY
        } else {
            BAD_REQUEST
        }),
        sampled is Err ==> reply_verdict(number, stream, sampled) is Err,
{
}

/// An id is `msg_` and the number of the message in decimal, which is read back
/// from it.
pub proof fn message_id_holds_number(number: u64)
    ensures
        "msg_"@.is_prefix_of(message_id(number)),
        message_id(number).len() > 4,
        number_read(message_id(number).skip(4)) == number,
        forall|i: int|
            4 <= i < message_id(number).len() ==> '0' <= #[trigger] message_id(number)[i] <= '9',
        message_id(number).len() > 5 ==> message_id(number)[4] != '0',
{
    reveal_strlit("msg_");
    let id = message_id(number);
    let digits = decimal(number as nat);
    decimal_reads_back(number as nat);
    assert("msg_"@.len() == 4);
    assert(id.subrange(0, 4) =~= "msg_"@);
    assert(id.skip(4) =~= digits);
    assert forall|i: int| 4 <= i < id.len() implies '0' <= #[trigger] id[i] <= '9' by {
        assert(id[i] == digits[i - 4]);
    }
    assert(id[4] == digits[0]);
}

/// Messages are numbered from the first on, one after the other.
pub proof fn numbers_count_up(start: u64, steps: nat)
    ensures
        start + steps <= u64::MAX ==> number_after(start, steps) == start + steps,
        number_after(u64::MAX, 1) == 0,
{
    lemma_number_after(start, steps);
    lemma_number_after(u64::MAX, 1);
}

/// What a strategy makes the key of a session: its own where it has one, and
/// otherwise what the header says, if it says anything.
pub proof fn session_key_is_its_own_or_the_header(key: String, header: Option<Seq<char>>)
    ensures
        RegistrationStrategy::Fixed(key).key_for(header) == Some(key@),
        RegistrationStrategy::HttpSessionHeader.key_for(header) == header,
{
}

/// A request is answered with the response that its result has, under the id
/// with its number: as a stream exactly if it is to be streamed.
pub proof fn reply_is_response_of_result(
    number: u64,
    stream: bool,
    result: SamplingResultView,
)
    ensures
        ({
            let response = response_verdict("msg_"@ + decimal(number as nat), result);
            match reply_verdict(number, stream, Ok(result)) {
                Ok(MessagesReplyView::Json(answer)) => {
                    &&& !stream
                    &&& response == Ok::<ResponseView, BridgeErrorView>(answer)
                },
                Ok(MessagesReplyView::Events(frames)) => {
                    &&& stream
                    &&& response matches Ok(answer)
                    &&& frames == response_frames(answer)
                },
                Err(error) => {
                    &&& response matches Err(reason)
                    &&& is_answered(error, 400, "invalid_request_error"@, reason.detail())
                },
            }
        }),
{
}

/// A client that gives no result is answered as an error behind the bridge,
/// with what the client said, whether or not a stream was asked for.
pub proof fn failure_is_answered_with_its_reason(number: u64, stream: bool, reason: Seq<char>)
    ensures
        reply_verdict(number, stream, Err(ServiceFailureView::Rejected(reason))) matches Err(error)
            && is_answered(
            error,
            502,
            "api_error"@,
            "MCP client rejected sampling request: "@ + reason,
        ),
        reply_verdict(number, stream, Err(ServiceFailureView::Unreachable(reason))) matches Err(
            error,
        ) && is_answered(error, 502, "api_error"@, "failed to reach MCP client: "@ + reason),
{
}

} // verus!
