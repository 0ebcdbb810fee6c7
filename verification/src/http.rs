use vstd::prelude::*;
use vstd::string::*;
use crate::errors::StreamError;

verus! {

/// A GET request handed to the transport capability.
pub struct HttpRequest {
    pub url: String,
    pub headers: Vec<(String, String)>,
    pub timeout_ms: u32,
}

/// What the transport observed: either an HTTP reply (of any status) or a
/// connection-level failure below HTTP semantics.
pub struct RawReply {
    pub status: u16,
    pub status_text: String,
    pub headers: Vec<(String, String)>,
    /// Raw body bytes, for segment payloads.
    pub body: Vec<u8>,
    /// The body decoded as text, for manifest payloads.
    pub body_text: String,
}

pub enum FetchOutcome {
    Arrived(RawReply),
    Failed,
}

/// Mathematical model of a reply.
#[verifier::ext_equal]
pub struct ReplyModel {
    pub status: u16,
    pub status_text: Seq<char>,
    pub headers: Seq<(Seq<char>, Seq<char>)>,
    pub body: Seq<u8>,
    pub body_text: Seq<char>,
}

#[verifier::ext_equal]
pub enum OutcomeModel {
    Arrived(ReplyModel),
    Failed,
}

/// The views of a header list.
pub open spec fn header_views(hs: Seq<(String, String)>) -> Seq<(Seq<char>, Seq<char>)> {
    hs.map_values(|p: (String, String)| (p.0@, p.1@))
}

impl View for RawReply {
    type V = ReplyModel;

    open spec fn view(&self) -> ReplyModel {
        ReplyModel {
            status: self.status,
            status_text: self.status_text@,
            headers: header_views(self.headers@),
            body: self.body@,
            body_text: self.body_text@,
        }
    }
}

impl View for FetchOutcome {
    type V = OutcomeModel;

    open spec fn view(&self) -> OutcomeModel {
        match self {
            FetchOutcome::Arrived(raw) => OutcomeModel::Arrived(raw@),
            FetchOutcome::Failed => OutcomeModel::Failed,
        }
    }
}

/// One observed transport interaction: the request's content and what came
/// back.
#[verifier::ext_equal]
pub struct TransportEvent {
    pub url: Seq<char>,
    pub headers: Seq<(Seq<char>, Seq<char>)>,
    pub timeout_ms: u32,
    pub outcome: OutcomeModel,
}

/// The event one fetch records.
pub open spec fn event_of(request: HttpRequest, outcome: FetchOutcome) -> TransportEvent {
    TransportEvent {
        url: request.url@,
        headers: header_views(request.headers@),
        timeout_ms: request.timeout_ms,
        outcome: outcome@,
    }
}

/// Did the fetch bring a 2xx reply?
pub open spec fn outcome_succeeded(o: OutcomeModel) -> bool {
    o matches OutcomeModel::Arrived(reply) && is_success_status(reply.status)
}

/// The body bytes a fetch yields, when it brought a 2xx reply.
pub open spec fn fetch_ok_body(o: OutcomeModel) -> Option<Seq<u8>> {
    match o {
        OutcomeModel::Arrived(reply) => if is_success_status(reply.status) {
            Some(reply.body)
        } else {
            None
        },
        OutcomeModel::Failed => None,
    }
}

/// The body text a fetch yields, when it brought a 2xx reply.
pub open spec fn fetch_ok_text(o: OutcomeModel) -> Option<Seq<char>> {
    match o {
        OutcomeModel::Arrived(reply) => if is_success_status(reply.status) {
            Some(reply.body_text)
        } else {
            None
        },
        OutcomeModel::Failed => None,
    }
}

/// The injected fetch capability. The host (a browser runtime, a native HTTP
/// stack, or a test script) implements this; the core never performs I/O
/// itself. Nothing is promised of what comes back, but every fetch is
/// recorded in the ghost event log, so callers' contracts can say what was
/// requested and relate their results to each outcome.
pub trait Transport {
    /// The interactions observed so far, oldest first.
    spec fn events(&self) -> Seq<TransportEvent>;

    /// The pause delays taken so far, oldest first.
    spec fn delays(&self) -> Seq<u64>;

    /// Perform one GET and report what came back.
    fn fetch(&mut self, request: &HttpRequest) -> (r: FetchOutcome)
        ensures
            final(self).events() == old(self).events().push(event_of(*request, r)),
            final(self).delays() == old(self).delays(),
    ;

    /// Wait before a retry; the delay is advisory. No fetch happens.
    fn pause(&mut self, delay_ms: u64)
        ensures
            final(self).events() == old(self).events(),
            final(self).delays() == old(self).delays().push(delay_ms),
    ;
}

/// A successful (2xx) response.
pub struct HttpResponse {
    pub status: u16,
    pub status_text: String,
    pub headers: Vec<(String, String)>,
    pub body: Vec<u8>,
    pub body_text: String,
    pub ok: bool,
}

pub open spec fn is_success_status(status: u16) -> bool {
    200 <= status < 300
}

/// How a GET result must relate to the reply the transport recorded: a 2xx
/// reply becomes the response carrying exactly its fields, any other reply
/// the matching error.
pub open spec fn result_matches_outcome(o: OutcomeModel, r: Result<HttpResponse, StreamError>) -> bool {
    match o {
        OutcomeModel::Failed => r matches Err(StreamError::TransportFailure),
        OutcomeModel::Arrived(reply) => if is_success_status(reply.status) {
            r matches Ok(resp) && resp.ok && resp.status == reply.status && resp.status_text@
                == reply.status_text && header_views(resp.headers@) == reply.headers && resp.body@
                == reply.body && resp.body_text@ == reply.body_text
        } else {
            r matches Err(e) && (e matches StreamError::NetworkError { status, status_text }
                && status == reply.status && status_text@ == reply.status_text)
        },
    }
}

/// Sort a raw reply into the error taxonomy: 2xx becomes a response, anything
/// else the exact `NetworkError` carrying the reply's status line.
pub fn classify_reply(raw: RawReply) -> (r: Result<HttpResponse, StreamError>)
    ensures
        is_success_status(raw.status) ==> r == Ok::<HttpResponse, StreamError>(
            HttpResponse {
                status: raw.status,
                status_text: raw.status_text,
                headers: raw.headers,
                body: raw.body,
                body_text: raw.body_text,
                ok: true,
            },
        ),
        !is_success_status(raw.status) ==> r == Err::<HttpResponse, StreamError>(
            StreamError::NetworkError { status: raw.status, status_text: raw.status_text },
        ),
        result_matches_outcome(OutcomeModel::Arrived(raw@), r),
{
    if 200 <= raw.status && raw.status < 300 {
        Ok(
            HttpResponse {
                status: raw.status,
                status_text: raw.status_text,
                headers: raw.headers,
                body: raw.body,
                body_text: raw.body_text,
                ok: true,
            },
        )
    } else {
        Err(StreamError::NetworkError { status: raw.status, status_text: raw.status_text })
    }
}

/// Pair-for-pair copy of a header list.
fn copy_headers(hs: &Vec<(String, String)>) -> (r: Vec<(String, String)>)
    ensures
        header_views(r@) == header_views(hs@),
{
    let mut r: Vec<(String, String)> = Vec::new();
    let mut i: usize = 0;
    while i < hs.len()
        invariant
            i <= hs@.len(),
            r@.len() == i,
            forall|j: int| 0 <= j < i ==> (#[trigger] r@[j]).0@ == hs@[j].0@ && r@[j].1@
                == hs@[j].1@,
        decreases hs@.len() - i,
    {
        let (k, v) = (&hs[i].0, &hs[i].1);
        r.push((k.clone(), v.clone()));
        i = i + 1;
    }
    proof {
        assert(header_views(r@) =~= header_views(hs@));
    }
    r
}

/// Configurable GET-only client: base URL, default headers, timeout. Checks
/// the 2xx range itself rather than trusting the transport to.
pub struct HttpClient {
    pub base_url: Option<String>,
    pub default_headers: Vec<(String, String)>,
    pub timeout_ms: u32,
}

/// Default per-call timeout in milliseconds.
pub open spec fn default_timeout_ms() -> u32 {
    10000
}

impl HttpClient {
    /// A client with no base URL, no default headers, and a 10 s timeout.
    pub fn new() -> (r: Self)
        ensures
            r.base_url is None,
            r.default_headers@.len() == 0,
            r.timeout_ms == default_timeout_ms(),
    {
        HttpClient { base_url: None, default_headers: Vec::new(), timeout_ms: 10000 }
    }

    pub fn with_base_url(&mut self, base_url: &str)
        ensures
            final(self).base_url matches Some(u) && u@ == base_url@,
            final(self).default_headers == old(self).default_headers,
            final(self).timeout_ms == old(self).timeout_ms,
    {
        self.base_url = Some(base_url.to_owned());
    }

    pub fn add_default_header(&mut self, key: &str, value: &str)
        ensures
            final(self).default_headers@.len() == old(self).default_headers@.len() + 1,
            final(self).default_headers@.take(old(self).default_headers@.len() as int)
                == old(self).default_headers@,
            (final(self).default_headers@.last().0@ == key@
                && final(self).default_headers@.last().1@ == value@),
            final(self).base_url == old(self).base_url,
            final(self).timeout_ms == old(self).timeout_ms,
    {
        self.default_headers.push((key.to_owned(), value.to_owned()));
        proof {
            assert(self.default_headers@.take(self.default_headers@.len() - 1)
                =~= old(self).default_headers@);
        }
    }

    pub fn set_timeout(&mut self, timeout_ms: u32)
        ensures
            final(self).timeout_ms == timeout_ms,
            final(self).base_url == old(self).base_url,
            final(self).default_headers == old(self).default_headers,
    {
        self.timeout_ms = timeout_ms;
    }

    /// One GET against the configured base URL. Fails with `NoBaseUrl` before
    /// any transport work if unconfigured; otherwise exactly one request goes
    /// out, carrying the base URL, the default headers and the configured
    /// timeout, and the result reflects the recorded reply: every 2xx comes
    /// back as `Ok` with the reply's fields, every other reply as the
    /// matching error.
    pub fn get<T: Transport>(&self, transport: &mut T) -> (r: Result<HttpResponse, StreamError>)
        ensures
            (self.base_url is None) <==> (r matches Err(StreamError::NoBaseUrl)),
            final(transport).delays() == old(transport).delays(),
            self.base_url is None ==> final(transport).events() == old(transport).events(),
            self.base_url is Some ==> ({
                let ef = final(transport).events();
                &&& ef.len() == old(transport).events().len() + 1
                &&& ef.drop_last() == old(transport).events()
                &&& ef.last().url == self.base_url->0@
                &&& ef.last().headers == header_views(self.default_headers@)
                &&& ef.last().timeout_ms == self.timeout_ms
                &&& result_matches_outcome(ef.last().outcome, r)
            }),
            r matches Ok(resp) ==> resp.ok && is_success_status(resp.status),
            r matches Err(e) ==> (e is NoBaseUrl || e is TransportFailure || e is NetworkError),
            r matches Err(StreamError::NetworkError { status, .. }) ==> !is_success_status(status),
    {
        let url: String = match &self.base_url {
            Some(u) => u.clone(),
            None => {
                return Err(StreamError::NoBaseUrl);
            },
        };
        let headers = copy_headers(&self.default_headers);
        let request = HttpRequest { url, headers, timeout_ms: self.timeout_ms };
        let outcome = transport.fetch(&request);
        proof {
            let ev = event_of(request, outcome);
            assert(final(transport).events().drop_last() =~= old(transport).events());
            assert(final(transport).events().last() == ev);
        }
        match outcome {
            FetchOutcome::Arrived(raw) => classify_reply(raw),
            FetchOutcome::Failed => Err(StreamError::TransportFailure),
        }
    }
}

/// An element under a prefix agrees with the longer sequence.
pub proof fn lemma_prefix_index<A>(a: Seq<A>, b: Seq<A>, i: int)
    requires
        a.is_prefix_of(b),
        0 <= i < a.len(),
    ensures
        b[i] == a[i],
{
    assert(a =~= b.subrange(0, a.len() as int));
    assert(b.subrange(0, a.len() as int)[i] == b[i]);
}

/// Every element under a prefix agrees with the longer sequence.
pub proof fn lemma_prefix_range<A>(a: Seq<A>, b: Seq<A>)
    requires
        a.is_prefix_of(b),
    ensures
        forall|i: int| 0 <= i < a.len() ==> b[i] == #[trigger] a[i],
{
    assert forall|i: int| 0 <= i < a.len() implies b[i] == #[trigger] a[i] by {
        lemma_prefix_index(a, b, i);
    }
}

/// Resolve a possibly-relative URI against a base by concatenation, the
/// manifest's all-relative convention; no general URI-reference resolution.
pub fn resolve_uri(base: &str, rel: &str) -> (r: String)
    ensures
        r@ == base@ + rel@,
{
    let mut s = base.to_owned();
    s.append(rel);
    s
}

/// A transport that replays a scripted list of outcomes, recording each
/// requested URL and each pause. Lets sessions run against a mocked network.
pub struct ScriptedTransport {
    pub replies: Vec<FetchOutcome>,
    pub served: usize,
    pub requested_urls: Vec<String>,
    pub pauses: Vec<u64>,
    pub log: Ghost<Seq<TransportEvent>>,
}

impl ScriptedTransport {
    /// A transport that will serve the given outcomes in order and report a
    /// connection failure once they run out.
    pub fn new(replies: Vec<FetchOutcome>) -> (r: Self)
        ensures
            r.replies == replies,
            r.served == 0,
            r.requested_urls@.len() == 0,
            r.pauses@.len() == 0,
            r.events().len() == 0,
    {
        ScriptedTransport {
            replies,
            served: 0,
            requested_urls: Vec::new(),
            pauses: Vec::new(),
            log: Ghost(Seq::empty()),
        }
    }
}

impl Transport for ScriptedTransport {
    open spec fn events(&self) -> Seq<TransportEvent> {
        self.log@
    }

    open spec fn delays(&self) -> Seq<u64> {
        self.pauses@
    }

    fn fetch(&mut self, request: &HttpRequest) -> (r: FetchOutcome)
        ensures
            final(self).replies == old(self).replies,
            final(self).pauses == old(self).pauses,
            final(self).served == (if old(self).served < old(self).replies@.len() {
                (old(self).served + 1) as usize
            } else {
                old(self).served
            }),
            old(self).served < old(self).replies@.len() ==> r@ == old(self).replies@[old(
                self,
            ).served as int]@,
            old(self).served >= old(self).replies@.len() ==> r is Failed,
            final(self).requested_urls@.len() == old(self).requested_urls@.len() + 1,
            final(self).requested_urls@.last()@ == request.url@,
    {
        self.requested_urls.push(request.url.clone());
        let outcome: FetchOutcome;
        if self.served < self.replies.len() {
            let idx = self.served;
            self.served = idx + 1;
            let reply = &self.replies[idx];
            outcome = match reply {
                FetchOutcome::Arrived(raw) => FetchOutcome::Arrived(
                    RawReply {
                        status: raw.status,
                        status_text: raw.status_text.clone(),
                        headers: copy_headers(&raw.headers),
                        body: copy_bytes(&raw.body),
                        body_text: raw.body_text.clone(),
                    },
                ),
                FetchOutcome::Failed => FetchOutcome::Failed,
            };
        } else {
            outcome = FetchOutcome::Failed;
        }
        self.log = Ghost(self.log@.push(event_of(*request, outcome)));
        proof {
            if old(self).served < old(self).replies@.len() {
                assert(outcome@ =~= old(self).replies@[old(self).served as int]@);
            }
        }
        outcome
    }

    fn pause(&mut self, delay_ms: u64) {
        self.pauses.push(delay_ms);
    }
}

/// Element-for-element copy of a byte buffer.
pub fn copy_bytes(v: &Vec<u8>) -> (r: Vec<u8>)
    ensures
        r@ == v@,
{
    let mut r: Vec<u8> = Vec::new();
    let mut i: usize = 0;
    while i < v.len()
        invariant
            i <= v@.len(),
            r@ == v@.take(i as int),
        decreases v@.len() - i,
    {
        r.push(v[i]);
        i = i + 1;
        proof {
            assert(r@ =~= v@.take(i as int));
        }
    }
    proof {
        assert(v@.take(v@.len() as int) =~= v@);
    }
    r
}

} // verus!
