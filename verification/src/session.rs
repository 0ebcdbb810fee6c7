use vstd::prelude::*;
use crate::errors::{is_transient, StreamError};
use crate::http::{
    fetch_ok_text, header_views, is_success_status, lemma_prefix_index, lemma_prefix_range,
    outcome_succeeded, result_matches_outcome, HttpClient, HttpResponse, OutcomeModel, Transport,
    TransportEvent,
};
use crate::http::resolve_uri;
use crate::parser::{parse_outcome, PlaylistParser};
use crate::pipeline::{pipeline_trace, ByteSink, SegmentPipeline};
use crate::playlist::{variant_views, Playlist, PlaylistModel, VariantModel};
use crate::selector::SelectionPolicy;

verus! {

/// Resolution progress of a session. A session never revisits an earlier
/// state; each fetch stage runs at most once.
pub enum SessionState {
    Unresolved,
    MasterOrMediaFetched,
    MediaResolved,
    SegmentsDelivered,
    Failed,
}

/// Bounded retry with exponential backoff for transient fetch failures.
pub struct RetryPolicy {
    /// Total attempts per fetch stage, at least 1.
    pub max_attempts: u32,
    /// Backoff before the second attempt; doubles each retry.
    pub base_delay_ms: u64,
}

/// The header list of every manifest fetch: the `Accept` header alone.
pub open spec fn accept_headers() -> Seq<(Seq<char>, Seq<char>)> {
    seq![("Accept"@, "application/vnd.apple.mpegurl"@)]
}

/// How a manifest-stage error must relate to the recorded reply: a failed
/// connection surfaces as `TransportFailure`, a non-2xx reply as the
/// `NetworkError` carrying exactly its status line.
pub open spec fn manifest_error_matches(o: OutcomeModel, e: StreamError) -> bool {
    match o {
        OutcomeModel::Failed => e is TransportFailure,
        OutcomeModel::Arrived(reply) => e matches StreamError::NetworkError {
            status,
            status_text,
        } && status == reply.status && status_text@ == reply.status_text,
    }
}

/// The event records a 2xx manifest reply whose text fails to parse with
/// exactly this reason.
pub open spec fn event_parse_failed(ev: TransportEvent, reason: crate::errors::ParseReason) -> bool {
    fetch_ok_text(ev.outcome) matches Some(t) && parse_outcome(t)
        == Err::<PlaylistModel, crate::errors::ParseReason>(reason)
}

/// The event records a 2xx manifest reply whose text parses to a master
/// playlist.
pub open spec fn event_yielded_master(ev: TransportEvent) -> bool {
    fetch_ok_text(ev.outcome) matches Some(t) && (parse_outcome(t) matches Ok(p) && p is Master)
}

/// The event records a fetched master playlist that lists a variant whose
/// URI, resolved against `base`, is exactly `url`.
pub open spec fn names_listed_variant(ev: TransportEvent, url: Seq<char>, base: Seq<char>) -> bool {
    match fetch_ok_text(ev.outcome) {
        Some(t) => match parse_outcome(t) {
            Ok(p) => match p {
                PlaylistModel::Master { variants } => exists|i: int|
                    0 <= i < variants.len() && url == base + (#[trigger] variants[i]).uri,
                _ => false,
            },
            Err(_) => false,
        },
        None => false,
    }
}

/// A run of identical manifest GETs to `url` with the `Accept` header and
/// the session timeout, closed by the stage's sole 2xx reply; every earlier
/// attempt failed.
pub open spec fn manifest_stage(
    evs: Seq<TransportEvent>,
    from: int,
    to: int,
    url: Seq<char>,
    timeout: u32,
) -> bool {
    &&& 0 <= from < to <= evs.len()
    &&& forall|j: int|
        from <= j < to ==> (#[trigger] evs[j]).url == url && evs[j].headers == accept_headers()
            && evs[j].timeout_ms == timeout
    &&& forall|j: int| from <= j < to - 1 ==> !outcome_succeeded((#[trigger] evs[j]).outcome)
    &&& outcome_succeeded(evs[to - 1].outcome)
}

/// The manifest text the stage's closing 2xx reply carried.
pub open spec fn stage_text(evs: Seq<TransportEvent>, to: int) -> Seq<char> {
    fetch_ok_text(evs[to - 1].outcome)->0
}

/// After a master root: a media-playlist stage at the policy-chosen
/// variant's resolved URI, whose text parses to a media playlist, followed
/// by exactly the pipeline's fetches and deliveries against that URI.
pub open spec fn master_continuation<P: SelectionPolicy>(
    policy: &P,
    evs: Seq<TransportEvent>,
    at: int,
    m: int,
    ds: Seq<Seq<u8>>,
    dfrom: int,
    variants: Seq<VariantModel>,
    base: Seq<char>,
    timeout: u32,
) -> bool {
    let i = policy.chooses(variants);
    let murl = base + variants[i].uri;
    &&& 0 <= i < variants.len()
    &&& manifest_stage(evs, at, at + m, murl, timeout)
    &&& (match parse_outcome(stage_text(evs, at + m)) {
        Ok(second) => second matches PlaylistModel::Media { segments } && pipeline_trace(
            evs,
            at + m,
            ds,
            dfrom,
            segments,
            murl,
            timeout,
        ),
        Err(_) => false,
    })
}

/// The whole resolution for one root-stage length `s`: the root stage at the
/// session URL, whose text parses; a media root runs the pipeline directly
/// with the session URL as base; a master root continues per
/// `master_continuation`.
pub open spec fn session_stage_shape<P: SelectionPolicy>(
    policy: &P,
    evs: Seq<TransportEvent>,
    efrom: int,
    s: int,
    ds: Seq<Seq<u8>>,
    dfrom: int,
    base: Seq<char>,
    timeout: u32,
) -> bool {
    &&& manifest_stage(evs, efrom, efrom + s, base, timeout)
    &&& (match parse_outcome(stage_text(evs, efrom + s)) {
        Ok(root) => match root {
            PlaylistModel::Media { segments } => pipeline_trace(
                evs,
                efrom + s,
                ds,
                dfrom,
                segments,
                base,
                timeout,
            ),
            PlaylistModel::Master { variants } => exists|m: int|
                #[trigger] master_continuation(
                    policy,
                    evs,
                    efrom + s,
                    m,
                    ds,
                    dfrom,
                    variants,
                    base,
                    timeout,
                ),
        },
        Err(_) => false,
    })
}

/// A successful session, read off the event and delivery logs alone.
pub open spec fn session_success_trace<P: SelectionPolicy>(
    policy: &P,
    evs: Seq<TransportEvent>,
    efrom: int,
    ds: Seq<Seq<u8>>,
    dfrom: int,
    base: Seq<char>,
    timeout: u32,
) -> bool {
    exists|s: int|
        #[trigger] session_stage_shape(policy, evs, efrom, s, ds, dfrom, base, timeout)
}

/// Transfer a manifest stage recorded on a prefix of the log to the whole
/// log.
proof fn lemma_stage_transfer(
    pre: Seq<TransportEvent>,
    ef: Seq<TransportEvent>,
    from: int,
    to: int,
    url: Seq<char>,
    timeout: u32,
)
    requires
        pre.is_prefix_of(ef),
        0 <= from < to <= pre.len(),
        forall|j: int|
            from <= j < to ==> (#[trigger] pre[j]).url == url && pre[j].headers
                == accept_headers() && pre[j].timeout_ms == timeout,
        forall|j: int| from <= j < to - 1 ==> !outcome_succeeded((#[trigger] pre[j]).outcome),
        outcome_succeeded(pre[to - 1].outcome),
    ensures
        manifest_stage(ef, from, to, url, timeout),
        stage_text(ef, to) == stage_text(pre, to),
{
    assert forall|j: int|
        from <= j < to implies (#[trigger] ef[j]).url == url && ef[j].headers == accept_headers()
            && ef[j].timeout_ms == timeout by {
        lemma_prefix_index(pre, ef, j);
    }
    assert forall|j: int| from <= j < to - 1 implies !outcome_succeeded(
        (#[trigger] ef[j]).outcome,
    ) by {
        lemma_prefix_index(pre, ef, j);
    }
    lemma_prefix_index(pre, ef, to - 1);
}

/// Every `Accept`-header fetch in a log made of a root-manifest range, a
/// media-playlist range at a listed variant's URI, and a header-less
/// pipeline tail goes to the session URL or to a listed variant's URI.
proof fn lemma_accept_fetch_urls(
    ef: Seq<TransportEvent>,
    e0len: int,
    r1: int,
    r2: int,
    base: Seq<char>,
    murl: Seq<char>,
    k0: int,
)
    requires
        0 <= e0len <= r1 <= r2 <= ef.len(),
        r1 < r2 ==> e0len <= k0 < r1 && names_listed_variant(ef[k0], murl, base),
        forall|j: int| e0len <= j < r1 ==> (#[trigger] ef[j]).url == base,
        forall|j: int| r1 <= j < r2 ==> (#[trigger] ef[j]).url == murl,
        forall|j: int| r2 <= j < ef.len() ==> (#[trigger] ef[j]).headers.len() == 0,
    ensures
        forall|j: int|
            e0len <= j < ef.len() && (#[trigger] ef[j]).headers == accept_headers() ==> (ef[j].url
                == base || exists|k: int|
                e0len <= k < j && #[trigger] names_listed_variant(ef[k], ef[j].url, base)),
{
    assert(accept_headers().len() == 1);
    assert forall|j: int|
        e0len <= j < ef.len() && (#[trigger] ef[j]).headers == accept_headers() implies (ef[j].url
            == base || exists|k: int|
            e0len <= k < j && #[trigger] names_listed_variant(ef[k], ef[j].url, base)) by {
        if r1 <= j < r2 {
            assert(names_listed_variant(ef[k0], ef[j].url, base));
        }
    }
}

/// Advisory backoff before attempt `attempt + 1`: the base delay doubled
/// `attempt` times, saturating at `u64::MAX`.
pub open spec fn backoff_spec(base_ms: u64, attempt: u32) -> u64
    decreases attempt,
{
    if attempt == 0 {
        base_ms
    } else {
        let p = backoff_spec(base_ms, (attempt - 1) as u32);
        if p > u64::MAX / 2 {
            u64::MAX
        } else {
            (2 * p) as u64
        }
    }
}

/// The delays a stage of `count` retries pauses for, in order: the
/// exponential schedule.
pub open spec fn backoff_schedule(base_ms: u64, count: nat) -> Seq<u64> {
    Seq::new(count, |a: int| backoff_spec(base_ms, a as u32))
}

pub fn backoff_delay_ms(base_ms: u64, attempt: u32) -> (r: u64)
    ensures
        r == backoff_spec(base_ms, attempt),
{
    let mut cur: u64 = base_ms;
    let mut i: u32 = 0;
    while i < attempt
        invariant
            i <= attempt,
            cur == backoff_spec(base_ms, i),
        decreases attempt - i,
    {
        if cur > u64::MAX / 2 {
            cur = u64::MAX;
        } else {
            cur = 2 * cur;
        }
        i = i + 1;
    }
    cur
}

/// One GET with bounded retry: transient errors (network, transport) are
/// retried with exponential backoff until the attempt budget runs out, and
/// the last error is surfaced unchanged; a repeat request goes out only after
/// a failed reply, always with the same URL, headers and timeout, and a
/// transient error is returned only once the whole budget is spent.
fn get_with_retry<T: Transport>(
    client: &HttpClient,
    transport: &mut T,
    max_attempts: u32,
    base_delay_ms: u64,
) -> (r: Result<HttpResponse, StreamError>)
    requires
        max_attempts >= 1,
    ensures
        (client.base_url is None) <==> (r matches Err(StreamError::NoBaseUrl)),
        client.base_url is None ==> final(transport).events() == old(transport).events(),
        final(transport).delays() == old(transport).delays() + backoff_schedule(
            base_delay_ms,
            (final(transport).events().len() - old(transport).events().len() - (
            if final(transport).events().len() > old(transport).events().len() {
                1int
            } else {
                0int
            })) as nat,
        ),
        r matches Ok(resp) ==> resp.ok && is_success_status(resp.status),
        r matches Err(e) ==> (e is NoBaseUrl || is_transient(e)),
        r matches Err(StreamError::NetworkError { status, .. }) ==> !is_success_status(status),
        client.base_url is Some ==> ({
            let e0 = old(transport).events();
            let ef = final(transport).events();
            &&& e0.len() < ef.len() <= e0.len() + max_attempts
            &&& e0.is_prefix_of(ef)
            &&& forall|j: int|
                e0.len() <= j < ef.len() ==> (#[trigger] ef[j]).url == client.base_url->0@
                    && ef[j].headers == header_views(client.default_headers@) && ef[j].timeout_ms
                    == client.timeout_ms
            &&& forall|j: int|
                e0.len() <= j < ef.len() - 1 ==> !outcome_succeeded((#[trigger] ef[j]).outcome)
            &&& result_matches_outcome(ef.last().outcome, r)
            &&& ((r matches Err(e) && is_transient(e)) ==> ef.len() == e0.len() + max_attempts)
        }),
{
    let ghost e0 = transport.events();
    let ghost dl0 = transport.delays();
    proof {
        assert(dl0 + backoff_schedule(base_delay_ms, 0) =~= dl0);
    }
    let mut attempt: u32 = 0;
    loop
        invariant
            attempt < max_attempts,
            max_attempts >= 1,
            e0 == old(transport).events(),
            dl0 == old(transport).delays(),
            transport.delays() == dl0 + backoff_schedule(base_delay_ms, attempt as nat),
            client.base_url is None ==> transport.events() == e0,
            e0.is_prefix_of(transport.events()),
            transport.events().len() == e0.len() + attempt,
            forall|j: int|
                e0.len() <= j < transport.events().len() ==> (#[trigger] transport.events()[j]).url
                    == client.base_url->0@ && transport.events()[j].headers == header_views(
                    client.default_headers@,
                ) && transport.events()[j].timeout_ms == client.timeout_ms,
            forall|j: int|
                e0.len() <= j < transport.events().len() ==> !outcome_succeeded(
                    (#[trigger] transport.events()[j]).outcome,
                ),
        decreases max_attempts - attempt,
    {
        let ghost pre = transport.events();
        let outcome = client.get(transport);
        proof {
            if client.base_url is Some {
                assert(transport.events() =~= pre.push(transport.events().last()));
                assert(e0.is_prefix_of(transport.events()));
            }
        }
        match outcome {
            Ok(resp) => {
                return Ok(resp);
            },
            Err(e) => {
                let transient = match &e {
                    StreamError::NetworkError { .. } => true,
                    StreamError::TransportFailure => true,
                    _ => false,
                };
                if !transient || attempt + 1 >= max_attempts {
                    return Err(e);
                }
                proof {
                    assert(!outcome_succeeded(transport.events().last().outcome));
                }
                transport.pause(backoff_delay_ms(base_delay_ms, attempt));
                attempt = attempt + 1;
                proof {
                    assert(transport.delays() =~= dl0 + backoff_schedule(
                        base_delay_ms,
                        attempt as nat,
                    ));
                }
            },
        }
    }
}

/// Orchestrates one manifest-to-segments resolution: fetch the root manifest,
/// parse it, branch on its kind, resolve the media playlist, and run the
/// segment pipeline. Lives for exactly one resolution.
pub struct StreamingSession {
    /// The manifest's original absolute URL, fixed at construction.
    pub base_url: String,
    pub state: SessionState,
    pub retry: RetryPolicy,
    pub timeout_ms: u32,
}

impl StreamingSession {
    /// A fresh session for one root manifest URL, with default retry policy
    /// (3 attempts, 500 ms base backoff) and a 10 s per-call timeout.
    pub fn new(base_url: String) -> (r: Self)
        ensures
            r.base_url == base_url,
            r.state is Unresolved,
            r.retry.max_attempts == 3,
            r.retry.base_delay_ms == 500,
            r.timeout_ms == crate::http::default_timeout_ms(),
    {
        StreamingSession {
            base_url,
            state: SessionState::Unresolved,
            retry: RetryPolicy { max_attempts: 3, base_delay_ms: 500 },
            timeout_ms: 10000,
        }
    }

    /// Configure the retry budget; an attempt count of zero is read as one.
    pub fn set_retry(&mut self, max_attempts: u32, base_delay_ms: u64)
        ensures
            final(self).retry.max_attempts == (if max_attempts == 0 {
                1u32
            } else {
                max_attempts
            }),
            final(self).retry.base_delay_ms == base_delay_ms,
            final(self).base_url == old(self).base_url,
            final(self).state == old(self).state,
            final(self).timeout_ms == old(self).timeout_ms,
    {
        let attempts = if max_attempts == 0 {
            1
        } else {
            max_attempts
        };
        self.retry = RetryPolicy { max_attempts: attempts, base_delay_ms };
    }

    /// Fetch one manifest URL: every attempt is a GET to exactly that URL
    /// with the `Accept: application/vnd.apple.mpegurl` header and the
    /// session timeout, repeated only after a failed reply and at most up to
    /// the retry budget; `Ok` carries the 2xx reply's text unchanged, and an
    /// error reflects the last reply exactly, surfaced only once the budget
    /// is spent.
    fn fetch_manifest_text<T: Transport>(&self, url: &str, transport: &mut T) -> (r: Result<
        String,
        StreamError,
    >)
        ensures
            old(transport).events().is_prefix_of(final(transport).events()),
            final(transport).delays() == old(transport).delays() + backoff_schedule(
                self.retry.base_delay_ms,
                (final(transport).events().len() - old(transport).events().len() - 1) as nat,
            ),
            ({
                let e0 = old(transport).events();
                let ef = final(transport).events();
                let att = (if self.retry.max_attempts == 0 {
                    1u32
                } else {
                    self.retry.max_attempts
                });
                &&& e0.len() < ef.len() <= e0.len() + att
                &&& forall|j: int|
                    e0.len() <= j < ef.len() ==> (#[trigger] ef[j]).url == url@ && ef[j].headers
                        == accept_headers() && ef[j].timeout_ms == self.timeout_ms
                &&& forall|j: int|
                    e0.len() <= j < ef.len() - 1 ==> !outcome_succeeded((#[trigger] ef[j]).outcome)
                &&& (match r {
                    Ok(t) => fetch_ok_text(ef.last().outcome) == Some(t@),
                    Err(e) => is_transient(e) && fetch_ok_text(ef.last().outcome) is None
                        && ef.len() == e0.len() + att && manifest_error_matches(
                        ef.last().outcome,
                        e,
                    ),
                })
            }),
    {
        let mut client = HttpClient::new();
        client.with_base_url(url);
        client.add_default_header("Accept", "application/vnd.apple.mpegurl");
        client.set_timeout(self.timeout_ms);
        proof {
            assert(header_views(client.default_headers@) =~= accept_headers());
        }
        let attempts = if self.retry.max_attempts == 0 {
            1
        } else {
            self.retry.max_attempts
        };
        match get_with_retry(&client, transport, attempts, self.retry.base_delay_ms) {
            Ok(resp) => Ok(resp.body_text),
            Err(e) => Err(e),
        }
    }

    /// Resolve the manifest tree and deliver every segment buffer to the
    /// sink. On success the whole interaction is pinned by
    /// `session_success_trace`: a root manifest stage at the session URL with
    /// the `Accept` header whose text parses; a media root feeds the pipeline
    /// directly with the session URL as base; a master root is followed by a
    /// media-playlist stage at the policy-chosen variant's resolved URI whose
    /// text parses to media, then the pipeline with that URI as base — one
    /// 2xx fetch and one exact-body delivery per planned URL, and nothing
    /// else. The first stage failure ends the session in `Failed` with that
    /// error: a `ParseError` carries exactly the reason the last fetched
    /// manifest failed with, `UnexpectedPlaylistKind` marks a master where
    /// media was owed, a pipeline error means the last fetch was no 2xx,
    /// `NoVariants` cannot happen (a parsed master is never empty), and a
    /// transient error matches the last reply and surfaces only after a whole
    /// retry budget was spent.
    pub fn fetch_manifest<T: Transport, S: ByteSink, P: SelectionPolicy>(
        &mut self,
        transport: &mut T,
        sink: &mut S,
        policy: &P,
    ) -> (r: Result<(), StreamError>)
        requires
            old(self).state is Unresolved,
        ensures
            final(self).base_url == old(self).base_url,
            final(self).retry == old(self).retry,
            final(self).timeout_ms == old(self).timeout_ms,
            (r is Ok) <==> (final(self).state is SegmentsDelivered),
            r is Err ==> final(self).state is Failed,
            r matches Err(e) ==> !(e is NoBaseUrl),
            old(sink).delivered().is_prefix_of(final(sink).delivered()),
            old(transport).events().is_prefix_of(final(transport).events()),
            ({
                let e0 = old(transport).events();
                let ef = final(transport).events();
                &&& ef.len() > e0.len()
                &&& ef[e0.len() as int].url == old(self).base_url@
                &&& ef[e0.len() as int].headers == accept_headers()
                &&& ef[e0.len() as int].timeout_ms == old(self).timeout_ms
                &&& (r matches Err(StreamError::ParseError { reason }) ==> event_parse_failed(
                    ef.last(),
                    reason,
                ))
                &&& (r matches Err(StreamError::UnexpectedPlaylistKind) ==> ef.len() > e0.len() + 1
                    && event_yielded_master(ef.last()))
                &&& (r matches Err(e3) && (e3 is MissingInitSegment || e3 is SegmentFetchFailed)
                    ==> !outcome_succeeded(ef.last().outcome))
                &&& (r is Ok ==> session_success_trace(
                    policy,
                    ef,
                    e0.len() as int,
                    final(sink).delivered(),
                    old(sink).delivered().len() as int,
                    old(self).base_url@,
                    old(self).timeout_ms,
                ))
                &&& (match r {
                    Err(e2) => is_transient(e2) ==> ef.len() - e0.len() >= (
                    if old(self).retry.max_attempts == 0 {
                        1u32
                    } else {
                        old(self).retry.max_attempts
                    }) && manifest_error_matches(ef.last().outcome, e2),
                    Ok(_) => true,
                })
                &&& !(r matches Err(StreamError::NoVariants))
                &&& forall|j: int|
                    e0.len() <= j < ef.len() && (#[trigger] ef[j]).headers == accept_headers()
                        ==> ef[j].url == old(self).base_url@ || exists|k: int|
                        e0.len() <= k < j && #[trigger] names_listed_variant(
                            ef[k],
                            ef[j].url,
                            old(self).base_url@,
                        )
            }),
    {
        let ghost e0 = transport.events();
        let ghost d0 = sink.delivered();
        let root_text = match self.fetch_manifest_text(self.base_url.as_str(), transport) {
            Ok(t) => t,
            Err(e) => {
                self.state = SessionState::Failed;
                return Err(e);
            },
        };
        let root = match PlaylistParser::parse(root_text.as_str()) {
            Ok(p) => p,
            Err(e) => {
                self.state = SessionState::Failed;
                proof {
                    assert(event_parse_failed(
                        transport.events().last(),
                        e->ParseError_reason,
                    ));
                }
                return Err(e);
            },
        };
        let ghost rootm = root@;
        self.state = SessionState::MasterOrMediaFetched;
        let pipeline = SegmentPipeline::new(self.timeout_ms);
        match root {
            Playlist::Media(media) => {
                let ghost pre = transport.events();
                proof {
                    assert(outcome_succeeded(pre[pre.len() - 1].outcome));
                }
                let res = pipeline.run(&media, self.base_url.as_str(), transport, sink);
                proof {
                    lemma_prefix_index(pre, transport.events(), e0.len() as int);
                    let ef = transport.events();
                    let base = old(self).base_url@;
                    assert(accept_headers().len() == 1);
                    assert forall|j: int| e0.len() <= j < pre.len() implies (
                    #[trigger] ef[j]).url == base by {
                        lemma_prefix_index(pre, ef, j);
                    }
                    assert forall|j: int| pre.len() <= j < ef.len() implies (
                    #[trigger] ef[j]).headers.len() == 0 by {
                        let j2 = j - pre.len();
                        assert((ef[pre.len() + j2]).headers.len() == 0);
                    }
                    lemma_accept_fetch_urls(
                        ef,
                        e0.len() as int,
                        pre.len() as int,
                        pre.len() as int,
                        base,
                        Seq::empty(),
                        0,
                    );
                }
                match res {
                    Ok(()) => {
                        self.state = SessionState::SegmentsDelivered;
                        proof {
                            let ef = transport.events();
                            let e0len = e0.len() as int;
                            let s0 = pre.len() - e0.len();
                            let base = old(self).base_url@;
                            let tm = old(self).timeout_ms;
                            lemma_stage_transfer(pre, ef, e0len, e0len + s0, base, tm);
                            assert(stage_text(ef, e0len + s0) == root_text@);
                            assert(rootm == PlaylistModel::Media { segments: media@ });
                            assert(pipeline_trace(
                                ef,
                                e0len + s0,
                                sink.delivered(),
                                d0.len() as int,
                                media@,
                                base,
                                tm,
                            ));
                            assert(session_stage_shape(
                                policy,
                                ef,
                                e0len,
                                s0,
                                sink.delivered(),
                                d0.len() as int,
                                base,
                                tm,
                            ));
                        }
                        Ok(())
                    },
                    Err(e) => {
                        self.state = SessionState::Failed;
                        proof {
                            assert(!outcome_succeeded(transport.events().last().outcome));
                        }
                        Err(e)
                    },
                }
            },
            Playlist::Master(master) => {
                let chosen = match policy.pick(&master.variants) {
                    Ok(v) => v,
                    Err(e) => {
                        proof {
                            assert(rootm == PlaylistModel::Master { variants: master@ });
                            crate::laws::lemma_master_never_empty(root_text@, master@);
                            assert(master@.len() >= 1);
                            assert(false);
                        }
                        self.state = SessionState::Failed;
                        return Err(e);
                    },
                };
                let media_url = resolve_uri(self.base_url.as_str(), chosen.uri.as_str());
                let ghost pre1 = transport.events();
                let media_text = match self.fetch_manifest_text(media_url.as_str(), transport) {
                    Ok(t) => t,
                    Err(e) => {
                        self.state = SessionState::Failed;
                        proof {
                            lemma_prefix_index(pre1, transport.events(), e0.len() as int);
                            let ef = transport.events();
                            let base = old(self).base_url@;
                            let k0 = pre1.len() - 1;
                            lemma_prefix_index(pre1, ef, k0);
                            assert(fetch_ok_text(ef[k0].outcome) == Some(root_text@));
                            assert(parse_outcome(root_text@) == Ok::<
                                PlaylistModel,
                                crate::errors::ParseReason,
                            >(rootm));
                            assert(rootm == PlaylistModel::Master { variants: master@ });
                            let i0 = policy.chooses(master@);
                            assert(variant_views(master.variants@) == master@);
                            assert(master@[i0] == master.variants@[i0]@);
                            assert(media_url@ == base + master@[i0].uri);
                            assert(names_listed_variant(ef[k0], media_url@, base));
                            assert forall|j: int|
                                e0.len() <= j < pre1.len() implies (#[trigger] ef[j]).url
                                    == base by {
                                lemma_prefix_index(pre1, ef, j);
                            }
                            lemma_accept_fetch_urls(
                                ef,
                                e0.len() as int,
                                pre1.len() as int,
                                ef.len() as int,
                                base,
                                media_url@,
                                k0,
                            );
                        }
                        return Err(e);
                    },
                };
                proof {
                    lemma_prefix_index(pre1, transport.events(), e0.len() as int);
                    let ef = transport.events();
                    let base = old(self).base_url@;
                    let k0 = pre1.len() - 1;
                    lemma_prefix_index(pre1, ef, k0);
                    assert(fetch_ok_text(ef[k0].outcome) == Some(root_text@));
                    assert(parse_outcome(root_text@) == Ok::<
                        PlaylistModel,
                        crate::errors::ParseReason,
                    >(rootm));
                    assert(rootm == PlaylistModel::Master { variants: master@ });
                    let i0 = policy.chooses(master@);
                    assert(variant_views(master.variants@) == master@);
                    assert(master@[i0] == master.variants@[i0]@);
                    assert(media_url@ == base + master@[i0].uri);
                    assert(names_listed_variant(ef[k0], media_url@, base));
                    assert forall|j: int| e0.len() <= j < pre1.len() implies (
                    #[trigger] ef[j]).url == base by {
                        lemma_prefix_index(pre1, ef, j);
                    }
                    lemma_accept_fetch_urls(
                        ef,
                        e0.len() as int,
                        pre1.len() as int,
                        ef.len() as int,
                        base,
                        media_url@,
                        k0,
                    );
                }
                let media = match PlaylistParser::parse(media_text.as_str()) {
                    Ok(Playlist::Media(m)) => m,
                    Ok(Playlist::Master(_)) => {
                        self.state = SessionState::Failed;
                        proof {
                            assert(event_yielded_master(transport.events().last()));
                            assert(transport.events().len() - 1 > e0.len());
                        }
                        return Err(StreamError::UnexpectedPlaylistKind);
                    },
                    Err(e) => {
                        self.state = SessionState::Failed;
                        proof {
                            assert(event_parse_failed(
                                transport.events().last(),
                                e->ParseError_reason,
                            ));
                        }
                        return Err(e);
                    },
                };
                self.state = SessionState::MediaResolved;
                let ghost pre2 = transport.events();
                let res = pipeline.run(&media, media_url.as_str(), transport, sink);
                proof {
                    lemma_prefix_index(pre2, transport.events(), e0.len() as int);
                    let ef = transport.events();
                    let base = old(self).base_url@;
                    let k0 = pre1.len() - 1;
                    lemma_prefix_index(pre1, pre2, k0);
                    lemma_prefix_index(pre2, ef, k0);
                    assert(fetch_ok_text(ef[k0].outcome) == Some(root_text@));
                    assert(accept_headers().len() == 1);
                    assert(parse_outcome(root_text@) == Ok::<
                        PlaylistModel,
                        crate::errors::ParseReason,
                    >(rootm));
                    assert(rootm == PlaylistModel::Master { variants: master@ });
                    let i0 = policy.chooses(master@);
                    assert(variant_views(master.variants@) == master@);
                    assert(master@[i0] == master.variants@[i0]@);
                    assert(media_url@ == base + master@[i0].uri);
                    assert(names_listed_variant(ef[k0], media_url@, base));
                    assert forall|j: int| e0.len() <= j < pre1.len() implies (
                    #[trigger] ef[j]).url == base by {
                        lemma_prefix_index(pre1, pre2, j);
                        lemma_prefix_index(pre2, ef, j);
                    }
                    assert forall|j: int| pre1.len() <= j < pre2.len() implies (
                    #[trigger] ef[j]).url == media_url@ by {
                        lemma_prefix_index(pre2, ef, j);
                    }
                    assert forall|j: int| pre2.len() <= j < ef.len() implies (
                    #[trigger] ef[j]).headers.len() == 0 by {
                        let j2 = j - pre2.len();
                        assert((ef[pre2.len() + j2]).headers.len() == 0);
                    }
                    lemma_accept_fetch_urls(
                        ef,
                        e0.len() as int,
                        pre1.len() as int,
                        pre2.len() as int,
                        base,
                        media_url@,
                        k0,
                    );
                }
                match res {
                    Ok(()) => {
                        self.state = SessionState::SegmentsDelivered;
                        proof {
                            let ef = transport.events();
                            let e0len = e0.len() as int;
                            let s0 = pre1.len() - e0.len();
                            let m0 = pre2.len() - pre1.len();
                            let base = old(self).base_url@;
                            let tm = old(self).timeout_ms;
                            assert(pre1.is_prefix_of(ef)) by {
                                lemma_prefix_range(pre1, pre2);
                                assert(pre1 =~= ef.subrange(0, pre1.len() as int)) by {
                                    assert(pre2 =~= ef.subrange(0, pre2.len() as int));
                                    assert(forall|j: int|
                                        0 <= j < pre1.len() ==> ef[j] == #[trigger] pre1[j]);
                                }
                            }
                            lemma_stage_transfer(pre1, ef, e0len, e0len + s0, base, tm);
                            assert(stage_text(ef, e0len + s0) == root_text@);
                            assert(rootm == PlaylistModel::Master { variants: master@ });
                            let i0 = policy.chooses(master@);
                            assert(variant_views(master.variants@) == master@);
                            assert(chosen@ == master@[i0]);
                            assert(media_url@ == base + master@[i0].uri);
                            lemma_stage_transfer(
                                pre2,
                                ef,
                                e0len + s0,
                                e0len + s0 + m0,
                                media_url@,
                                tm,
                            );
                            assert(stage_text(ef, e0len + s0 + m0) == media_text@);
                            assert(pipeline_trace(
                                ef,
                                e0len + s0 + m0,
                                sink.delivered(),
                                d0.len() as int,
                                media@,
                                media_url@,
                                tm,
                            ));
                            assert(master_continuation(
                                policy,
                                ef,
                                e0len + s0,
                                m0,
                                sink.delivered(),
                                d0.len() as int,
                                master@,
                                base,
                                tm,
                            ));
                            assert(session_stage_shape(
                                policy,
                                ef,
                                e0len,
                                s0,
                                sink.delivered(),
                                d0.len() as int,
                                base,
                                tm,
                            ));
                        }
                        Ok(())
                    },
                    Err(e) => {
                        self.state = SessionState::Failed;
                        proof {
                            assert(!outcome_succeeded(transport.events().last().outcome));
                        }
                        Err(e)
                    },
                }
            },
        }
    }
}

} // verus!
