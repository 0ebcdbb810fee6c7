use vstd::prelude::*;
use crate::errors::StreamError;
use crate::http::{copy_bytes, fetch_ok_body, HttpClient, Transport, TransportEvent};
use crate::http::resolve_uri;
use crate::playlist::{MediaPlaylist, SegmentModel};

verus! {

/// The injected byte-sink capability: each successfully fetched buffer is
/// handed over exactly once, in manifest order.
pub trait ByteSink {
    /// The buffers delivered so far, oldest first.
    spec fn delivered(&self) -> Seq<Seq<u8>>;

    fn deliver(&mut self, bytes: &Vec<u8>)
        ensures
            final(self).delivered() == old(self).delivered().push(bytes@),
    ;
}

/// A sink that keeps every delivered buffer, for hosts and tests that want
/// the bytes back as plain values.
pub struct VecSink {
    pub buffers: Vec<Vec<u8>>,
}

impl VecSink {
    pub fn new() -> (r: Self)
        ensures
            r.delivered().len() == 0,
    {
        VecSink { buffers: Vec::new() }
    }
}

impl ByteSink for VecSink {
    open spec fn delivered(&self) -> Seq<Seq<u8>> {
        self.buffers@.map_values(|b: Vec<u8>| b@)
    }

    fn deliver(&mut self, bytes: &Vec<u8>) {
        self.buffers.push(copy_bytes(bytes));
        proof {
            assert(self.buffers@.map_values(|b: Vec<u8>| b@)
                =~= old(self).buffers@.map_values(|b: Vec<u8>| b@).push(bytes@));
        }
    }
}

/// How many leading fetches the first segment's initialization map
/// contributes: one if declared, none otherwise.
pub open spec fn seg_init_count(segments: Seq<SegmentModel>) -> int {
    if segments.len() > 0 && segments[0].init_map is Some {
        1int
    } else {
        0int
    }
}

pub open spec fn init_count(playlist: MediaPlaylist) -> int {
    seg_init_count(playlist@)
}

/// The URL of the pipeline's `j`-th fetch: the resolved init-map URI first
/// when one is declared, then each segment's resolved URI in manifest order.
pub open spec fn planned_url(segments: Seq<SegmentModel>, base: Seq<char>, j: int) -> Seq<char> {
    if j < seg_init_count(segments) {
        base + segments[0].init_map->0
    } else {
        base + segments[j - seg_init_count(segments)].uri
    }
}

/// A completed pipeline run for `segments` against `base`, read off the
/// event log and the delivery log: starting at `efrom`/`dfrom`, one 2xx
/// fetch per planned URL, bare of headers, one delivery of its exact body,
/// in order — and nothing after them.
pub open spec fn pipeline_trace(
    evs: Seq<TransportEvent>,
    efrom: int,
    ds: Seq<Seq<u8>>,
    dfrom: int,
    segments: Seq<SegmentModel>,
    base: Seq<char>,
    timeout: u32,
) -> bool {
    let n = seg_init_count(segments) + segments.len();
    &&& evs.len() == efrom + n
    &&& ds.len() == dfrom + n
    &&& forall|j: int|
        0 <= j < n ==> (#[trigger] evs[efrom + j]).url == planned_url(segments, base, j)
            && evs[efrom + j].headers.len() == 0 && evs[efrom + j].timeout_ms == timeout
    &&& forall|j: int|
        0 <= j < n ==> fetch_ok_body((#[trigger] evs[efrom + j]).outcome) == Some(ds[dfrom + j])
}

/// Fetches the initialization segment (if declared) and then each media
/// segment, in manifest order, handing every fetched buffer to the sink.
pub struct SegmentPipeline {
    pub timeout_ms: u32,
}

impl SegmentPipeline {
    pub fn new(timeout_ms: u32) -> (r: Self)
        ensures
            r.timeout_ms == timeout_ms,
    {
        SegmentPipeline { timeout_ms }
    }

    /// Fetch one URL resolved against `base_url` and return its raw bytes.
    /// Exactly one request goes out, bare of headers; `Ok` carries the 2xx
    /// reply's bytes unchanged.
    fn fetch_bytes<T: Transport>(&self, base_url: &str, rel: &str, transport: &mut T) -> (r: Result<
        Vec<u8>,
        StreamError,
    >)
        ensures
            final(transport).delays() == old(transport).delays(),
            final(transport).events().len() == old(transport).events().len() + 1,
            final(transport).events().drop_last() == old(transport).events(),
            final(transport).events() == old(transport).events().push(
                final(transport).events().last(),
            ),
            ({
                let ev = final(transport).events().last();
                &&& ev.url == base_url@ + rel@
                &&& ev.headers.len() == 0
                &&& ev.timeout_ms == self.timeout_ms
                &&& (match r {
                    Ok(b) => fetch_ok_body(ev.outcome) == Some(b@),
                    Err(e) => fetch_ok_body(ev.outcome) is None && (e is TransportFailure
                        || e is NetworkError),
                })
            }),
    {
        let url = resolve_uri(base_url, rel);
        let mut client = HttpClient::new();
        client.with_base_url(url.as_str());
        client.set_timeout(self.timeout_ms);
        let r = client.get(transport);
        proof {
            assert(crate::http::header_views(client.default_headers@).len() == 0);
            assert(final(transport).events() =~= old(transport).events().push(
                final(transport).events().last(),
            ));
        }
        match r {
            Ok(resp) => Ok(resp.body),
            Err(e) => Err(e),
        }
    }

    /// Run the pipeline: every request goes to `planned_url` (the resolved
    /// init-map URI first when declared, then each segment's resolved URI in
    /// manifest order), each delivered buffer is exactly the body of the
    /// corresponding 2xx reply, and one buffer is delivered per fetch except
    /// the failing one. On success the sink has received exactly one buffer
    /// per declared init map plus one per segment; an empty playlist succeeds
    /// with zero fetches and zero deliveries. The first fetch failure stops
    /// the run — later segments are never fetched: a failed init fetch
    /// surfaces as `MissingInitSegment` (and only a failed init fetch does),
    /// a failed segment fetch as `SegmentFetchFailed` carrying the segment's
    /// index and the fetch error.
    pub fn run<T: Transport, S: ByteSink>(
        &self,
        playlist: &MediaPlaylist,
        base_url: &str,
        transport: &mut T,
        sink: &mut S,
    ) -> (r: Result<(), StreamError>)
        ensures
            old(sink).delivered().is_prefix_of(final(sink).delivered()),
            old(transport).events().is_prefix_of(final(transport).events()),
            final(transport).delays() == old(transport).delays(),
            playlist@.len() == 0 ==> r is Ok && final(sink).delivered() == old(sink).delivered()
                && final(transport).events() == old(transport).events(),
            r is Ok ==> final(sink).delivered().len() == old(sink).delivered().len() + init_count(
                *playlist,
            ) + playlist@.len(),
            r is Ok ==> pipeline_trace(
                final(transport).events(),
                old(transport).events().len() as int,
                final(sink).delivered(),
                old(sink).delivered().len() as int,
                playlist@,
                base_url@,
                self.timeout_ms,
            ),
            r matches Err(e) ==> (e is MissingInitSegment || e is SegmentFetchFailed),
            r matches Err(StreamError::MissingInitSegment) ==> init_count(*playlist) == 1
                && final(sink).delivered() == old(sink).delivered(),
            r matches Err(StreamError::SegmentFetchFailed { index, cause }) ==> index
                < playlist@.len() && final(sink).delivered().len() == old(sink).delivered().len()
                + init_count(*playlist) + index && (*cause is TransportFailure || *cause
                is NetworkError),
            ({
                let e0 = old(transport).events();
                let ef = final(transport).events();
                let d0 = old(sink).delivered();
                let df = final(sink).delivered();
                &&& ef.len() - e0.len() == df.len() - d0.len() + (if r is Ok {
                    0int
                } else {
                    1int
                })
                &&& forall|j: int|
                    0 <= j < ef.len() - e0.len() ==> (#[trigger] ef[e0.len() + j]).url
                        == planned_url(playlist@, base_url@, j) && ef[e0.len() + j].headers.len()
                        == 0 && ef[e0.len() + j].timeout_ms == self.timeout_ms
                &&& forall|j: int|
                    0 <= j < df.len() - d0.len() ==> fetch_ok_body(
                        (#[trigger] ef[e0.len() + j]).outcome,
                    ) == Some(df[d0.len() + j])
                &&& r is Err ==> ef.len() > e0.len() && fetch_ok_body(ef.last().outcome) is None
                &&& (init_count(*playlist) == 1 && ef.len() > e0.len() && fetch_ok_body(
                    ef[e0.len() as int].outcome,
                ) is None) ==> r matches Err(StreamError::MissingInitSegment)
            }),
    {
        let ghost e0 = transport.events();
        let ghost d0 = sink.delivered();
        let n = playlist.segments.len();
        if n == 0 {
            return Ok(());
        }
        let ghost k = init_count(*playlist);
        match &playlist.segments[0].init_map {
            Some(m) => {
                match self.fetch_bytes(base_url, m.uri.as_str(), transport) {
                    Ok(body) => {
                        sink.deliver(&body);
                        proof {
                            assert(playlist@[0] == playlist.segments@[0]@);
                            assert(planned_url(playlist@, base_url@, 0) == base_url@
                                + playlist@[0].init_map->0);
                            assert(transport.events()[e0.len() as int]
                                == transport.events().last());
                            assert(sink.delivered()[d0.len() as int] == body@);
                        }
                    },
                    Err(_) => {
                        proof {
                            assert(transport.events() =~= e0.push(transport.events().last()));
                            assert(e0.is_prefix_of(transport.events()));
                            assert(playlist@[0] == playlist.segments@[0]@);
                            assert(planned_url(playlist@, base_url@, 0) == base_url@
                                + playlist@[0].init_map->0);
                            assert(transport.events()[e0.len() as int]
                                == transport.events().last());
                        }
                        return Err(StreamError::MissingInitSegment);
                    },
                }
            },
            None => {},
        }
        proof {
            assert(sink.delivered().len() == d0.len() + k);
            assert(d0.is_prefix_of(sink.delivered()));
            assert(transport.events().len() == e0.len() + k);
            assert(e0.is_prefix_of(transport.events()));
        }
        let mut i: usize = 0;
        while i < n
            invariant
                i <= n,
                n == playlist.segments@.len(),
                n > 0,
                k == init_count(*playlist),
                d0 == old(sink).delivered(),
                e0 == old(transport).events(),
                transport.delays() == old(transport).delays(),
                sink.delivered().len() == d0.len() + k + i,
                d0.is_prefix_of(sink.delivered()),
                transport.events().len() == e0.len() + k + i,
                e0.is_prefix_of(transport.events()),
                forall|j: int|
                    0 <= j < k + i ==> (#[trigger] transport.events()[e0.len() + j]).url
                        == planned_url(playlist@, base_url@, j) && transport.events()[e0.len()
                        + j].headers.len() == 0 && transport.events()[e0.len() + j].timeout_ms
                        == self.timeout_ms,
                forall|j: int|
                    0 <= j < k + i ==> fetch_ok_body(
                        (#[trigger] transport.events()[e0.len() + j]).outcome,
                    ) == Some(sink.delivered()[d0.len() + j]),
            decreases n - i,
        {
            let seg_uri = &playlist.segments[i].uri;
            match self.fetch_bytes(base_url, seg_uri.as_str(), transport) {
                Ok(body) => {
                    sink.deliver(&body);
                    proof {
                        assert(e0.is_prefix_of(transport.events()));
                        assert(d0.is_prefix_of(sink.delivered()));
                        assert(playlist@[i as int] == playlist.segments@[i as int]@);
                        assert(planned_url(playlist@, base_url@, k + i) == base_url@
                            + playlist@[i as int].uri);
                        assert(transport.events()[e0.len() + (k + i)]
                            == transport.events().last());
                        assert(sink.delivered()[d0.len() + (k + i)] == body@);
                    }
                },
                Err(e) => {
                    proof {
                        assert(e0.is_prefix_of(transport.events()));
                        assert(playlist@[i as int] == playlist.segments@[i as int]@);
                        assert(planned_url(playlist@, base_url@, k + i) == base_url@
                            + playlist@[i as int].uri);
                        assert(transport.events()[e0.len() + (k + i)]
                            == transport.events().last());
                        if k == 1 {
                            assert(fetch_ok_body(transport.events()[e0.len() as int].outcome)
                                == Some(sink.delivered()[d0.len() as int]));
                        }
                    }
                    return Err(
                        StreamError::SegmentFetchFailed { index: i, cause: Box::new(e) },
                    );
                },
            }
            i = i + 1;
        }
        proof {
            if k == 1 {
                let j0: int = 0;
                assert(fetch_ok_body(transport.events()[e0.len() + j0].outcome) == Some(
                    sink.delivered()[d0.len() + j0],
                ));
                assert(e0.len() + j0 == e0.len() as int);
            }
        }
        Ok(())
    }
}

} // verus!
