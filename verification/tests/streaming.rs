use hls_stream::errors::StreamError;
use hls_stream::http::{FetchOutcome, HttpClient, RawReply, ScriptedTransport};
use hls_stream::pipeline::{SegmentPipeline, VecSink};
use hls_stream::playlist::{InitSegmentRef, MediaPlaylist, Segment};
use hls_stream::selector::VariantSelector;
use hls_stream::session::{backoff_delay_ms, StreamingSession};

fn reply_bytes(body: Vec<u8>) -> FetchOutcome {
    FetchOutcome::Arrived(RawReply {
        status: 200,
        status_text: "OK".to_string(),
        headers: Vec::new(),
        body,
        body_text: String::new(),
    })
}

fn reply_text(text: &str) -> FetchOutcome {
    FetchOutcome::Arrived(RawReply {
        status: 200,
        status_text: "OK".to_string(),
        headers: Vec::new(),
        body: Vec::new(),
        body_text: text.to_string(),
    })
}

fn reply_status(status: u16, status_text: &str) -> FetchOutcome {
    FetchOutcome::Arrived(RawReply {
        status,
        status_text: status_text.to_string(),
        headers: Vec::new(),
        body: Vec::new(),
        body_text: String::new(),
    })
}

fn segment(uri: &str, duration_ms: u64, init: Option<&str>) -> Segment {
    Segment {
        uri: uri.to_string(),
        duration_ms,
        init_map: init.map(|u| InitSegmentRef { uri: u.to_string() }),
    }
}

#[test]
fn pipeline_delivers_init_before_segments() {
    let playlist = MediaPlaylist {
        segments: vec![
            segment("seg0.m4s", 4000, Some("init.mp4")),
            segment("seg1.m4s", 4000, None),
        ],
    };
    let mut transport = ScriptedTransport::new(vec![
        reply_bytes(vec![1, 2, 3, 4]),
        reply_bytes(vec![9, 9]),
        reply_bytes(vec![7]),
    ]);
    let mut sink = VecSink::new();
    let pipeline = SegmentPipeline::new(10000);
    let result = pipeline.run(&playlist, "https://host/path/", &mut transport, &mut sink);
    assert!(result.is_ok());
    assert_eq!(sink.buffers.len(), 3);
    assert_eq!(sink.buffers[0], vec![1, 2, 3, 4]);
    assert_eq!(sink.buffers[0].len(), 4);
    assert_eq!(sink.buffers[1], vec![9, 9]);
    assert_eq!(sink.buffers[2], vec![7]);
    assert_eq!(transport.requested_urls.len(), 3);
    assert_eq!(transport.requested_urls[0], "https://host/path/init.mp4");
    assert_eq!(transport.requested_urls[1], "https://host/path/seg0.m4s");
    assert_eq!(transport.requested_urls[2], "https://host/path/seg1.m4s");
}

#[test]
fn pipeline_empty_playlist_succeeds_with_zero_deliveries() {
    let playlist = MediaPlaylist { segments: Vec::new() };
    let mut transport = ScriptedTransport::new(Vec::new());
    let mut sink = VecSink::new();
    let pipeline = SegmentPipeline::new(10000);
    assert!(pipeline.run(&playlist, "https://host/", &mut transport, &mut sink).is_ok());
    assert_eq!(sink.buffers.len(), 0);
    assert_eq!(transport.requested_urls.len(), 0);
}

#[test]
fn pipeline_failed_init_fetch_is_missing_init_segment() {
    let playlist = MediaPlaylist { segments: vec![segment("seg0.m4s", 4000, Some("init.mp4"))] };
    let mut transport = ScriptedTransport::new(vec![reply_status(404, "Not Found")]);
    let mut sink = VecSink::new();
    let pipeline = SegmentPipeline::new(10000);
    match pipeline.run(&playlist, "https://host/", &mut transport, &mut sink) {
        Err(StreamError::MissingInitSegment) => {},
        _ => panic!("expected MissingInitSegment"),
    }
    assert_eq!(sink.buffers.len(), 0);
}

#[test]
fn pipeline_segment_failure_carries_index_and_cause() {
    let playlist = MediaPlaylist {
        segments: vec![segment("seg0.m4s", 4000, None), segment("seg1.m4s", 4000, None)],
    };
    let mut transport = ScriptedTransport::new(vec![
        reply_bytes(vec![1]),
        reply_status(500, "Internal Server Error"),
    ]);
    let mut sink = VecSink::new();
    let pipeline = SegmentPipeline::new(10000);
    match pipeline.run(&playlist, "https://host/", &mut transport, &mut sink) {
        Err(StreamError::SegmentFetchFailed { index, cause }) => {
            assert_eq!(index, 1);
            match *cause {
                StreamError::NetworkError { status, ref status_text } => {
                    assert_eq!(status, 500);
                    assert_eq!(status_text, "Internal Server Error");
                },
                _ => panic!("expected NetworkError cause"),
            }
        },
        _ => panic!("expected SegmentFetchFailed"),
    }
    assert_eq!(sink.buffers.len(), 1);
}

#[test]
fn get_without_base_url_fails() {
    let client = HttpClient::new();
    let mut transport = ScriptedTransport::new(vec![reply_text("ignored")]);
    match client.get(&mut transport) {
        Err(StreamError::NoBaseUrl) => {},
        _ => panic!("expected NoBaseUrl"),
    }
    assert_eq!(transport.requested_urls.len(), 0);
}

#[test]
fn successful_get_returns_response_fields() {
    let mut client = HttpClient::new();
    client.with_base_url("https://host/playlist.m3u8");
    client.add_default_header("Accept", "application/vnd.apple.mpegurl");
    let mut transport = ScriptedTransport::new(vec![FetchOutcome::Arrived(RawReply {
        status: 204,
        status_text: "No Content".to_string(),
        headers: Vec::new(),
        body: vec![1, 2],
        body_text: "body".to_string(),
    })]);
    let resp = client.get(&mut transport).expect("2xx should succeed");
    assert!(resp.ok);
    assert_eq!(resp.status, 204);
    assert_eq!(resp.status_text, "No Content");
    assert_eq!(resp.body, vec![1, 2]);
    assert_eq!(resp.body_text, "body");
    assert_eq!(transport.requested_urls, vec!["https://host/playlist.m3u8"]);
}

#[test]
fn session_surfaces_404_after_retry_budget() {
    let mut transport = ScriptedTransport::new(vec![
        reply_status(404, "Not Found"),
        reply_status(404, "Not Found"),
        reply_status(404, "Not Found"),
    ]);
    let mut sink = VecSink::new();
    let mut session = StreamingSession::new("https://host/master.m3u8".to_string());
    match session.fetch_manifest(&mut transport, &mut sink, &VariantSelector) {
        Err(StreamError::NetworkError { status, status_text }) => {
            assert_eq!(status, 404);
            assert_eq!(status_text, "Not Found");
        },
        _ => panic!("expected NetworkError"),
    }
    assert_eq!(transport.requested_urls.len(), 3);
    assert_eq!(transport.pauses, vec![500, 1000]);
    assert_eq!(sink.buffers.len(), 0);
}

#[test]
fn session_does_not_retry_parse_errors() {
    let mut transport = ScriptedTransport::new(vec![reply_text("not a manifest")]);
    let mut sink = VecSink::new();
    let mut session = StreamingSession::new("https://host/master.m3u8".to_string());
    match session.fetch_manifest(&mut transport, &mut sink, &VariantSelector) {
        Err(StreamError::ParseError { .. }) => {},
        _ => panic!("expected ParseError"),
    }
    assert_eq!(transport.requested_urls.len(), 1);
    assert_eq!(transport.pauses.len(), 0);
}

#[test]
fn session_resolves_master_then_media_then_segments() {
    let master = "#EXTM3U\n#EXT-X-STREAM-INF:BANDWIDTH=800000\nlow/index.m3u8\n";
    let media = "#EXTM3U\n#EXT-X-TARGETDURATION:5\n#EXT-X-MAP:URI=\"init.mp4\"\n#EXTINF:4.5,\nseg0.m4s\n#EXTINF:4.5,\nseg1.m4s\n";
    let mut transport = ScriptedTransport::new(vec![
        reply_text(master),
        reply_text(media),
        reply_bytes(vec![0, 0, 1]),
        reply_bytes(vec![2]),
        reply_bytes(vec![3, 3]),
    ]);
    let mut sink = VecSink::new();
    let mut session = StreamingSession::new("https://host/".to_string());
    let result = session.fetch_manifest(&mut transport, &mut sink, &VariantSelector);
    assert!(result.is_ok());
    assert_eq!(transport.requested_urls.len(), 5);
    assert_eq!(transport.requested_urls[0], "https://host/");
    assert_eq!(transport.requested_urls[1], "https://host/low/index.m3u8");
    // Segment URIs resolve against the media playlist's own fetch URL.
    assert_eq!(transport.requested_urls[2], "https://host/low/index.m3u8init.mp4");
    assert_eq!(transport.requested_urls[3], "https://host/low/index.m3u8seg0.m4s");
    assert_eq!(transport.requested_urls[4], "https://host/low/index.m3u8seg1.m4s");
    assert_eq!(sink.buffers.len(), 3);
    assert_eq!(sink.buffers[0], vec![0, 0, 1]);
    assert_eq!(sink.buffers[1], vec![2]);
    assert_eq!(sink.buffers[2], vec![3, 3]);
}

#[test]
fn session_media_root_feeds_pipeline_directly() {
    let media = "#EXTM3U\n#EXT-X-TARGETDURATION:5\n#EXTINF:4.5,\nseg0.ts\n";
    let mut transport = ScriptedTransport::new(vec![reply_text(media), reply_bytes(vec![5])]);
    let mut sink = VecSink::new();
    let mut session = StreamingSession::new("https://host/live/".to_string());
    assert!(session.fetch_manifest(&mut transport, &mut sink, &VariantSelector).is_ok());
    assert_eq!(transport.requested_urls.len(), 2);
    assert_eq!(transport.requested_urls[1], "https://host/live/seg0.ts");
    assert_eq!(sink.buffers.len(), 1);
    assert_eq!(sink.buffers[0], vec![5]);
}

#[test]
fn session_rejects_master_where_media_expected() {
    let master = "#EXTM3U\n#EXT-X-STREAM-INF:BANDWIDTH=800000\nlow/index.m3u8\n";
    let mut transport = ScriptedTransport::new(vec![reply_text(master), reply_text(master)]);
    let mut sink = VecSink::new();
    let mut session = StreamingSession::new("https://host/".to_string());
    match session.fetch_manifest(&mut transport, &mut sink, &VariantSelector) {
        Err(StreamError::UnexpectedPlaylistKind) => {},
        _ => panic!("expected UnexpectedPlaylistKind"),
    }
}

#[test]
fn transport_failure_surfaces_after_retries() {
    let mut transport = ScriptedTransport::new(vec![
        FetchOutcome::Failed,
        FetchOutcome::Failed,
        FetchOutcome::Failed,
    ]);
    let mut sink = VecSink::new();
    let mut session = StreamingSession::new("https://host/x.m3u8".to_string());
    match session.fetch_manifest(&mut transport, &mut sink, &VariantSelector) {
        Err(StreamError::TransportFailure) => {},
        _ => panic!("expected TransportFailure"),
    }
    assert_eq!(transport.requested_urls.len(), 3);
}

#[test]
fn retry_recovers_from_transient_failure() {
    let media = "#EXTM3U\n#EXT-X-TARGETDURATION:5\n#EXT-X-ENDLIST\n";
    let mut transport = ScriptedTransport::new(vec![FetchOutcome::Failed, reply_text(media)]);
    let mut sink = VecSink::new();
    let mut session = StreamingSession::new("https://host/x.m3u8".to_string());
    assert!(session.fetch_manifest(&mut transport, &mut sink, &VariantSelector).is_ok());
    assert_eq!(transport.requested_urls.len(), 2);
    assert_eq!(transport.pauses, vec![500]);
    assert_eq!(sink.buffers.len(), 0);
}

#[test]
fn backoff_doubles_and_saturates() {
    assert_eq!(backoff_delay_ms(500, 0), 500);
    assert_eq!(backoff_delay_ms(500, 1), 1000);
    assert_eq!(backoff_delay_ms(500, 2), 2000);
    assert_eq!(backoff_delay_ms(u64::MAX, 3), u64::MAX);
}

#[test]
fn configured_retry_budget_is_respected() {
    let mut transport = ScriptedTransport::new(vec![
        reply_status(503, "Service Unavailable"),
        reply_status(503, "Service Unavailable"),
    ]);
    let mut sink = VecSink::new();
    let mut session = StreamingSession::new("https://host/x.m3u8".to_string());
    session.set_retry(2, 100);
    match session.fetch_manifest(&mut transport, &mut sink, &VariantSelector) {
        Err(StreamError::NetworkError { status, .. }) => assert_eq!(status, 503),
        _ => panic!("expected NetworkError"),
    }
    assert_eq!(transport.requested_urls.len(), 2);
    assert_eq!(transport.pauses, vec![100]);
}
