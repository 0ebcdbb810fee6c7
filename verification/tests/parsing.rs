use hls_stream::errors::{ParseReason, StreamError};
use hls_stream::parser::PlaylistParser;
use hls_stream::playlist::Playlist;
use hls_stream::selector::VariantSelector;

fn parse_reason(text: &str) -> ParseReason {
    match PlaylistParser::parse(text) {
        Err(StreamError::ParseError { reason }) => reason,
        _ => panic!("expected a parse error"),
    }
}

#[test]
fn media_playlist_three_segments() {
    let manifest = "#EXTM3U\n#EXT-X-VERSION:7\n#EXT-X-TARGETDURATION:6\n#EXTINF:5.009,\nhttps://media.example.com/first.ts\n#EXTINF:5.009,\nhttps://media.example.com/second.ts\n#EXTINF:3.003,\nhttps://media.example.com/third.ts\n#EXT-X-ENDLIST";
    match PlaylistParser::parse(manifest) {
        Ok(Playlist::Media(mp)) => {
            assert_eq!(mp.segments.len(), 3);
            assert_eq!(mp.segments[0].duration_ms, 5009);
            assert_eq!(mp.segments[1].duration_ms, 5009);
            assert_eq!(mp.segments[2].duration_ms, 3003);
            assert_eq!(mp.segments[0].uri, "https://media.example.com/first.ts");
            assert_eq!(mp.segments[1].uri, "https://media.example.com/second.ts");
            assert_eq!(mp.segments[2].uri, "https://media.example.com/third.ts");
            assert!(mp.segments[0].init_map.is_none());
        },
        _ => panic!("expected a media playlist"),
    }
}

#[test]
fn master_playlist_two_variants_first_selected() {
    let manifest = "#EXTM3U\n#EXT-X-STREAM-INF:BANDWIDTH=800000,RESOLUTION=640x360\nlow/index.m3u8\n#EXT-X-STREAM-INF:BANDWIDTH=1400000\nhigh/index.m3u8\n";
    match PlaylistParser::parse(manifest) {
        Ok(Playlist::Master(mp)) => {
            assert_eq!(mp.variants.len(), 2);
            assert_eq!(mp.variants[0].uri, "low/index.m3u8");
            assert_eq!(mp.variants[0].bandwidth, Some(800000));
            assert_eq!(mp.variants[1].uri, "high/index.m3u8");
            assert_eq!(mp.variants[1].bandwidth, Some(1400000));
            let selector = VariantSelector;
            let chosen = selector.select(&mp.variants).expect("selection should succeed");
            assert_eq!(chosen.uri, "low/index.m3u8");
            assert_eq!(chosen.bandwidth, Some(800000));
        },
        _ => panic!("expected a master playlist"),
    }
}

#[test]
fn selector_empty_fails_with_no_variants() {
    let selector = VariantSelector;
    let empty: Vec<hls_stream::playlist::Variant> = Vec::new();
    match selector.select(&empty) {
        Err(StreamError::NoVariants) => {},
        _ => panic!("expected NoVariants"),
    }
}

#[test]
fn parsing_twice_yields_equal_results() {
    let manifest = "#EXTM3U\n#EXT-X-TARGETDURATION:6\n#EXT-X-MAP:URI=\"init.mp4\"\n#EXTINF:4.2,\nseg0.m4s\n#EXTINF:4.0,\nseg1.m4s\n";
    let first = PlaylistParser::parse(manifest);
    let second = PlaylistParser::parse(manifest);
    match (first, second) {
        (Ok(Playlist::Media(a)), Ok(Playlist::Media(b))) => {
            assert_eq!(a.segments.len(), b.segments.len());
            for i in 0..a.segments.len() {
                assert_eq!(a.segments[i].uri, b.segments[i].uri);
                assert_eq!(a.segments[i].duration_ms, b.segments[i].duration_ms);
                let ma = a.segments[i].init_map.as_ref().map(|m| m.uri.clone());
                let mb = b.segments[i].init_map.as_ref().map(|m| m.uri.clone());
                assert_eq!(ma, mb);
            }
        },
        _ => panic!("expected media playlists from both parses"),
    }
}

#[test]
fn map_applies_to_following_segments() {
    let manifest = "#EXTM3U\n#EXT-X-TARGETDURATION:6\n#EXT-X-MAP:URI=\"init.mp4\"\n#EXTINF:4.2,\nseg0.m4s\n#EXTINF:4.0,\nseg1.m4s\n";
    match PlaylistParser::parse(manifest) {
        Ok(Playlist::Media(mp)) => {
            assert_eq!(mp.segments.len(), 2);
            assert_eq!(mp.segments[0].init_map.as_ref().unwrap().uri, "init.mp4");
            assert_eq!(mp.segments[1].init_map.as_ref().unwrap().uri, "init.mp4");
        },
        _ => panic!("expected a media playlist"),
    }
}

#[test]
fn empty_media_playlist_has_no_segments() {
    let manifest = "#EXTM3U\n#EXT-X-TARGETDURATION:6\n#EXT-X-ENDLIST\n";
    match PlaylistParser::parse(manifest) {
        Ok(Playlist::Media(mp)) => assert_eq!(mp.segments.len(), 0),
        _ => panic!("expected a media playlist"),
    }
}

#[test]
fn crlf_and_whitespace_are_tolerated() {
    let manifest = "#EXTM3U\r\n  #EXT-X-TARGETDURATION:6  \r\n#EXTINF:5.009,\r\n  first.ts \r\n";
    match PlaylistParser::parse(manifest) {
        Ok(Playlist::Media(mp)) => {
            assert_eq!(mp.segments.len(), 1);
            assert_eq!(mp.segments[0].uri, "first.ts");
            assert_eq!(mp.segments[0].duration_ms, 5009);
        },
        _ => panic!("expected a media playlist"),
    }
}

#[test]
fn integer_duration_is_read_as_whole_seconds() {
    let manifest = "#EXTM3U\n#EXTINF:6,\nseg.ts\n";
    match PlaylistParser::parse(manifest) {
        Ok(Playlist::Media(mp)) => assert_eq!(mp.segments[0].duration_ms, 6000),
        _ => panic!("expected a media playlist"),
    }
}

#[test]
fn headerless_text_is_unrecognized() {
    assert_eq!(parse_reason("#EXTINF:5.0,\nseg.ts\n"), ParseReason::Unrecognized);
}

#[test]
fn unrecognized_structure_is_rejected() {
    assert_eq!(parse_reason("#EXTM3U\n#EXT-X-VERSION:7\n"), ParseReason::Unrecognized);
}

#[test]
fn bad_duration_is_rejected() {
    assert_eq!(parse_reason("#EXTM3U\n#EXTINF:abc,\nseg.ts\n"), ParseReason::InvalidDuration);
}

#[test]
fn map_without_uri_is_rejected() {
    assert_eq!(
        parse_reason("#EXTM3U\n#EXT-X-MAP:BYTERANGE=\"720@0\"\n#EXTINF:5.0,\nseg.ts\n"),
        ParseReason::InvalidMap
    );
}

#[test]
fn dangling_variant_declaration_is_rejected() {
    assert_eq!(
        parse_reason("#EXTM3U\n#EXT-X-STREAM-INF:BANDWIDTH=800000\n"),
        ParseReason::DanglingTag
    );
}

#[test]
fn dangling_segment_declaration_is_rejected() {
    assert_eq!(parse_reason("#EXTM3U\n#EXTINF:5.0,\n"), ParseReason::DanglingTag);
}

#[test]
fn bandwidth_attribute_needs_its_own_boundary() {
    let manifest = "#EXTM3U\n#EXT-X-STREAM-INF:AVERAGE-BANDWIDTH=800000,BANDWIDTH=1400000\nlow/index.m3u8\n";
    match PlaylistParser::parse(manifest) {
        Ok(Playlist::Master(mp)) => {
            assert_eq!(mp.variants.len(), 1);
            assert_eq!(mp.variants[0].bandwidth, Some(1400000));
        },
        _ => panic!("expected a master playlist"),
    }
}

#[test]
fn variant_without_bandwidth_attribute() {
    let manifest = "#EXTM3U\n#EXT-X-STREAM-INF:CODECS=\"avc1\"\nonly/index.m3u8\n";
    match PlaylistParser::parse(manifest) {
        Ok(Playlist::Master(mp)) => {
            assert_eq!(mp.variants.len(), 1);
            assert_eq!(mp.variants[0].bandwidth, None);
        },
        _ => panic!("expected a master playlist"),
    }
}
