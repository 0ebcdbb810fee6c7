use vstd::prelude::*;
use crate::parser::{
    duration_of, find_bandwidth, has_master_tag, has_media_tag, header_ok, is_extinf,
    is_header_line, is_map_line, is_media_meta, is_stream_inf, is_uri_line, lines_of, master_fold,
    master_init, master_step, media_fold, media_init, media_step, parse_outcome, MasterAcc,
    MediaAcc,
};
use crate::playlist::{PlaylistModel, SegmentModel, VariantModel};

verus! {

/// The two manifest lines of one declaration: the tag line, then its URI
/// line.
pub open spec fn pair_lines(ps: Seq<(Seq<char>, Seq<char>)>) -> Seq<Seq<char>>
    decreases ps.len(),
{
    if ps.len() == 0 {
        Seq::empty()
    } else {
        seq![ps[0].0, ps[0].1] + pair_lines(ps.drop_first())
    }
}

pub proof fn lemma_pair_lines_len(ps: Seq<(Seq<char>, Seq<char>)>)
    ensures
        pair_lines(ps).len() == 2 * ps.len(),
    decreases ps.len(),
{
    if ps.len() > 0 {
        lemma_pair_lines_len(ps.drop_first());
    }
}

pub proof fn lemma_pair_lines_index(ps: Seq<(Seq<char>, Seq<char>)>, k: int)
    requires
        0 <= k < 2 * ps.len(),
    ensures
        pair_lines(ps)[k] == (if k % 2 == 0 {
            ps[k / 2].0
        } else {
            ps[k / 2].1
        }),
    decreases ps.len(),
{
    lemma_pair_lines_len(ps);
    lemma_pair_lines_len(ps.drop_first());
    if k >= 2 {
        lemma_pair_lines_index(ps.drop_first(), k - 2);
    }
}

/// A character under a prefix agrees with the prefix.
proof fn lemma_prefix_char(pat: Seq<char>, l: Seq<char>, k: int)
    requires
        pat.is_prefix_of(l),
        0 <= k < pat.len(),
    ensures
        l[k] == pat[k],
{
    assert(pat =~= l.subrange(0, pat.len() as int));
    assert(l.subrange(0, pat.len() as int)[k] == l[k]);
}

/// The variant a well-formed declaration pair denotes.
pub open spec fn variant_of_pair(p: (Seq<char>, Seq<char>)) -> VariantModel {
    VariantModel { uri: p.1, bandwidth: find_bandwidth(p.0) }
}

pub open spec fn variants_of_pairs(ps: Seq<(Seq<char>, Seq<char>)>) -> Seq<VariantModel> {
    ps.map_values(|p: (Seq<char>, Seq<char>)| variant_of_pair(p))
}

/// The segment a well-formed declaration pair denotes, under a given map.
pub open spec fn segment_of_pair(p: (Seq<char>, Seq<char>), map_uri: Option<Seq<char>>) -> SegmentModel {
    SegmentModel { uri: p.1, duration_ms: duration_of(p.0)->0, init_map: map_uri }
}

pub open spec fn segments_of_pairs(
    ps: Seq<(Seq<char>, Seq<char>)>,
    map_uri: Option<Seq<char>>,
) -> Seq<SegmentModel> {
    ps.map_values(|p: (Seq<char>, Seq<char>)| segment_of_pair(p, map_uri))
}

/// A URI line never carries a tag: tags start with `#`, URI lines do not.
proof fn lemma_uri_line_not_tagged(b: Seq<char>)
    requires
        is_uri_line(b),
    ensures
        !is_stream_inf(b),
        !is_extinf(b),
        !is_map_line(b),
{
    reveal_strlit("#EXT-X-STREAM-INF:");
    reveal_strlit("#EXTINF:");
    reveal_strlit("#EXT-X-MAP:");
    if is_stream_inf(b) {
        lemma_prefix_char("#EXT-X-STREAM-INF:"@, b, 0);
    }
    if is_extinf(b) {
        lemma_prefix_char("#EXTINF:"@, b, 0);
    }
    if is_map_line(b) {
        lemma_prefix_char("#EXT-X-MAP:"@, b, 0);
    }
}

/// The `#EXTM3U` header line carries no other tag.
proof fn lemma_header_line_plain(h: Seq<char>)
    requires
        is_header_line(h),
    ensures
        !is_stream_inf(h),
        !is_extinf(h),
        !is_map_line(h),
        !is_uri_line(h),
        h.len() > 0,
{
    reveal_strlit("#EXTM3U");
    reveal_strlit("#EXT-X-STREAM-INF:");
    reveal_strlit("#EXTINF:");
    reveal_strlit("#EXT-X-MAP:");
    assert(h.len() == 7);
    assert(h[0] == '#');
}

/// A media-only meta tag (target duration, end list) is no segment
/// declaration, no map, no URI line, and no variant declaration.
proof fn lemma_media_meta_plain(l: Seq<char>)
    requires
        is_media_meta(l),
    ensures
        !is_stream_inf(l),
        !is_extinf(l),
        !is_map_line(l),
        !is_uri_line(l),
{
    reveal_strlit("#EXT-X-TARGETDURATION");
    reveal_strlit("#EXT-X-ENDLIST");
    reveal_strlit("#EXT-X-STREAM-INF:");
    reveal_strlit("#EXTINF:");
    reveal_strlit("#EXT-X-MAP:");
    let td = "#EXT-X-TARGETDURATION"@;
    let el = "#EXT-X-ENDLIST"@;
    if td.is_prefix_of(l) {
        lemma_prefix_char(td, l, 0);
        lemma_prefix_char(td, l, 4);
        lemma_prefix_char(td, l, 7);
    } else {
        lemma_prefix_char(el, l, 0);
        lemma_prefix_char(el, l, 4);
        lemma_prefix_char(el, l, 7);
    }
    if is_stream_inf(l) {
        lemma_prefix_char("#EXT-X-STREAM-INF:"@, l, 7);
        assert(false);
    }
    if is_extinf(l) {
        lemma_prefix_char("#EXTINF:"@, l, 4);
        assert(false);
    }
    if is_map_line(l) {
        lemma_prefix_char("#EXT-X-MAP:"@, l, 7);
        assert(false);
    }
}

/// Folding the lines of well-formed variant declarations appends exactly one
/// variant per declaration, in order.
proof fn lemma_master_fold_pairs(ps: Seq<(Seq<char>, Seq<char>)>, acc: MasterAcc)
    requires
        acc.pending is None,
        forall|i: int|
            0 <= i < ps.len() ==> is_stream_inf((#[trigger] ps[i]).0) && is_uri_line(ps[i].1),
    ensures
        master_fold(pair_lines(ps), acc) == (MasterAcc {
            variants: acc.variants + variants_of_pairs(ps),
            pending: None,
        }),
    decreases ps.len(),
{
    lemma_pair_lines_len(ps);
    if ps.len() == 0 {
        assert(acc.variants + variants_of_pairs(ps) =~= acc.variants);
        assert((MasterAcc { variants: acc.variants + variants_of_pairs(ps), pending: None })
            =~= acc);
    } else {
        let a = ps[0].0;
        let b = ps[0].1;
        let lines = pair_lines(ps);
        let rest = pair_lines(ps.drop_first());
        assert(lines == seq![a, b] + rest);
        assert(lines[0] == a);
        let acc1 = master_step(acc, a);
        assert(acc1 == MasterAcc { variants: acc.variants, pending: Some(find_bandwidth(a)) });
        assert(lines.drop_first() =~= seq![b] + rest);
        assert((seq![b] + rest)[0] == b);
        lemma_uri_line_not_tagged(b);
        let acc2 = master_step(acc1, b);
        assert(acc2 == MasterAcc {
            variants: acc.variants.push(VariantModel { uri: b, bandwidth: find_bandwidth(a) }),
            pending: None,
        });
        assert((seq![b] + rest).drop_first() =~= rest);
        lemma_master_fold_pairs(ps.drop_first(), acc2);
        assert(acc2.variants + variants_of_pairs(ps.drop_first()) =~= acc.variants
            + variants_of_pairs(ps));
        assert(master_fold(lines, acc) == master_fold(lines.drop_first(), acc1));
        assert(lines.drop_first() == seq![b] + rest);
        assert(master_fold(seq![b] + rest, acc1) == master_fold(rest, acc2));
    }
}

/// For every manifest text whose trimmed lines are the `#EXTM3U` header
/// followed by N >= 1 well-formed variant declarations (a stream-variant tag
/// line, then its URI line), parsing yields `Master` with exactly those N
/// variants, in source order, each carrying its line's URI and bandwidth.
pub proof fn lemma_master_manifest_parses(text: Seq<char>, ps: Seq<(Seq<char>, Seq<char>)>)
    requires
        ps.len() >= 1,
        forall|i: int|
            0 <= i < ps.len() ==> is_stream_inf((#[trigger] ps[i]).0) && is_uri_line(ps[i].1),
        lines_of(text).len() >= 1,
        is_header_line(lines_of(text)[0]),
        lines_of(text).drop_first() == pair_lines(ps),
    ensures
        parse_outcome(text) == Ok::<PlaylistModel, crate::errors::ParseReason>(
            PlaylistModel::Master { variants: variants_of_pairs(ps) },
        ),
{
    let ls = lines_of(text);
    let h = ls[0];
    lemma_header_line_plain(h);
    assert(header_ok(ls));
    lemma_pair_lines_len(ps);
    lemma_pair_lines_index(ps, 0);
    assert(ls.drop_first()[0] == ps[0].0);
    assert(ls[1] == ps[0].0);
    assert(has_master_tag(ls));
    let acc1 = master_step(master_init(), h);
    assert(acc1 == master_init());
    lemma_master_fold_pairs(ps, master_init());
    assert(master_fold(ls, master_init()) == master_fold(ls.drop_first(), acc1));
    assert(master_init().variants + variants_of_pairs(ps) =~= variants_of_pairs(ps));
}

/// Folding the lines of well-formed segment declarations appends exactly one
/// segment per declaration, in order, each carrying the map in effect.
proof fn lemma_media_fold_pairs(ps: Seq<(Seq<char>, Seq<char>)>, acc: MediaAcc)
    requires
        acc.fault is None,
        acc.pending_ms is None,
        forall|i: int|
            0 <= i < ps.len() ==> is_extinf((#[trigger] ps[i]).0) && duration_of(ps[i].0) is Some
                && is_uri_line(ps[i].1),
    ensures
        media_fold(pair_lines(ps), acc) == (MediaAcc {
            segments: acc.segments + segments_of_pairs(ps, acc.map_uri),
            map_uri: acc.map_uri,
            pending_ms: None,
            fault: None,
        }),
    decreases ps.len(),
{
    lemma_pair_lines_len(ps);
    if ps.len() == 0 {
        assert(acc.segments + segments_of_pairs(ps, acc.map_uri) =~= acc.segments);
        assert((MediaAcc {
            segments: acc.segments + segments_of_pairs(ps, acc.map_uri),
            map_uri: acc.map_uri,
            pending_ms: None,
            fault: None,
        }) =~= acc);
    } else {
        let a = ps[0].0;
        let b = ps[0].1;
        let lines = pair_lines(ps);
        let rest = pair_lines(ps.drop_first());
        assert(lines == seq![a, b] + rest);
        assert(lines[0] == a);
        reveal_strlit("#EXTINF:");
        reveal_strlit("#EXT-X-MAP:");
        let acc1 = media_step(acc, a);
        assert(acc1 == MediaAcc {
            segments: acc.segments,
            map_uri: acc.map_uri,
            pending_ms: Some(duration_of(a)->0),
            fault: None,
        });
        assert(lines.drop_first() =~= seq![b] + rest);
        assert((seq![b] + rest)[0] == b);
        lemma_uri_line_not_tagged(b);
        let acc2 = media_step(acc1, b);
        assert(acc2 == MediaAcc {
            segments: acc.segments.push(
                SegmentModel { uri: b, duration_ms: duration_of(a)->0, init_map: acc.map_uri },
            ),
            map_uri: acc.map_uri,
            pending_ms: None,
            fault: None,
        });
        assert((seq![b] + rest).drop_first() =~= rest);
        lemma_media_fold_pairs(ps.drop_first(), acc2);
        assert(acc2.segments + segments_of_pairs(ps.drop_first(), acc.map_uri) =~= acc.segments
            + segments_of_pairs(ps, acc.map_uri));
        assert(media_fold(lines, acc) == media_fold(lines.drop_first(), acc1));
        assert(lines.drop_first() == seq![b] + rest);
        assert(media_fold(seq![b] + rest, acc1) == media_fold(rest, acc2));
    }
}

/// For every manifest text whose trimmed lines are the `#EXTM3U` header, one
/// media-only meta tag, and M >= 0 well-formed segment declarations (an
/// `#EXTINF` line with a readable duration, then its URI line), parsing
/// yields `Media` with exactly those M segments in source order, the duration
/// of each matching its `#EXTINF` value.
pub proof fn lemma_media_manifest_parses(
    text: Seq<char>,
    meta: Seq<char>,
    ps: Seq<(Seq<char>, Seq<char>)>,
)
    requires
        is_media_meta(meta),
        forall|i: int|
            0 <= i < ps.len() ==> is_extinf((#[trigger] ps[i]).0) && duration_of(ps[i].0) is Some
                && is_uri_line(ps[i].1),
        lines_of(text).len() >= 2,
        is_header_line(lines_of(text)[0]),
        lines_of(text)[1] == meta,
        lines_of(text).drop_first().drop_first() == pair_lines(ps),
    ensures
        parse_outcome(text) == Ok::<PlaylistModel, crate::errors::ParseReason>(
            PlaylistModel::Media { segments: segments_of_pairs(ps, None) },
        ),
{
    let ls = lines_of(text);
    let h = ls[0];
    lemma_header_line_plain(h);
    assert(header_ok(ls));
    lemma_media_meta_plain(meta);
    lemma_pair_lines_len(ps);
    assert(ls.len() == 2 + 2 * ps.len());
    assert(!has_master_tag(ls)) by {
        assert forall|i: int| 0 <= i < ls.len() implies !is_stream_inf(#[trigger] ls[i]) by {
            if i == 0 {
                lemma_header_line_plain(h);
            } else if i == 1 {
                lemma_media_meta_plain(meta);
            } else {
                lemma_pair_lines_index(ps, i - 2);
                assert(ls[i] == pair_lines(ps)[i - 2]);
                if (i - 2) % 2 == 0 {
                    let a = ps[(i - 2) / 2].0;
                    assert(is_extinf(a));
                    reveal_strlit("#EXTINF:");
                    reveal_strlit("#EXT-X-STREAM-INF:");
                    if is_stream_inf(a) {
                        lemma_prefix_char("#EXTINF:"@, a, 4);
                        lemma_prefix_char("#EXT-X-STREAM-INF:"@, a, 4);
                        assert(false);
                    }
                } else {
                    lemma_uri_line_not_tagged(ps[(i - 2) / 2].1);
                }
            }
        }
    }
    assert(has_media_tag(ls));
    let acc1 = media_step(media_init(), h);
    assert(acc1 == media_init());
    let acc2 = media_step(acc1, meta);
    assert(acc2 == media_init());
    assert(media_fold(ls, media_init()) == media_fold(ls.drop_first(), acc1));
    assert(ls.drop_first()[0] == meta);
    assert(media_fold(ls.drop_first(), acc1) == media_fold(ls.drop_first().drop_first(), acc2));
    lemma_media_fold_pairs(ps, media_init());
    assert(media_init().segments + segments_of_pairs(ps, media_init().map_uri) =~= segments_of_pairs(
        ps,
        None,
    ));
}


/// A fold step never discards a gathered variant.
proof fn lemma_master_fold_monotone(ls: Seq<Seq<char>>, acc: MasterAcc)
    ensures
        master_fold(ls, acc).variants.len() >= acc.variants.len(),
    decreases ls.len(),
{
    if ls.len() > 0 {
        lemma_master_fold_monotone(ls.drop_first(), master_step(acc, ls[0]));
    }
}

/// Once a variant declaration is open, the fold either leaves it open or
/// completes at least one variant.
proof fn lemma_master_fold_pending(ls: Seq<Seq<char>>, acc: MasterAcc)
    requires
        acc.pending is Some,
    ensures
        master_fold(ls, acc).pending is Some || master_fold(ls, acc).variants.len()
            > acc.variants.len(),
    decreases ls.len(),
{
    if ls.len() > 0 {
        let acc1 = master_step(acc, ls[0]);
        if is_stream_inf(ls[0]) {
            lemma_master_fold_pending(ls.drop_first(), acc1);
        } else if is_uri_line(ls[0]) {
            lemma_master_fold_monotone(ls.drop_first(), acc1);
        } else {
            lemma_master_fold_pending(ls.drop_first(), acc1);
        }
    }
}

proof fn lemma_master_fold_tag_yields_variant(ls: Seq<Seq<char>>, acc: MasterAcc)
    requires
        exists|i: int| 0 <= i < ls.len() && is_stream_inf(#[trigger] ls[i]),
    ensures
        master_fold(ls, acc).pending is Some || master_fold(ls, acc).variants.len() > 0,
    decreases ls.len(),
{
    let acc1 = master_step(acc, ls[0]);
    if is_stream_inf(ls[0]) {
        lemma_master_fold_pending(ls.drop_first(), acc1);
    } else {
        let i = choose|i: int| 0 <= i < ls.len() && is_stream_inf(#[trigger] ls[i]);
        assert(ls.drop_first()[i - 1] == ls[i]);
        lemma_master_fold_tag_yields_variant(ls.drop_first(), acc1);
        lemma_master_fold_monotone(Seq::<Seq<char>>::empty(), acc1);
    }
}

/// A parsed master playlist always lists at least one variant, so selection
/// on a parsed master can only fail by policy, never for emptiness.
pub proof fn lemma_master_never_empty(text: Seq<char>, variants: Seq<VariantModel>)
    requires
        parse_outcome(text) == Ok::<PlaylistModel, crate::errors::ParseReason>(
            PlaylistModel::Master { variants },
        ),
    ensures
        variants.len() >= 1,
{
    let ls = lines_of(text);
    assert(has_master_tag(ls));
    lemma_master_fold_tag_yields_variant(ls, master_init());
}

/// Parsing is a pure function of the manifest text: parsing the same text
/// twice yields structurally equal results.
pub proof fn lemma_parse_idempotent(first: Seq<char>, second: Seq<char>)
    requires
        first == second,
    ensures
        parse_outcome(first) == parse_outcome(second),
{
}

} // verus!
