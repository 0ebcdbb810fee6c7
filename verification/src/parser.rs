use vstd::prelude::*;
use vstd::string::*;
use crate::errors::{ParseReason, StreamError};
use crate::playlist::{
    InitSegmentRef, MasterPlaylist, MediaPlaylist, Playlist, PlaylistModel, Segment, SegmentModel,
    Variant, VariantModel,
};
use crate::text::{
    chars_of, digits_len, is_digit_char, is_line_ws,
    lemma_digits_len_is, lemma_trim_back_is, lemma_trim_front_is, parse_digits, parse_ms,
    parse_ms_exec, parse_u64_digits, prefix_matches, range_equals, scan_for, scan_until, trim,
};

verus! {

// ---------------------------------------------------------------------------
// Line structure of a manifest
// ---------------------------------------------------------------------------

/// Split text at each newline; a manifest with no trailing newline still
/// contributes its last line.
pub open spec fn line_split(t: Seq<char>) -> Seq<Seq<char>>
    decreases t.len(),
{
    let k = scan_until(t, '\n');
    if k >= t.len() {
        seq![t]
    } else {
        seq![t.take(k as int)] + line_split(t.skip(k as int + 1))
    }
}

/// The manifest's lines, each with surrounding whitespace (including the `\r`
/// of a CRLF ending) removed.
pub open spec fn lines_of(t: Seq<char>) -> Seq<Seq<char>> {
    line_split(t).map_values(|l: Seq<char>| trim(l))
}

/// Peeling one newline-terminated line off the front of a text.
pub proof fn lemma_lines_of_step(a: Seq<char>, b: Seq<char>)
    requires
        forall|i: int| 0 <= i < a.len() ==> a[i] != '\n',
    ensures
        lines_of(a + seq!['\n'] + b) == seq![trim(a)] + lines_of(b),
{
    let t = a + seq!['\n'] + b;
    crate::text::lemma_scan_until_is(t, '\n', a.len());
    assert(t.take(a.len() as int) =~= a);
    assert(t.skip(a.len() as int + 1) =~= b);
    assert(line_split(t) == seq![a] + line_split(b));
    assert(lines_of(t) =~= seq![trim(a)] + lines_of(b)) by {
        assert(forall|i: int|
            0 <= i < line_split(b).len() ==> (seq![a] + line_split(b))[i + 1] == #[trigger] line_split(
                b,
            )[i]);
    }
}

/// A text without a newline is one line.
pub proof fn lemma_lines_of_last(a: Seq<char>)
    requires
        forall|i: int| 0 <= i < a.len() ==> a[i] != '\n',
    ensures
        lines_of(a) == seq![trim(a)],
{
    crate::text::lemma_scan_until_is(a, '\n', a.len());
    assert(line_split(a) == seq![a]);
    assert(lines_of(a) =~= seq![trim(a)]);
}

// ---------------------------------------------------------------------------
// Tag recognition
// ---------------------------------------------------------------------------

pub open spec fn is_header_line(l: Seq<char>) -> bool {
    l == "#EXTM3U"@
}

pub open spec fn is_stream_inf(l: Seq<char>) -> bool {
    "#EXT-X-STREAM-INF:"@.is_prefix_of(l)
}

pub open spec fn is_extinf(l: Seq<char>) -> bool {
    "#EXTINF:"@.is_prefix_of(l)
}

pub open spec fn is_map_line(l: Seq<char>) -> bool {
    "#EXT-X-MAP:"@.is_prefix_of(l)
}

/// Media-only tags that classify a manifest as a media playlist even when it
/// lists no segment.
pub open spec fn is_media_meta(l: Seq<char>) -> bool {
    "#EXT-X-TARGETDURATION"@.is_prefix_of(l) || "#EXT-X-ENDLIST"@.is_prefix_of(l)
}

/// A non-tag, non-comment line: the URI belonging to the declaration above it.
pub open spec fn is_uri_line(l: Seq<char>) -> bool {
    l.len() > 0 && l[0] != '#'
}

/// The first non-empty line must be the `#EXTM3U` header.
pub open spec fn header_ok(ls: Seq<Seq<char>>) -> bool
    decreases ls.len(),
{
    if ls.len() == 0 {
        false
    } else if ls[0].len() == 0 {
        header_ok(ls.drop_first())
    } else {
        is_header_line(ls[0])
    }
}

pub open spec fn has_master_tag(ls: Seq<Seq<char>>) -> bool {
    exists|i: int| 0 <= i < ls.len() && is_stream_inf(ls[i])
}

pub open spec fn has_media_tag(ls: Seq<Seq<char>>) -> bool {
    exists|i: int| 0 <= i < ls.len() && (is_extinf(ls[i]) || is_media_meta(ls[i]))
}

// ---------------------------------------------------------------------------
// Attribute values
// ---------------------------------------------------------------------------

/// Is the next position an attribute boundary after this character?
pub open spec fn is_attr_boundary(c: char) -> bool {
    c == ',' || c == ':'
}

/// Value of the first `BANDWIDTH=` attribute standing at a boundary (the
/// scan's start or right after a `,` or `:`), so that `AVERAGE-BANDWIDTH=`
/// never matches.
pub open spec fn find_bandwidth_from(s: Seq<char>, boundary: bool) -> Option<u64>
    decreases s.len(),
{
    if boundary && "BANDWIDTH="@.is_prefix_of(s) {
        let rest = s.skip("BANDWIDTH="@.len() as int);
        parse_u64_digits(rest.take(digits_len(rest) as int))
    } else if s.len() == 0 {
        None
    } else {
        find_bandwidth_from(s.drop_first(), is_attr_boundary(s[0]))
    }
}

/// Value of the line's `BANDWIDTH=` attribute, if any.
pub open spec fn find_bandwidth(s: Seq<char>) -> Option<u64> {
    find_bandwidth_from(s, true)
}

/// The quoted value of the first `URI="..."` attribute standing at a
/// boundary, if any.
pub open spec fn find_quoted_uri_from(s: Seq<char>, boundary: bool) -> Option<Seq<char>>
    decreases s.len(),
{
    if boundary && "URI=\""@.is_prefix_of(s) {
        let rest = s.skip("URI=\""@.len() as int);
        let k = scan_until(rest, '"');
        if k < rest.len() {
            Some(rest.take(k as int))
        } else {
            None
        }
    } else if s.len() == 0 {
        None
    } else {
        find_quoted_uri_from(s.drop_first(), is_attr_boundary(s[0]))
    }
}

/// The quoted value of the line's `URI="..."` attribute, if any.
pub open spec fn find_quoted_uri(s: Seq<char>) -> Option<Seq<char>> {
    find_quoted_uri_from(s, true)
}

/// `#EXTINF:` duration in milliseconds: the text after the colon up to the
/// first comma, read as decimal seconds.
pub open spec fn duration_of(l: Seq<char>) -> Option<u64> {
    let rest = l.skip("#EXTINF:"@.len() as int);
    parse_ms(rest.take(scan_until(rest, ',') as int))
}

// ---------------------------------------------------------------------------
// Folding lines into playlists
// ---------------------------------------------------------------------------

/// Master fold state: variants gathered so far, and the bandwidth of a
/// `#EXT-X-STREAM-INF` declaration awaiting its URI line.
#[verifier::ext_equal]
pub struct MasterAcc {
    pub variants: Seq<VariantModel>,
    pub pending: Option<Option<u64>>,
}

pub open spec fn master_init() -> MasterAcc {
    MasterAcc { variants: Seq::empty(), pending: None }
}

pub open spec fn master_step(acc: MasterAcc, l: Seq<char>) -> MasterAcc {
    if is_stream_inf(l) {
        MasterAcc { variants: acc.variants, pending: Some(find_bandwidth(l)) }
    } else if is_uri_line(l) && acc.pending is Some {
        MasterAcc {
            variants: acc.variants.push(VariantModel { uri: l, bandwidth: acc.pending->0 }),
            pending: None,
        }
    } else {
        acc
    }
}

pub open spec fn master_fold(ls: Seq<Seq<char>>, acc: MasterAcc) -> MasterAcc
    decreases ls.len(),
{
    if ls.len() == 0 {
        acc
    } else {
        master_fold(ls.drop_first(), master_step(acc, ls[0]))
    }
}

/// Media fold state: segments gathered so far, the map in effect, a duration
/// awaiting its URI line, and the first fault met.
#[verifier::ext_equal]
pub struct MediaAcc {
    pub segments: Seq<SegmentModel>,
    pub map_uri: Option<Seq<char>>,
    pub pending_ms: Option<u64>,
    pub fault: Option<ParseReason>,
}

pub open spec fn media_init() -> MediaAcc {
    MediaAcc { segments: Seq::empty(), map_uri: None, pending_ms: None, fault: None }
}

pub open spec fn media_step(acc: MediaAcc, l: Seq<char>) -> MediaAcc {
    if acc.fault is Some {
        acc
    } else if is_extinf(l) {
        match duration_of(l) {
            Some(d) => MediaAcc {
                segments: acc.segments,
                map_uri: acc.map_uri,
                pending_ms: Some(d),
                fault: None,
            },
            None => MediaAcc {
                segments: acc.segments,
                map_uri: acc.map_uri,
                pending_ms: acc.pending_ms,
                fault: Some(ParseReason::InvalidDuration),
            },
        }
    } else if is_map_line(l) {
        match find_quoted_uri(l) {
            Some(u) => MediaAcc {
                segments: acc.segments,
                map_uri: Some(u),
                pending_ms: acc.pending_ms,
                fault: None,
            },
            None => MediaAcc {
                segments: acc.segments,
                map_uri: acc.map_uri,
                pending_ms: acc.pending_ms,
                fault: Some(ParseReason::InvalidMap),
            },
        }
    } else if is_uri_line(l) && acc.pending_ms is Some {
        MediaAcc {
            segments: acc.segments.push(
                SegmentModel { uri: l, duration_ms: acc.pending_ms->0, init_map: acc.map_uri },
            ),
            map_uri: acc.map_uri,
            pending_ms: None,
            fault: None,
        }
    } else {
        acc
    }
}

pub open spec fn media_fold(ls: Seq<Seq<char>>, acc: MediaAcc) -> MediaAcc
    decreases ls.len(),
{
    if ls.len() == 0 {
        acc
    } else {
        media_fold(ls.drop_first(), media_step(acc, ls[0]))
    }
}

/// Once a fault is recorded the fold ignores the remaining lines.
pub proof fn lemma_media_fold_fault(ls: Seq<Seq<char>>, acc: MediaAcc)
    requires
        acc.fault is Some,
    ensures
        media_fold(ls, acc) == acc,
    decreases ls.len(),
{
    if ls.len() > 0 {
        assert(media_step(acc, ls[0]) == acc);
        lemma_media_fold_fault(ls.drop_first(), acc);
    }
}

// ---------------------------------------------------------------------------
// The parse function, specified exactly
// ---------------------------------------------------------------------------

/// What parsing a line sequence yields: classification by tags, then the fold
/// for the recognized kind. A text whose first non-empty line is not the
/// `#EXTM3U` header is no recognizable manifest and is rejected as
/// `Unrecognized`, like a header-bearing text with neither master nor media
/// tags.
pub open spec fn parse_lines(ls: Seq<Seq<char>>) -> Result<PlaylistModel, ParseReason> {
    if !header_ok(ls) {
        Err(ParseReason::Unrecognized)
    } else if has_master_tag(ls) {
        let acc = master_fold(ls, master_init());
        if acc.pending is Some {
            Err(ParseReason::DanglingTag)
        } else {
            Ok(PlaylistModel::Master { variants: acc.variants })
        }
    } else if has_media_tag(ls) {
        let acc = media_fold(ls, media_init());
        if acc.fault is Some {
            Err(acc.fault->0)
        } else if acc.pending_ms is Some {
            Err(ParseReason::DanglingTag)
        } else {
            Ok(PlaylistModel::Media { segments: acc.segments })
        }
    } else {
        Err(ParseReason::Unrecognized)
    }
}

/// The parse outcome as a pure function of the manifest text.
pub open spec fn parse_outcome(t: Seq<char>) -> Result<PlaylistModel, ParseReason> {
    parse_lines(lines_of(t))
}

// ---------------------------------------------------------------------------
// Executable parsing
// ---------------------------------------------------------------------------

/// Split the text into trimmed lines, returning for each both its characters
/// and its span within the original text (for owned extraction).
fn split_trimmed_lines(text: &str, chars: &Vec<char>) -> (r: (Vec<Vec<char>>, Vec<(usize, usize)>))
    requires
        chars@ == text@,
    ensures
        r.0@.len() == lines_of(text@).len(),
        r.1@.len() == r.0@.len(),
        forall|i: int| 0 <= i < r.0@.len() ==> (#[trigger] r.0@[i])@ == lines_of(text@)[i],
        forall|i: int|
            0 <= i < r.1@.len() ==> (#[trigger] r.1@[i]).0 <= r.1@[i].1 <= text@.len()
                && text@.subrange(r.1@[i].0 as int, r.1@[i].1 as int) == r.0@[i]@,
{
    let ghost ls_all = line_split(text@);
    let n = chars.len();
    let mut lines: Vec<Vec<char>> = Vec::new();
    let mut spans: Vec<(usize, usize)> = Vec::new();
    let mut pos: usize = 0;
    let mut done = false;
    proof {
        assert(text@.skip(0) =~= text@);
    }
    while !done
        invariant
            chars@ == text@,
            n == text@.len(),
            pos <= n,
            ls_all == line_split(text@),
            spans@.len() == lines@.len(),
            forall|i: int|
                0 <= i < lines@.len() ==> 0 <= i < ls_all.len() && (#[trigger] lines@[i])@
                    == trim(ls_all[i]),
            forall|i: int|
                0 <= i < spans@.len() ==> (#[trigger] spans@[i]).0 <= spans@[i].1 <= n
                    && text@.subrange(spans@[i].0 as int, spans@[i].1 as int) == lines@[i]@,
            !done ==> ls_all.len() == lines@.len() + line_split(text@.skip(pos as int)).len(),
            !done ==> forall|i: int|
                0 <= i < line_split(text@.skip(pos as int)).len() ==> ls_all[lines@.len() + i]
                    == #[trigger] line_split(text@.skip(pos as int))[i],
            done ==> ls_all.len() == lines@.len(),
        decreases n - pos + (if done { 0int } else { 1int }),
    {
        let ghost rest = line_split(text@.skip(pos as int));
        let e = scan_for(chars, pos, n, '\n');
        proof {
            assert(text@.skip(pos as int) =~= text@.subrange(pos as int, n as int));
            assert(scan_until(text@.skip(pos as int), '\n') == e - pos);
            if e < n {
                assert(rest == seq![text@.skip(pos as int).take(e - pos)] + line_split(
                    text@.skip(pos as int).skip(e - pos + 1),
                ));
                assert(text@.skip(pos as int).take(e - pos) =~= text@.subrange(
                    pos as int,
                    e as int,
                ));
                assert(text@.skip(pos as int).skip(e - pos + 1) =~= text@.skip(e + 1));
            } else {
                assert(rest == seq![text@.skip(pos as int)]);
                assert(text@.skip(pos as int) =~= text@.subrange(pos as int, e as int));
            }
            assert(rest[0] == text@.subrange(pos as int, e as int));
        }
        let (f, b) = trim_scan(chars, pos, e);
        let line = copy_range(chars, f, b);
        proof {
            assert(line@ == trim(text@.subrange(pos as int, e as int)));
            assert(rest.len() >= 1);
        }
        lines.push(line);
        spans.push((f, b));
        if e < n {
            pos = e + 1;
            proof {
                let rest2 = line_split(text@.skip(pos as int));
                assert(rest =~= seq![rest[0]] + rest2);
                assert(forall|i: int| 0 <= i < rest2.len() ==> rest[i + 1] == #[trigger] rest2[i]);
            }
        } else {
            done = true;
        }
    }
    proof {
        assert(lines_of(text@).len() == ls_all.len());
        assert(forall|i: int|
            0 <= i < ls_all.len() ==> lines_of(text@)[i] == trim(#[trigger] ls_all[i]));
    }
    (lines, spans)
}

/// Whitespace-trimming bounds of `v[from..to]`.
fn trim_scan(v: &Vec<char>, from: usize, to: usize) -> (r: (usize, usize))
    requires
        from <= to <= v@.len(),
    ensures
        from <= r.0 <= r.1 <= to,
        trim(v@.subrange(from as int, to as int)) == v@.subrange(r.0 as int, r.1 as int),
{
    let ghost sub = v@.subrange(from as int, to as int);
    let mut f = from;
    while f < to && (v[f] == ' ' || v[f] == '\t' || v[f] == '\r')
        invariant
            from <= f <= to <= v@.len(),
            forall|j: int| from <= j < f ==> is_line_ws(v@[j]),
        decreases to - f,
    {
        f = f + 1;
    }
    let mut b = to;
    while b > f && (v[b - 1] == ' ' || v[b - 1] == '\t' || v[b - 1] == '\r')
        invariant
            f <= b <= to <= v@.len(),
            forall|j: int| b <= j < to ==> is_line_ws(v@[j]),
        decreases b,
    {
        b = b - 1;
    }
    proof {
        lemma_trim_front_is(sub, (f - from) as nat);
        let tf = sub.skip((f - from) as int);
        assert(tf =~= v@.subrange(f as int, to as int));
        lemma_trim_back_is(tf, (b - f) as nat);
        assert(tf.take((b - f) as int) =~= v@.subrange(f as int, b as int));
    }
    (f, b)
}

fn copy_range(v: &Vec<char>, from: usize, to: usize) -> (r: Vec<char>)
    requires
        from <= to <= v@.len(),
    ensures
        r@ == v@.subrange(from as int, to as int),
{
    let mut r: Vec<char> = Vec::new();
    let mut i = from;
    while i < to
        invariant
            from <= i <= to <= v@.len(),
            r@ == v@.subrange(from as int, i as int),
        decreases to - i,
    {
        r.push(v[i]);
        i = i + 1;
        proof {
            assert(r@ =~= v@.subrange(from as int, i as int));
        }
    }
    r
}

fn check_header(lines: &Vec<Vec<char>>, Ghost(ls): Ghost<Seq<Seq<char>>>) -> (r: bool)
    requires
        lines@.len() == ls.len(),
        forall|i: int| 0 <= i < ls.len() ==> (#[trigger] lines@[i])@ == ls[i],
    ensures
        r == header_ok(ls),
{
    let n = lines.len();
    let mut i: usize = 0;
    proof {
        assert(ls.skip(0) =~= ls);
    }
    while i < n
        invariant
            i <= n,
            n == lines@.len() == ls.len(),
            forall|k: int| 0 <= k < ls.len() ==> (#[trigger] lines@[k])@ == ls[k],
            header_ok(ls) == header_ok(ls.skip(i as int)),
        decreases n - i,
    {
        let m = lines[i].len();
        if m == 0 {
            proof {
                assert(ls.skip(i as int)[0] == ls[i as int]);
                assert(ls.skip(i as int).drop_first() =~= ls.skip(i + 1));
            }
            i = i + 1;
        } else {
            let r = range_equals(&lines[i], 0, m, "#EXTM3U");
            proof {
                assert(lines@[i as int]@.subrange(0, m as int) =~= ls[i as int]);
                assert(ls.skip(i as int)[0] == ls[i as int]);
            }
            return r;
        }
    }
    proof {
        assert(ls.skip(n as int).len() == 0);
    }
    false
}

fn any_line_has_prefix(lines: &Vec<Vec<char>>, pat: &str, Ghost(ls): Ghost<Seq<Seq<char>>>) -> (r:
    bool)
    requires
        lines@.len() == ls.len(),
        forall|i: int| 0 <= i < ls.len() ==> (#[trigger] lines@[i])@ == ls[i],
    ensures
        r == exists|i: int| 0 <= i < ls.len() && pat@.is_prefix_of(#[trigger] ls[i]),
{
    let n = lines.len();
    let mut i: usize = 0;
    while i < n
        invariant
            i <= n,
            n == lines@.len() == ls.len(),
            forall|k: int| 0 <= k < ls.len() ==> (#[trigger] lines@[k])@ == ls[k],
            forall|k: int| 0 <= k < i ==> !pat@.is_prefix_of(#[trigger] ls[k]),
        decreases n - i,
    {
        let m = lines[i].len();
        if prefix_matches(&lines[i], 0, m, pat) {
            proof {
                assert(lines@[i as int]@.subrange(0, m as int) =~= ls[i as int]);
            }
            return true;
        }
        proof {
            assert(lines@[i as int]@.subrange(0, m as int) =~= ls[i as int]);
        }
        i = i + 1;
    }
    false
}

/// Scan a line for its `BANDWIDTH=` attribute value.
fn find_bandwidth_exec(line: &Vec<char>) -> (r: Option<u64>)
    ensures
        r == find_bandwidth(line@),
{
    let n = line.len();
    let mut i: usize = 0;
    let mut boundary = true;
    proof {
        assert(line@.skip(0) =~= line@);
    }
    while i < n
        invariant
            i <= n,
            n == line@.len(),
            find_bandwidth(line@) == find_bandwidth_from(line@.skip(i as int), boundary),
        decreases n - i,
    {
        if boundary && prefix_matches(line, i, n, "BANDWIDTH=") {
            let m = "BANDWIDTH=".unicode_len();
            proof {
                assert(line@.subrange(i as int, n as int) =~= line@.skip(i as int));
            }
            let start = i + m;
            let mut j = start;
            while j < n && 48 <= line[j] as u32 && line[j] as u32 <= 57
                invariant
                    start <= j <= n <= line@.len(),
                    forall|t: int| start <= t < j ==> is_digit_char(line@[t]),
                decreases n - j,
            {
                j = j + 1;
            }
            proof {
                let s = line@.skip(i as int);
                let rest = s.skip("BANDWIDTH="@.len() as int);
                assert(rest =~= line@.subrange(start as int, n as int));
                lemma_digits_len_is(rest, (j - start) as nat);
                assert(rest.take((j - start) as int) =~= line@.subrange(start as int, j as int));
            }
            return parse_digits(line, start, j);
        }
        proof {
            assert(line@.subrange(i as int, n as int) =~= line@.skip(i as int));
            assert(line@.skip(i as int).drop_first() =~= line@.skip(i + 1));
            assert(line@.skip(i as int)[0] == line@[i as int]);
        }
        boundary = line[i] == ',' || line[i] == ':';
        i = i + 1;
    }
    proof {
        reveal_strlit("BANDWIDTH=");
        assert(line@.skip(n as int).len() == 0);
        assert(!"BANDWIDTH="@.is_prefix_of(line@.skip(n as int)));
    }
    None
}

/// Scan a line for its quoted `URI="..."` attribute, returned as positions
/// within the line.
fn find_quoted_uri_exec(line: &Vec<char>) -> (r: Option<(usize, usize)>)
    ensures
        match r {
            Some(ab) => ab.0 <= ab.1 <= line@.len() && find_quoted_uri(line@) == Some(
                line@.subrange(ab.0 as int, ab.1 as int),
            ),
            None => find_quoted_uri(line@) is None,
        },
{
    let n = line.len();
    let mut i: usize = 0;
    let mut boundary = true;
    proof {
        assert(line@.skip(0) =~= line@);
    }
    while i < n
        invariant
            i <= n,
            n == line@.len(),
            find_quoted_uri(line@) == find_quoted_uri_from(line@.skip(i as int), boundary),
        decreases n - i,
    {
        if boundary && prefix_matches(line, i, n, "URI=\"") {
            let m = "URI=\"".unicode_len();
            proof {
                assert(line@.subrange(i as int, n as int) =~= line@.skip(i as int));
            }
            let start = i + m;
            let q = scan_for(line, start, n, '"');
            proof {
                let s = line@.skip(i as int);
                let rest = s.skip("URI=\""@.len() as int);
                assert(rest =~= line@.subrange(start as int, n as int));
                assert(scan_until(rest, '"') == q - start);
                if q < n {
                    assert(rest.take((q - start) as int) =~= line@.subrange(
                        start as int,
                        q as int,
                    ));
                }
            }
            if q < n {
                return Some((start, q));
            } else {
                return None;
            }
        }
        proof {
            assert(line@.subrange(i as int, n as int) =~= line@.skip(i as int));
            assert(line@.skip(i as int).drop_first() =~= line@.skip(i + 1));
            assert(line@.skip(i as int)[0] == line@[i as int]);
        }
        boundary = line[i] == ',' || line[i] == ':';
        i = i + 1;
    }
    proof {
        reveal_strlit("URI=\"");
        assert(line@.skip(n as int).len() == 0);
        assert(!"URI=\""@.is_prefix_of(line@.skip(n as int)));
    }
    None
}

/// Read the `#EXTINF:` duration of a recognized segment declaration line.
fn duration_value(line: &Vec<char>) -> (r: Option<u64>)
    requires
        is_extinf(line@),
    ensures
        r == duration_of(line@),
{
    let m = "#EXTINF:".unicode_len();
    let n = line.len();
    proof {
        assert("#EXTINF:"@.is_prefix_of(line@));
    }
    let comma = scan_for(line, m, n, ',');
    proof {
        let rest = line@.skip(m as int);
        assert(rest =~= line@.subrange(m as int, n as int));
        assert(scan_until(rest, ',') == comma - m);
        assert(rest.take((comma - m) as int) =~= line@.subrange(m as int, comma as int));
    }
    parse_ms_exec(line, m, comma)
}

/// Fold the lines of a master manifest into its variant list.
fn build_master(
    text: &str,
    lines: &Vec<Vec<char>>,
    spans: &Vec<(usize, usize)>,
    Ghost(ls): Ghost<Seq<Seq<char>>>,
) -> (r: Result<MasterPlaylist, StreamError>)
    requires
        lines@.len() == ls.len(),
        spans@.len() == ls.len(),
        forall|i: int| 0 <= i < ls.len() ==> (#[trigger] lines@[i])@ == ls[i],
        forall|i: int|
            0 <= i < ls.len() ==> (#[trigger] spans@[i]).0 <= spans@[i].1 <= text@.len()
                && text@.subrange(spans@[i].0 as int, spans@[i].1 as int) == ls[i],
    ensures
        ({
            let acc = master_fold(ls, master_init());
            match r {
                Ok(mp) => acc.pending is None && mp@ == acc.variants,
                Err(e) => acc.pending is Some && (e matches StreamError::ParseError { reason }
                    && reason == ParseReason::DanglingTag),
            }
        }),
{
    let n = lines.len();
    let mut variants: Vec<Variant> = Vec::new();
    let mut pending: Option<Option<u64>> = None;
    let mut i: usize = 0;
    proof {
        assert(ls.skip(0) =~= ls);
        assert(variants@.map_values(|v: Variant| v@) =~= Seq::<VariantModel>::empty());
    }
    while i < n
        invariant
            i <= n,
            n == lines@.len() == ls.len() == spans@.len(),
            forall|k: int| 0 <= k < ls.len() ==> (#[trigger] lines@[k])@ == ls[k],
            forall|k: int|
                0 <= k < ls.len() ==> (#[trigger] spans@[k]).0 <= spans@[k].1 <= text@.len()
                    && text@.subrange(spans@[k].0 as int, spans@[k].1 as int) == ls[k],
            master_fold(ls, master_init()) == master_fold(
                ls.skip(i as int),
                MasterAcc { variants: variants@.map_values(|v: Variant| v@), pending: pending },
            ),
        decreases n - i,
    {
        let ghost acc = MasterAcc {
            variants: variants@.map_values(|v: Variant| v@),
            pending: pending,
        };
        let m = lines[i].len();
        proof {
            assert(ls.skip(i as int)[0] == ls[i as int]);
            assert(ls.skip(i as int).drop_first() =~= ls.skip(i + 1));
        }
        if prefix_matches(&lines[i], 0, m, "#EXT-X-STREAM-INF:") {
            proof {
                assert(lines@[i as int]@.subrange(0, m as int) =~= ls[i as int]);
            }
            let bw = find_bandwidth_exec(&lines[i]);
            pending = Some(bw);
            proof {
                assert(master_step(acc, ls[i as int]) == MasterAcc {
                    variants: acc.variants,
                    pending: Some(find_bandwidth(ls[i as int])),
                });
            }
        } else {
            proof {
                assert(lines@[i as int]@.subrange(0, m as int) =~= ls[i as int]);
            }
            if m > 0 && lines[i][0] != '#' {
                proof {
                    assert(is_uri_line(ls[i as int]));
                }
                if pending.is_some() {
                    let sp = spans[i];
                    let uri = text.substring_char(sp.0, sp.1).to_owned();
                    let bw = match pending {
                        Some(b) => b,
                        None => None,
                    };
                    let ghost old_vs = variants@.map_values(|v: Variant| v@);
                    variants.push(Variant { uri, bandwidth: bw });
                    pending = None;
                    proof {
                        assert(variants@.map_values(|v: Variant| v@) =~= old_vs.push(
                            VariantModel { uri: ls[i as int], bandwidth: acc.pending->0 },
                        ));
                    }
                }
            } else {
                proof {
                    assert(!is_uri_line(ls[i as int]));
                }
            }
        }
        i = i + 1;
    }
    proof {
        assert(ls.skip(n as int).len() == 0);
    }
    if pending.is_some() {
        Err(StreamError::ParseError { reason: ParseReason::DanglingTag })
    } else {
        Ok(MasterPlaylist { variants })
    }
}

/// Fold the lines of a media manifest into its segment list.
fn build_media(
    text: &str,
    lines: &Vec<Vec<char>>,
    spans: &Vec<(usize, usize)>,
    Ghost(ls): Ghost<Seq<Seq<char>>>,
) -> (r: Result<MediaPlaylist, StreamError>)
    requires
        lines@.len() == ls.len(),
        spans@.len() == ls.len(),
        forall|i: int| 0 <= i < ls.len() ==> (#[trigger] lines@[i])@ == ls[i],
        forall|i: int|
            0 <= i < ls.len() ==> (#[trigger] spans@[i]).0 <= spans@[i].1 <= text@.len()
                && text@.subrange(spans@[i].0 as int, spans@[i].1 as int) == ls[i],
    ensures
        ({
            let acc = media_fold(ls, media_init());
            match r {
                Ok(mp) => acc.fault is None && acc.pending_ms is None && mp@ == acc.segments,
                Err(e) => e matches StreamError::ParseError { reason } && ((acc.fault == Some(
                    reason,
                )) || (acc.fault is None && acc.pending_ms is Some && reason
                    == ParseReason::DanglingTag)),
            }
        }),
{
    let n = lines.len();
    let mut segments: Vec<Segment> = Vec::new();
    let mut cur_map: Option<String> = None;
    let mut pending_ms: Option<u64> = None;
    let mut i: usize = 0;
    proof {
        assert(ls.skip(0) =~= ls);
        assert(segments@.map_values(|s: Segment| s@) =~= Seq::<SegmentModel>::empty());
    }
    while i < n
        invariant
            i <= n,
            n == lines@.len() == ls.len() == spans@.len(),
            forall|k: int| 0 <= k < ls.len() ==> (#[trigger] lines@[k])@ == ls[k],
            forall|k: int|
                0 <= k < ls.len() ==> (#[trigger] spans@[k]).0 <= spans@[k].1 <= text@.len()
                    && text@.subrange(spans@[k].0 as int, spans@[k].1 as int) == ls[k],
            media_fold(ls, media_init()) == media_fold(
                ls.skip(i as int),
                MediaAcc {
                    segments: segments@.map_values(|s: Segment| s@),
                    map_uri: (match &cur_map {
                        Some(u) => Some(u@),
                        None => None,
                    }),
                    pending_ms: pending_ms,
                    fault: None,
                },
            ),
        decreases n - i,
    {
        let ghost acc = MediaAcc {
            segments: segments@.map_values(|s: Segment| s@),
            map_uri: (match &cur_map {
                Some(u) => Some(u@),
                None => None,
            }),
            pending_ms: pending_ms,
            fault: None,
        };
        let m = lines[i].len();
        proof {
            assert(ls.skip(i as int)[0] == ls[i as int]);
            assert(ls.skip(i as int).drop_first() =~= ls.skip(i + 1));
            assert(lines@[i as int]@.subrange(0, m as int) =~= ls[i as int]);
        }
        if prefix_matches(&lines[i], 0, m, "#EXTINF:") {
            match duration_value(&lines[i]) {
                Some(d) => {
                    pending_ms = Some(d);
                },
                None => {
                    proof {
                        let faulted = MediaAcc {
                            segments: acc.segments,
                            map_uri: acc.map_uri,
                            pending_ms: acc.pending_ms,
                            fault: Some(ParseReason::InvalidDuration),
                        };
                        assert(media_step(acc, ls[i as int]) == faulted);
                        lemma_media_fold_fault(ls.skip(i + 1), faulted);
                    }
                    return Err(StreamError::ParseError { reason: ParseReason::InvalidDuration });
                },
            }
        } else if prefix_matches(&lines[i], 0, m, "#EXT-X-MAP:") {
            match find_quoted_uri_exec(&lines[i]) {
                Some(ab) => {
                    let sp = spans[i];
                    proof {
                        assert(ls[i as int].subrange(ab.0 as int, ab.1 as int) =~= text@.subrange(
                            sp.0 + ab.0,
                            sp.0 + ab.1,
                        ));
                    }
                    let u = text.substring_char(sp.0 + ab.0, sp.0 + ab.1).to_owned();
                    cur_map = Some(u);
                },
                None => {
                    proof {
                        let faulted = MediaAcc {
                            segments: acc.segments,
                            map_uri: acc.map_uri,
                            pending_ms: acc.pending_ms,
                            fault: Some(ParseReason::InvalidMap),
                        };
                        assert(media_step(acc, ls[i as int]) == faulted);
                        lemma_media_fold_fault(ls.skip(i + 1), faulted);
                    }
                    return Err(StreamError::ParseError { reason: ParseReason::InvalidMap });
                },
            }
        } else if m > 0 && lines[i][0] != '#' {
            proof {
                assert(is_uri_line(ls[i as int]));
            }
            if pending_ms.is_some() {
                let sp = spans[i];
                let uri = text.substring_char(sp.0, sp.1).to_owned();
                let d = match pending_ms {
                    Some(d) => d,
                    None => 0,
                };
                let im: Option<InitSegmentRef> = match &cur_map {
                    Some(u) => Some(InitSegmentRef { uri: u.clone() }),
                    None => None,
                };
                let ghost old_ss = segments@.map_values(|s: Segment| s@);
                segments.push(Segment { uri, duration_ms: d, init_map: im });
                pending_ms = None;
                proof {
                    assert(segments@.map_values(|s: Segment| s@) =~= old_ss.push(
                        SegmentModel {
                            uri: ls[i as int],
                            duration_ms: acc.pending_ms->0,
                            init_map: acc.map_uri,
                        },
                    ));
                }
            }
        } else {
            proof {
                assert(!is_uri_line(ls[i as int]));
            }
        }
        i = i + 1;
    }
    proof {
        assert(ls.skip(n as int).len() == 0);
    }
    if pending_ms.is_some() {
        Err(StreamError::ParseError { reason: ParseReason::DanglingTag })
    } else {
        Ok(MediaPlaylist { segments })
    }
}

/// Decoder from manifest text to a tagged playlist value.
pub struct PlaylistParser;

impl PlaylistParser {
    /// Decode manifest text. Parsing is pure and side-effect-free; the result
    /// is pinned exactly by `parse_outcome` over the text alone.
    pub fn parse(text: &str) -> (r: Result<Playlist, StreamError>)
        ensures
            r matches Ok(p) ==> parse_outcome(text@) == Ok::<PlaylistModel, ParseReason>(p@),
            r matches Err(e) ==> e matches StreamError::ParseError { reason } && parse_outcome(
                text@,
            ) == Err::<PlaylistModel, ParseReason>(reason),
    {
        let chars = chars_of(text);
        let (lines, spans) = split_trimmed_lines(text, &chars);
        let ghost ls = lines_of(text@);
        if !check_header(&lines, Ghost(ls)) {
            return Err(StreamError::ParseError { reason: ParseReason::Unrecognized });
        }
        if any_line_has_prefix(&lines, "#EXT-X-STREAM-INF:", Ghost(ls)) {
            proof {
                assert(has_master_tag(ls));
            }
            match build_master(text, &lines, &spans, Ghost(ls)) {
                Ok(mp) => Ok(Playlist::Master(mp)),
                Err(e) => Err(e),
            }
        } else {
            let has_extinf = any_line_has_prefix(&lines, "#EXTINF:", Ghost(ls));
            let has_td = any_line_has_prefix(&lines, "#EXT-X-TARGETDURATION", Ghost(ls));
            let has_end = any_line_has_prefix(&lines, "#EXT-X-ENDLIST", Ghost(ls));
            if has_extinf || has_td || has_end {
                proof {
                    assert(has_media_tag(ls));
                }
                match build_media(text, &lines, &spans, Ghost(ls)) {
                    Ok(mp) => Ok(Playlist::Media(mp)),
                    Err(e) => Err(e),
                }
            } else {
                proof {
                    assert(!has_media_tag(ls));
                }
                Err(StreamError::ParseError { reason: ParseReason::Unrecognized })
            }
        }
    }
}

} // verus!
