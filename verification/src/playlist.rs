use vstd::prelude::*;

verus! {

/// Reference to an initialization segment declared by `#EXT-X-MAP`.
pub struct InitSegmentRef {
    pub uri: String,
}

impl View for InitSegmentRef {
    type V = Seq<char>;

    open spec fn view(&self) -> Seq<char> {
        self.uri@
    }
}

/// Mathematical model of a variant: its URI text and declared bandwidth.
pub struct VariantModel {
    pub uri: Seq<char>,
    pub bandwidth: Option<u64>,
}

/// One selectable rendition listed by a master playlist.
pub struct Variant {
    pub uri: String,
    pub bandwidth: Option<u64>,
}

impl View for Variant {
    type V = VariantModel;

    open spec fn view(&self) -> VariantModel {
        VariantModel { uri: self.uri@, bandwidth: self.bandwidth }
    }
}

impl Clone for Variant {
    fn clone(&self) -> (r: Self)
        ensures
            r@ == self@,
    {
        Variant { uri: self.uri.clone(), bandwidth: self.bandwidth }
    }
}

/// Mathematical model of a media segment. The duration is the `#EXTINF`
/// value in milliseconds.
pub struct SegmentModel {
    pub uri: Seq<char>,
    pub duration_ms: u64,
    pub init_map: Option<Seq<char>>,
}

/// One fetchable media chunk listed by a media playlist.
pub struct Segment {
    pub uri: String,
    /// `#EXTINF` duration in milliseconds (the manifest writes decimal seconds).
    pub duration_ms: u64,
    /// Initialization map in effect for this segment, if one was declared.
    pub init_map: Option<InitSegmentRef>,
}

impl View for Segment {
    type V = SegmentModel;

    open spec fn view(&self) -> SegmentModel {
        SegmentModel {
            uri: self.uri@,
            duration_ms: self.duration_ms,
            init_map: match self.init_map {
                Some(m) => Some(m.uri@),
                None => None,
            },
        }
    }
}

/// The models of a variant list.
pub open spec fn variant_views(vs: Seq<Variant>) -> Seq<VariantModel> {
    vs.map_values(|v: Variant| v@)
}

/// The renditions listed by a master playlist, in source order.
pub struct MasterPlaylist {
    pub variants: Vec<Variant>,
}

impl View for MasterPlaylist {
    type V = Seq<VariantModel>;

    open spec fn view(&self) -> Seq<VariantModel> {
        variant_views(self.variants@)
    }
}

/// The ordered segments composing one rendition.
pub struct MediaPlaylist {
    pub segments: Vec<Segment>,
}

impl View for MediaPlaylist {
    type V = Seq<SegmentModel>;

    open spec fn view(&self) -> Seq<SegmentModel> {
        self.segments@.map_values(|s: Segment| s@)
    }
}

/// Mathematical model of a parsed playlist.
pub enum PlaylistModel {
    Master { variants: Seq<VariantModel> },
    Media { segments: Seq<SegmentModel> },
}

/// Tagged union of the two manifest kinds. Exactly one tag is active, decided
/// solely by the manifest text.
pub enum Playlist {
    Master(MasterPlaylist),
    Media(MediaPlaylist),
}

impl View for Playlist {
    type V = PlaylistModel;

    open spec fn view(&self) -> PlaylistModel {
        match self {
            Playlist::Master(m) => PlaylistModel::Master { variants: m@ },
            Playlist::Media(m) => PlaylistModel::Media { segments: m@ },
        }
    }
}

} // verus!
