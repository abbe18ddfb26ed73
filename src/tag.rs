//! The closed vocabulary of metadata values ("tags") and the fixed mapping
//! from each tag to the atom type that carries it.

use crate::bytes::{
    be_u32, i32s_bytes, push_all, push_i32s, push_u16s, push_u32, push_u32s, push_u64, push_u64s,
    u16s_bytes, u16s_from_be, u32_bytes, u32s_bytes, u32s_from_be, u64_bytes, u64s_bytes, Endian,
};
use crate::fourcc::{
    AART, ALB, ART, AVCCONFIG, CMT, COVR, CPIL, DAY, DISK, ESDS, GEN, GNRE, GRP, LYR, MDHD, MVHD,
    NAM, PIXELASPECT, STSD, TKHD, TMPO, TRKN, WRT,
};
use vstd::prelude::*;
use vstd::utf8::{decode_utf8, decode_utf8_encode_utf8, encode_utf8, valid_utf8};

verus! {

pub type VINT8U = Vec<u8>;

pub type VSTRING = String;

pub type VINT16U = Vec<u16>;

pub type VINT32U = Vec<u32>;

pub type VINT64U = Vec<u64>;

/// 32-bit floating-point values, each held as its IEEE-754 bit pattern.
pub type VFLOAT = Vec<u32>;

/// 64-bit floating-point values, each held as its IEEE-754 bit pattern.
pub type VDOUBLE = Vec<u64>;

/// A FourCC code such as 'mp4v' or 'avc1'.
pub type VFOURCC = u32;

/// 3x3 transformation matrix of 32-bit fixed-point cells, row by row.
pub type VMATRIX = [i32; 9];

pub type VTIMESTAMP = u64;

pub type VBINARY = Vec<u8>;

/// A metadata value together with its semantic kind.
#[derive(PartialEq, Debug, Clone)]
pub enum VideoTag {
    /// Movie duration in time units
    Duration(VINT64U),
    /// Video width in pixels
    Width(VINT32U),
    /// Video height in pixels
    Height(VINT32U),
    /// Time scale (units per second)
    Timescale(VINT32U),
    /// Video codec FourCC (e.g. 'avc1', 'hvc1')
    VideoCodec(VFOURCC),
    /// Audio codec FourCC (e.g. 'mp4a')
    AudioCodec(VFOURCC),
    /// Average bitrate
    Bitrate(VINT32U),
    /// Frames per second
    Framerate(VFLOAT),
    /// 3x3 transformation matrix for rotation/scaling
    TransformMatrix(VMATRIX),
    /// Pixel aspect ratio
    PixelAspectRatio(VINT32U),
    /// Title
    Title(VSTRING),
    /// Artist/performer
    Artist(VSTRING),
    /// Album name
    Album(VSTRING),
    /// Album artist
    AlbumArtist(VSTRING),
    /// Composer
    Composer(VSTRING),
    /// Genre as text
    Genre(VSTRING),
    /// Genre as ID3v1 number
    GenreID(VINT16U),
    /// Release date (YYYY-MM-DD)
    ReleaseDate(VSTRING),
    /// Comment/description
    Comment(VSTRING),
    /// Grouping
    Grouping(VSTRING),
    /// Lyrics
    Lyrics(VSTRING),
    /// Track number and total tracks
    TrackNumber(VINT32U),
    /// Disc number and total discs
    DiscNumber(VINT32U),
    /// Compilation flag (0 or 1)
    Compilation(VINT8U),
    /// Beats per minute
    Tempo(VINT16U),
    /// Creation time
    CreationTime(VTIMESTAMP),
    /// Modification time
    ModificationTime(VTIMESTAMP),
    /// Video codec configuration (avcC, hvcC, ...)
    VideoCodecConfig(VBINARY),
    /// Audio codec configuration (esds, ...)
    AudioCodecConfig(VBINARY),
    /// Artwork/thumbnail
    CoverArt(VBINARY),
    // Values of atoms the catalog does not model, with their atom type
    UnknownVINT8U(VINT8U, u32),
    UnknownVSTRING(VSTRING, u32),
    UnknownVINT16U(VINT16U, u32),
    UnknownVINT32U(VINT32U, u32),
    UnknownVINT64U(VINT64U, u32),
    UnknownVFLOAT(VFLOAT, u32),
    UnknownVDOUBLE(VDOUBLE, u32),
    UnknownVFOURCC(VFOURCC, u32),
    UnknownVMATRIX(VMATRIX, u32),
    UnknownVTIMESTAMP(VTIMESTAMP, u32),
    UnknownVBINARY(VBINARY, u32),
}

/// The text that `String::from_utf8_lossy` makes of `b`.
pub uninterp spec fn lossy_text(b: Seq<u8>) -> Seq<char>;

/// Relies on `String::from_utf8_lossy`: its text depends on the bytes alone,
/// and bytes that are valid UTF-8 are decoded as they are.
#[verifier::external_body]
fn text_from_bytes(b: &[u8]) -> (r: String)
    ensures
        r@ == lossy_text(b@),
        valid_utf8(b@) ==> r@ == decode_utf8(b@),
{
    String::from_utf8_lossy(b).into_owned()
}

/// Relies on `String::from_utf8`: it succeeds exactly on valid UTF-8, and
/// then holds the decoded text.
#[verifier::external_body]
fn text_from_utf8(b: &[u8]) -> (r: Option<String>)
    ensures
        r is Some <==> valid_utf8(b@),
        r matches Some(s) ==> s@ == decode_utf8(b@),
{
    String::from_utf8(b.to_vec()).ok()
}

/// Item-list codes whose value is text.
pub open spec fn is_text_code(code: u32) -> bool {
    code == NAM || code == ART || code == ALB || code == AART || code == WRT || code == GEN
        || code == DAY || code == CMT || code == GRP || code == LYR
}

/// The kind of tag that an item-list entry of type `code` with value `v`
/// becomes: text entries holding valid UTF-8, genre ids and tempos of whole
/// 16-bit values, track and disc numbers of whole 32-bit values,
/// compilation flags and cover art take their catalog kind; anything else
/// stays binary data of its type.
pub open spec fn item_kind_matches(code: u32, v: Seq<u8>, r: VideoTag) -> bool {
    if is_text_code(code) && valid_utf8(v) {
        if code == NAM {
            r is Title
        } else if code == ART {
            r is Artist
        } else if code == ALB {
            r is Album
        } else if code == AART {
            r is AlbumArtist
        } else if code == WRT {
            r is Composer
        } else if code == GEN {
            r is Genre
        } else if code == DAY {
            r is ReleaseDate
        } else if code == CMT {
            r is Comment
        } else if code == GRP {
            r is Grouping
        } else {
            r is Lyrics
        }
    } else if code == GNRE && v.len() % 2 == 0 {
        r is GenreID
    } else if code == TMPO && v.len() % 2 == 0 {
        r is Tempo
    } else if code == TRKN && v.len() % 4 == 0 {
        r is TrackNumber
    } else if code == DISK && v.len() % 4 == 0 {
        r is DiscNumber
    } else if code == CPIL {
        r is Compilation
    } else if code == COVR {
        r is CoverArt
    } else {
        r is UnknownVBINARY
    }
}

/// How a FourCC code is shown: its four bytes as text, where a leading
/// 0xA9 byte stands for the copyright sign.
pub open spec fn fourcc_text(code: u32) -> Seq<char> {
    let b = be_u32(code);
    if b[0] == 0xA9 {
        seq!['\u{A9}'] + lossy_text(b.subrange(1, 4))
    } else {
        lossy_text(b)
    }
}

impl VideoTag {
    /// The atom type that carries this tag.
    pub open spec fn spec_atom_type(&self) -> u32 {
        match *self {
            VideoTag::Duration(_) => MVHD,
            VideoTag::Width(_) => TKHD,
            VideoTag::Height(_) => TKHD,
            VideoTag::Timescale(_) => MVHD,
            VideoTag::VideoCodec(_) => STSD,
            VideoTag::AudioCodec(_) => STSD,
            VideoTag::Bitrate(_) => STSD,
            VideoTag::Framerate(_) => MDHD,
            VideoTag::TransformMatrix(_) => TKHD,
            VideoTag::PixelAspectRatio(_) => PIXELASPECT,
            VideoTag::Title(_) => NAM,
            VideoTag::Artist(_) => ART,
            VideoTag::Album(_) => ALB,
            VideoTag::AlbumArtist(_) => AART,
            VideoTag::Composer(_) => WRT,
            VideoTag::Genre(_) => GEN,
            VideoTag::GenreID(_) => GNRE,
            VideoTag::ReleaseDate(_) => DAY,
            VideoTag::Comment(_) => CMT,
            VideoTag::Grouping(_) => GRP,
            VideoTag::Lyrics(_) => LYR,
            VideoTag::TrackNumber(_) => TRKN,
            VideoTag::DiscNumber(_) => DISK,
            VideoTag::Compilation(_) => CPIL,
            VideoTag::Tempo(_) => TMPO,
            VideoTag::CreationTime(_) => MVHD,
            VideoTag::ModificationTime(_) => MVHD,
            VideoTag::VideoCodecConfig(_) => AVCCONFIG,
            VideoTag::AudioCodecConfig(_) => ESDS,
            VideoTag::CoverArt(_) => COVR,
            VideoTag::UnknownVINT8U(_, id) => id,
            VideoTag::UnknownVSTRING(_, id) => id,
            VideoTag::UnknownVINT16U(_, id) => id,
            VideoTag::UnknownVINT32U(_, id) => id,
            VideoTag::UnknownVINT64U(_, id) => id,
            VideoTag::UnknownVFLOAT(_, id) => id,
            VideoTag::UnknownVDOUBLE(_, id) => id,
            VideoTag::UnknownVFOURCC(_, id) => id,
            VideoTag::UnknownVMATRIX(_, id) => id,
            VideoTag::UnknownVTIMESTAMP(_, id) => id,
            VideoTag::UnknownVBINARY(_, id) => id,
        }
    }

    /// The semantic kind of this tag, as the position of its variant.
    pub open spec fn spec_kind(&self) -> u8 {
        match *self {
            VideoTag::Duration(..) => 0,
            VideoTag::Width(..) => 1,
            VideoTag::Height(..) => 2,
            VideoTag::Timescale(..) => 3,
            VideoTag::VideoCodec(..) => 4,
            VideoTag::AudioCodec(..) => 5,
            VideoTag::Bitrate(..) => 6,
            VideoTag::Framerate(..) => 7,
            VideoTag::TransformMatrix(..) => 8,
            VideoTag::PixelAspectRatio(..) => 9,
            VideoTag::Title(..) => 10,
            VideoTag::Artist(..) => 11,
            VideoTag::Album(..) => 12,
            VideoTag::AlbumArtist(..) => 13,
            VideoTag::Composer(..) => 14,
            VideoTag::Genre(..) => 15,
            VideoTag::GenreID(..) => 16,
            VideoTag::ReleaseDate(..) => 17,
            VideoTag::Comment(..) => 18,
            VideoTag::Grouping(..) => 19,
            VideoTag::Lyrics(..) => 20,
            VideoTag::TrackNumber(..) => 21,
            VideoTag::DiscNumber(..) => 22,
            VideoTag::Compilation(..) => 23,
            VideoTag::Tempo(..) => 24,
            VideoTag::CreationTime(..) => 25,
            VideoTag::ModificationTime(..) => 26,
            VideoTag::VideoCodecConfig(..) => 27,
            VideoTag::AudioCodecConfig(..) => 28,
            VideoTag::CoverArt(..) => 29,
            VideoTag::UnknownVINT8U(..) => 30,
            VideoTag::UnknownVSTRING(..) => 31,
            VideoTag::UnknownVINT16U(..) => 32,
            VideoTag::UnknownVINT32U(..) => 33,
            VideoTag::UnknownVINT64U(..) => 34,
            VideoTag::UnknownVFLOAT(..) => 35,
            VideoTag::UnknownVDOUBLE(..) => 36,
            VideoTag::UnknownVFOURCC(..) => 37,
            VideoTag::UnknownVMATRIX(..) => 38,
            VideoTag::UnknownVTIMESTAMP(..) => 39,
            VideoTag::UnknownVBINARY(..) => 40,
        }
    }

    /// Two tags have the same identity when they are of the same kind and
    /// belong to the same atom type.
    pub open spec fn same_identity(&self, other: VideoTag) -> bool {
        self.spec_kind() == other.spec_kind() && self.spec_atom_type() == other.spec_atom_type()
    }

    /// Duration, width, height and timescale are essential; nothing else is.
    pub open spec fn spec_is_essential(&self) -> bool {
        match *self {
            VideoTag::Duration(_) | VideoTag::Width(_) | VideoTag::Height(_)
            | VideoTag::Timescale(_) => true,
            _ => false,
        }
    }

    /// The encoding of the tag's value in byte order `e`.
    pub open spec fn spec_value_bytes(&self, e: Endian) -> Seq<u8> {
        match self {
            VideoTag::Duration(v) => u64s_bytes(v@, e),
            VideoTag::Width(v) => u32s_bytes(v@, e),
            VideoTag::Height(v) => u32s_bytes(v@, e),
            VideoTag::Timescale(v) => u32s_bytes(v@, e),
            VideoTag::VideoCodec(v) => u32_bytes(*v, e),
            VideoTag::AudioCodec(v) => u32_bytes(*v, e),
            VideoTag::Bitrate(v) => u32s_bytes(v@, e),
            VideoTag::Framerate(v) => u32s_bytes(v@, e),
            VideoTag::TransformMatrix(v) => i32s_bytes(v@, e),
            VideoTag::PixelAspectRatio(v) => u32s_bytes(v@, e),
            VideoTag::Title(v) => encode_utf8(v@),
            VideoTag::Artist(v) => encode_utf8(v@),
            VideoTag::Album(v) => encode_utf8(v@),
            VideoTag::AlbumArtist(v) => encode_utf8(v@),
            VideoTag::Composer(v) => encode_utf8(v@),
            VideoTag::Genre(v) => encode_utf8(v@),
            VideoTag::GenreID(v) => u16s_bytes(v@, e),
            VideoTag::ReleaseDate(v) => encode_utf8(v@),
            VideoTag::Comment(v) => encode_utf8(v@),
            VideoTag::Grouping(v) => encode_utf8(v@),
            VideoTag::Lyrics(v) => encode_utf8(v@),
            VideoTag::TrackNumber(v) => u32s_bytes(v@, e),
            VideoTag::DiscNumber(v) => u32s_bytes(v@, e),
            VideoTag::Compilation(v) => v@,
            VideoTag::Tempo(v) => u16s_bytes(v@, e),
            VideoTag::CreationTime(v) => u64_bytes(*v, e),
            VideoTag::ModificationTime(v) => u64_bytes(*v, e),
            VideoTag::VideoCodecConfig(v) => v@,
            VideoTag::AudioCodecConfig(v) => v@,
            VideoTag::CoverArt(v) => v@,
            VideoTag::UnknownVINT8U(v, _) => v@,
            VideoTag::UnknownVSTRING(v, _) => encode_utf8(v@),
            VideoTag::UnknownVINT16U(v, _) => u16s_bytes(v@, e),
            VideoTag::UnknownVINT32U(v, _) => u32s_bytes(v@, e),
            VideoTag::UnknownVINT64U(v, _) => u64s_bytes(v@, e),
            VideoTag::UnknownVFLOAT(v, _) => u32s_bytes(v@, e),
            VideoTag::UnknownVDOUBLE(v, _) => u64s_bytes(v@, e),
            VideoTag::UnknownVFOURCC(v, _) => u32_bytes(*v, e),
            VideoTag::UnknownVMATRIX(v, _) => i32s_bytes(v@, e),
            VideoTag::UnknownVTIMESTAMP(v, _) => u64_bytes(*v, e),
            VideoTag::UnknownVBINARY(v, _) => v@,
        }
    }

    /// The tag that an item-list entry of type `code` with value bytes
    /// `value` stands for; its encoding gives back exactly those bytes.
    pub fn from_item(code: u32, value: Vec<u8>) -> (r: VideoTag)
        ensures
            r.spec_atom_type() == code,
            r.spec_value_bytes(Endian::Big) == value@,
            item_kind_matches(code, value@, r),
    {
        if code == NAM || code == ART || code == ALB || code == AART || code == WRT || code == GEN
            || code == DAY || code == CMT || code == GRP || code == LYR {
            match text_from_utf8(value.as_slice()) {
                Some(text) => {
                    proof {
                        decode_utf8_encode_utf8(value@);
                    }
                    if code == NAM {
                        VideoTag::Title(text)
                    } else if code == ART {
                        VideoTag::Artist(text)
                    } else if code == ALB {
                        VideoTag::Album(text)
                    } else if code == AART {
                        VideoTag::AlbumArtist(text)
                    } else if code == WRT {
                        VideoTag::Composer(text)
                    } else if code == GEN {
                        VideoTag::Genre(text)
                    } else if code == DAY {
                        VideoTag::ReleaseDate(text)
                    } else if code == CMT {
                        VideoTag::Comment(text)
                    } else if code == GRP {
                        VideoTag::Grouping(text)
                    } else {
                        VideoTag::Lyrics(text)
                    }
                },
                None => VideoTag::UnknownVBINARY(value, code),
            }
        } else if code == GNRE && value.len() % 2 == 0 {
            VideoTag::GenreID(u16s_from_be(value.as_slice()))
        } else if code == TMPO && value.len() % 2 == 0 {
            VideoTag::Tempo(u16s_from_be(value.as_slice()))
        } else if code == TRKN && value.len() % 4 == 0 {
            VideoTag::TrackNumber(u32s_from_be(value.as_slice()))
        } else if code == DISK && value.len() % 4 == 0 {
            VideoTag::DiscNumber(u32s_from_be(value.as_slice()))
        } else if code == CPIL {
            VideoTag::Compilation(value)
        } else if code == COVR {
            VideoTag::CoverArt(value)
        } else {
            VideoTag::UnknownVBINARY(value, code)
        }
    }

    /// Gets the FourCC atom type that carries this tag.
    pub fn as_u32(&self) -> (r: u32)
        ensures
            r == self.spec_atom_type(),
    {
        match *self {
            VideoTag::Duration(_) => MVHD,
            VideoTag::Width(_) => TKHD,
            VideoTag::Height(_) => TKHD,
            VideoTag::Timescale(_) => MVHD,
            VideoTag::VideoCodec(_) => STSD,
            VideoTag::AudioCodec(_) => STSD,
            VideoTag::Bitrate(_) => STSD,
            VideoTag::Framerate(_) => MDHD,
            VideoTag::TransformMatrix(_) => TKHD,
            VideoTag::PixelAspectRatio(_) => PIXELASPECT,
            VideoTag::Title(_) => NAM,
            VideoTag::Artist(_) => ART,
            VideoTag::Album(_) => ALB,
            VideoTag::AlbumArtist(_) => AART,
            VideoTag::Composer(_) => WRT,
            VideoTag::Genre(_) => GEN,
            VideoTag::GenreID(_) => GNRE,
            VideoTag::ReleaseDate(_) => DAY,
            VideoTag::Comment(_) => CMT,
            VideoTag::Grouping(_) => GRP,
            VideoTag::Lyrics(_) => LYR,
            VideoTag::TrackNumber(_) => TRKN,
            VideoTag::DiscNumber(_) => DISK,
            VideoTag::Compilation(_) => CPIL,
            VideoTag::Tempo(_) => TMPO,
            VideoTag::CreationTime(_) => MVHD,
            VideoTag::ModificationTime(_) => MVHD,
            VideoTag::VideoCodecConfig(_) => AVCCONFIG,
            VideoTag::AudioCodecConfig(_) => ESDS,
            VideoTag::CoverArt(_) => COVR,
            VideoTag::UnknownVINT8U(_, id) => id,
            VideoTag::UnknownVSTRING(_, id) => id,
            VideoTag::UnknownVINT16U(_, id) => id,
            VideoTag::UnknownVINT32U(_, id) => id,
            VideoTag::UnknownVINT64U(_, id) => id,
            VideoTag::UnknownVFLOAT(_, id) => id,
            VideoTag::UnknownVDOUBLE(_, id) => id,
            VideoTag::UnknownVFOURCC(_, id) => id,
            VideoTag::UnknownVMATRIX(_, id) => id,
            VideoTag::UnknownVTIMESTAMP(_, id) => id,
            VideoTag::UnknownVBINARY(_, id) => id,
        }
    }

    /// The semantic kind of this tag.
    pub fn kind(&self) -> (r: u8)
        ensures
            r == self.spec_kind(),
    {
        match *self {
            VideoTag::Duration(..) => 0,
            VideoTag::Width(..) => 1,
            VideoTag::Height(..) => 2,
            VideoTag::Timescale(..) => 3,
            VideoTag::VideoCodec(..) => 4,
            VideoTag::AudioCodec(..) => 5,
            VideoTag::Bitrate(..) => 6,
            VideoTag::Framerate(..) => 7,
            VideoTag::TransformMatrix(..) => 8,
            VideoTag::PixelAspectRatio(..) => 9,
            VideoTag::Title(..) => 10,
            VideoTag::Artist(..) => 11,
            VideoTag::Album(..) => 12,
            VideoTag::AlbumArtist(..) => 13,
            VideoTag::Composer(..) => 14,
            VideoTag::Genre(..) => 15,
            VideoTag::GenreID(..) => 16,
            VideoTag::ReleaseDate(..) => 17,
            VideoTag::Comment(..) => 18,
            VideoTag::Grouping(..) => 19,
            VideoTag::Lyrics(..) => 20,
            VideoTag::TrackNumber(..) => 21,
            VideoTag::DiscNumber(..) => 22,
            VideoTag::Compilation(..) => 23,
            VideoTag::Tempo(..) => 24,
            VideoTag::CreationTime(..) => 25,
            VideoTag::ModificationTime(..) => 26,
            VideoTag::VideoCodecConfig(..) => 27,
            VideoTag::AudioCodecConfig(..) => 28,
            VideoTag::CoverArt(..) => 29,
            VideoTag::UnknownVINT8U(..) => 30,
            VideoTag::UnknownVSTRING(..) => 31,
            VideoTag::UnknownVINT16U(..) => 32,
            VideoTag::UnknownVINT32U(..) => 33,
            VideoTag::UnknownVINT64U(..) => 34,
            VideoTag::UnknownVFLOAT(..) => 35,
            VideoTag::UnknownVDOUBLE(..) => 36,
            VideoTag::UnknownVFOURCC(..) => 37,
            VideoTag::UnknownVMATRIX(..) => 38,
            VideoTag::UnknownVTIMESTAMP(..) => 39,
            VideoTag::UnknownVBINARY(..) => 40,
        }
    }

    /// Whether `self` and `other` have the same identity.
    pub fn has_same_identity(&self, other: &VideoTag) -> (r: bool)
        ensures
            r == self.same_identity(*other),
    {
        self.kind() == other.kind() && self.as_u32() == other.as_u32()
    }

    /// The atom type as text, for diagnostics.
    pub fn fourcc_as_string(&self) -> (r: String)
        ensures
            r@ == fourcc_text(self.spec_atom_type()),
    {
        let code = self.as_u32();
        let mut b: Vec<u8> = Vec::new();
        push_u32(&mut b, code, Endian::Big);
        if b[0] == 0xA9 {
            let rest = vec![b[1], b[2], b[3]];
            assert(rest@ =~= be_u32(code).subrange(1, 4));
            let prefix = String::from_str("\u{A9}");
            proof {
                reveal_strlit("\u{A9}");
            }
            let r = prefix.concat(text_from_bytes(rest.as_slice()).as_str());
            assert(r@ =~= fourcc_text(code));
            r
        } else {
            assert(b@ =~= be_u32(code));
            text_from_bytes(b.as_slice())
        }
    }

    /// The encoding of the tag's value in byte order `endian`; binary values
    /// are copied as they are.
    pub fn value_as_u8_vec(&self, endian: &Endian) -> (r: Vec<u8>)
        ensures
            r@ == self.spec_value_bytes(*endian),
    {
        let e = *endian;
        let mut out: Vec<u8> = Vec::new();
        match self {
            VideoTag::Duration(v) => push_u64s(&mut out, v, e),
            VideoTag::Width(v) => push_u32s(&mut out, v, e),
            VideoTag::Height(v) => push_u32s(&mut out, v, e),
            VideoTag::Timescale(v) => push_u32s(&mut out, v, e),
            VideoTag::VideoCodec(v) => push_u32(&mut out, *v, e),
            VideoTag::AudioCodec(v) => push_u32(&mut out, *v, e),
            VideoTag::Bitrate(v) => push_u32s(&mut out, v, e),
            VideoTag::Framerate(v) => push_u32s(&mut out, v, e),
            VideoTag::TransformMatrix(v) => push_i32s(&mut out, v, e),
            VideoTag::PixelAspectRatio(v) => push_u32s(&mut out, v, e),
            VideoTag::Title(v) => push_all(&mut out, v.as_str().as_bytes()),
            VideoTag::Artist(v) => push_all(&mut out, v.as_str().as_bytes()),
            VideoTag::Album(v) => push_all(&mut out, v.as_str().as_bytes()),
            VideoTag::AlbumArtist(v) => push_all(&mut out, v.as_str().as_bytes()),
            VideoTag::Composer(v) => push_all(&mut out, v.as_str().as_bytes()),
            VideoTag::Genre(v) => push_all(&mut out, v.as_str().as_bytes()),
            VideoTag::GenreID(v) => push_u16s(&mut out, v, e),
            VideoTag::ReleaseDate(v) => push_all(&mut out, v.as_str().as_bytes()),
            VideoTag::Comment(v) => push_all(&mut out, v.as_str().as_bytes()),
            VideoTag::Grouping(v) => push_all(&mut out, v.as_str().as_bytes()),
            VideoTag::Lyrics(v) => push_all(&mut out, v.as_str().as_bytes()),
            VideoTag::TrackNumber(v) => push_u32s(&mut out, v, e),
            VideoTag::DiscNumber(v) => push_u32s(&mut out, v, e),
            VideoTag::Compilation(v) => push_all(&mut out, v.as_slice()),
            VideoTag::Tempo(v) => push_u16s(&mut out, v, e),
            VideoTag::CreationTime(v) => push_u64(&mut out, *v, e),
            VideoTag::ModificationTime(v) => push_u64(&mut out, *v, e),
            VideoTag::VideoCodecConfig(v) => push_all(&mut out, v.as_slice()),
            VideoTag::AudioCodecConfig(v) => push_all(&mut out, v.as_slice()),
            VideoTag::CoverArt(v) => push_all(&mut out, v.as_slice()),
            VideoTag::UnknownVINT8U(v, _) => push_all(&mut out, v.as_slice()),
            VideoTag::UnknownVSTRING(v, _) => push_all(&mut out, v.as_str().as_bytes()),
            VideoTag::UnknownVINT16U(v, _) => push_u16s(&mut out, v, e),
            VideoTag::UnknownVINT32U(v, _) => push_u32s(&mut out, v, e),
            VideoTag::UnknownVINT64U(v, _) => push_u64s(&mut out, v, e),
            VideoTag::UnknownVFLOAT(v, _) => push_u32s(&mut out, v, e),
            VideoTag::UnknownVDOUBLE(v, _) => push_u64s(&mut out, v, e),
            VideoTag::UnknownVFOURCC(v, _) => push_u32(&mut out, *v, e),
            VideoTag::UnknownVMATRIX(v, _) => push_i32s(&mut out, v, e),
            VideoTag::UnknownVTIMESTAMP(v, _) => push_u64(&mut out, *v, e),
            VideoTag::UnknownVBINARY(v, _) => push_all(&mut out, v.as_slice()),
        }
        assert(out@ =~= self.spec_value_bytes(e));
        out
    }

    /// Whether the tag is kept when a model is reduced to its essentials.
    pub fn is_essential_tag(&self) -> (r: bool)
        ensures
            r == self.spec_is_essential(),
    {
        match self {
            VideoTag::Duration(_) | VideoTag::Width(_) | VideoTag::Height(_)
            | VideoTag::Timescale(_) => true,
            _ => false,
        }
    }
}

/// The shape of a tag's value.
#[derive(Clone, Copy, Debug, PartialEq, Eq, Structural)]
pub enum VideoTagFormat {
    VINT8U,
    VSTRING,
    VINT16U,
    VINT32U,
    VINT64U,
    VFLOAT,
    VDOUBLE,
    VFOURCC,
    VMATRIX,
    VTIMESTAMP,
    VBINARY,
}

} // verus!
