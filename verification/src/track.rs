//! The per-track record decoded from a `trak` subtree, together with the
//! spec-level model of each decoded field.

use vstd::prelude::*;
use crate::bytes::{be32_at, lossy_of};

verus! {

/// Handler subtype tags (`hdlr` box), as big-endian 32-bit tag values.
pub const SUBTYPE_VIDE: u32 = 0x7669_6465;

pub const SUBTYPE_SOUN: u32 = 0x736F_756E;

pub const SUBTYPE_SUBT: u32 = 0x7375_6274;

pub const SUBTYPE_SBTL: u32 = 0x7362_746C;

pub const SUBTYPE_TEXT: u32 = 0x7465_7874;

/// One track of the container, built while descending into a single `trak`
/// box. The three offsets are absolute byte positions of box payloads,
/// recorded so a later patch pass can overwrite fields without re-parsing;
/// they are valid only against the exact byte sequence they were read from.
pub struct Track {
    pub tkhd_offset: Option<u64>,
    pub stsd_offset: Option<u64>,
    pub mdhd_offset: Option<u64>,
    pub track_id: u32,
    pub default_flag: bool,
    pub forced_flag: bool,
    pub typ: Option<String>,
    pub lang: Option<String>,
}

/// Mathematical model of a [`Track`]: the same fields with text as
/// character sequences.
pub struct TrackView {
    pub tkhd_offset: Option<u64>,
    pub stsd_offset: Option<u64>,
    pub mdhd_offset: Option<u64>,
    pub track_id: u32,
    pub default_flag: bool,
    pub forced_flag: bool,
    pub typ: Option<Seq<char>>,
    pub lang: Option<Seq<char>>,
}

impl View for Track {
    type V = TrackView;

    open spec fn view(&self) -> TrackView {
        TrackView {
            tkhd_offset: self.tkhd_offset,
            stsd_offset: self.stsd_offset,
            mdhd_offset: self.mdhd_offset,
            track_id: self.track_id,
            default_flag: self.default_flag,
            forced_flag: self.forced_flag,
            typ: match self.typ {
                Some(s) => Some(s@),
                None => None,
            },
            lang: match self.lang {
                Some(s) => Some(s@),
                None => None,
            },
        }
    }
}

/// The state of a track record before any leaf box has been decoded.
pub open spec fn empty_track() -> TrackView {
    TrackView {
        tkhd_offset: None,
        stsd_offset: None,
        mdhd_offset: None,
        track_id: 0,
        default_flag: false,
        forced_flag: false,
        typ: None,
        lang: None,
    }
}

impl Track {
    /// A fresh record: no offsets, id zero, both flags clear, no type, no
    /// language.
    pub fn new() -> (t: Track)
        ensures
            t@ == empty_track(),
    {
        Track {
            tkhd_offset: None,
            stsd_offset: None,
            mdhd_offset: None,
            track_id: 0,
            default_flag: false,
            forced_flag: false,
            typ: None,
            lang: None,
        }
    }
}

/// One letter of a packed 15-bit language code: five bits offset by 0x60.
pub open spec fn lang_letter(bits: int) -> char {
    ((bits % 32 + 0x60) as u8) as char
}

/// The decoded language of a packed `mdhd` code: absent for the packed
/// value zero, otherwise three letters from the three 5-bit groups.
pub open spec fn decode_lang_view(packed: u16) -> Option<Seq<char>> {
    if packed == 0 {
        None
    } else {
        Some(
            seq![
                lang_letter(packed as int / 1024),
                lang_letter(packed as int / 32),
                lang_letter(packed as int),
            ],
        )
    }
}

/// Bytes that form valid UTF-8 decode to exactly the characters they
/// encode; in particular a sequence of bytes below 0x80 decodes to itself,
/// character for character.
pub proof fn lemma_ascii_decode(s: Seq<u8>)
    requires
        forall|i: int| 0 <= i < s.len() ==> s[i] < 0x80,
    ensures
        vstd::utf8::valid_utf8(s),
        vstd::utf8::decode_utf8(s) == s.map(|i: int, b: u8| b as char),
    decreases s.len(),
{
    if s.len() == 0 {
        assert(vstd::utf8::decode_utf8(s) =~= s.map(|i: int, b: u8| b as char));
    } else {
        let b = s[0];
        assert(b & 0x7F == b) by (bit_vector)
            requires
                b < 0x80,
        ;
        assert(vstd::utf8::valid_first_scalar(s));
        assert(vstd::utf8::length_of_first_scalar(s) == 1);
        let rest = s.subrange(1, s.len() as int);
        assert(vstd::utf8::pop_first_scalar(s) =~= rest);
        lemma_ascii_decode(rest);
        assert(vstd::utf8::decode_utf8(s) =~= s.map(|i: int, b: u8| b as char));
    }
}

/// Decode a packed `mdhd` language code to its three-letter lowercase form;
/// the packed value zero means "no language" and decodes to absent.
pub fn decode_mp4_language(packed: u16) -> (r: Option<String>)
    ensures
        decode_lang_view(packed) is None ==> r is None,
        decode_lang_view(packed) matches Some(v) ==> (r matches Some(s) && s@ == v),
{
    if packed == 0 {
        None
    } else {
        let a = (packed / 1024 % 32 + 0x60) as u8;
        let b = (packed / 32 % 32 + 0x60) as u8;
        let c = (packed % 32 + 0x60) as u8;
        let raw = vec![a, b, c];
        let s = crate::bytes::utf8_lossy(&raw);
        proof {
            lemma_ascii_decode(raw@);
            assert(s@ =~= decode_lang_view(packed)->Some_0);
        }
        Some(s)
    }
}

/// The semantic track type for a handler subtype found at `sp` in `d`:
/// `video`, `audio` or `subtitle` for the recognized tags, otherwise the
/// raw subtype text.
pub open spec fn track_type_of(d: Seq<u8>, sp: int) -> Seq<char> {
    let sub = be32_at(d, sp);
    if sub == SUBTYPE_VIDE {
        "video"@
    } else if sub == SUBTYPE_SOUN {
        "audio"@
    } else if sub == SUBTYPE_SUBT || sub == SUBTYPE_SBTL || sub == SUBTYPE_TEXT {
        "subtitle"@
    } else {
        lossy_of(d.subrange(sp, sp + 4))
    }
}

/// ASCII lowercasing of a single byte; other bytes are left alone.
pub open spec fn ascii_lower(b: u8) -> u8 {
    if 0x41 <= b && b <= 0x5A {
        (b + 0x20) as u8
    } else {
        b
    }
}

/// The forced-track heuristic: the four-byte sample entry type, lowercased,
/// contains the substring `fcd`. This is a non-standard convention, not an
/// ISO/IEC 14496-12 field; within four bytes the substring can only start
/// at the first or second byte.
pub open spec fn is_forced_entry(t0: u8, t1: u8, t2: u8, t3: u8) -> bool {
    ||| (ascii_lower(t0) == 0x66 && ascii_lower(t1) == 0x63 && ascii_lower(t2) == 0x64)
    ||| (ascii_lower(t1) == 0x66 && ascii_lower(t2) == 0x63 && ascii_lower(t3) == 0x64)
}

/// ASCII lowercasing, executable form.
pub fn lower_byte(b: u8) -> (r: u8)
    ensures
        r == ascii_lower(b),
{
    if 0x41 <= b && b <= 0x5A {
        b + 0x20
    } else {
        b
    }
}

/// Apply the forced-track heuristic to a four-byte sample entry type.
pub fn entry_type_is_forced(t0: u8, t1: u8, t2: u8, t3: u8) -> (r: bool)
    ensures
        r == is_forced_entry(t0, t1, t2, t3),
{
    let l0 = lower_byte(t0);
    let l1 = lower_byte(t1);
    let l2 = lower_byte(t2);
    let l3 = lower_byte(t3);
    (l0 == 0x66 && l1 == 0x63 && l2 == 0x64) || (l1 == 0x66 && l2 == 0x63 && l3 == 0x64)
}

} // verus!
