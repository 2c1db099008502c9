//! The box-tree walker: resolve each box's size and type, descend into the
//! containers of interest (`moov` → `trak` → `mdia` → `minf` → `stbl`),
//! decode the leaf boxes (`tkhd`, `mdhd`, `hdlr`, `stsd`), and skip
//! everything else whole.
//!
//! Each walker is specified against a spec-level scan function over the raw
//! byte sequence; `parse_mp4` ties the whole traversal to
//! [`root_scan_spec`]. A read past the end of the data is a parse failure;
//! a child whose resolved size is below the 8-byte header, or a sibling
//! position that cannot be addressed, ends the current scan quietly, so a
//! truncated trailing box yields the tracks decoded so far.

use vstd::prelude::*;
use vstd::string::StringExecFns;
use crate::bytes::{be16_at, be32_at, be64_at, read_u8, read_u16, read_u32, read_u64, read_type};
use crate::track::{
    Track, TrackView, empty_track, decode_lang_view, decode_mp4_language, track_type_of,
    is_forced_entry, entry_type_is_forced, SUBTYPE_VIDE, SUBTYPE_SOUN, SUBTYPE_SUBT,
    SUBTYPE_SBTL, SUBTYPE_TEXT,
};

verus! {

/// Box type tags of interest, as big-endian 32-bit tag values.
pub const TAG_MOOV: u32 = 0x6D6F_6F76;

pub const TAG_TRAK: u32 = 0x7472_616B;

pub const TAG_TKHD: u32 = 0x746B_6864;

pub const TAG_MDIA: u32 = 0x6D64_6961;

pub const TAG_MDHD: u32 = 0x6D64_6864;

pub const TAG_HDLR: u32 = 0x6864_6C72;

pub const TAG_MINF: u32 = 0x6D69_6E66;

pub const TAG_STBL: u32 = 0x7374_626C;

pub const TAG_STSD: u32 = 0x7374_7364;

/// A parse failure: fewer bytes remained than a required field needed.
#[derive(Clone, Copy, PartialEq, Eq, Structural, Debug)]
pub enum ParseError {
    UnexpectedEof,
}

/// Resolved header of the box starting at `pos` within a container ending
/// at `end`: its total size in bytes and its type tag. A 32-bit size field
/// of 1 means a 64-bit extended size follows the tag; a size field of 0
/// means the box extends to the container's end. `None` when the header
/// bytes lie beyond the data.
pub open spec fn resolve_box_spec(d: Seq<u8>, pos: int, end: int) -> Option<(int, u32)> {
    if pos + 8 > d.len() {
        None
    } else {
        let s = be32_at(d, pos) as int;
        let tag = be32_at(d, pos + 4);
        if s == 1 {
            if pos + 16 > d.len() {
                None
            } else {
                Some((be64_at(d, pos + 8) as int, tag))
            }
        } else if s == 0 {
            Some((end - pos, tag))
        } else {
            Some((s, tag))
        }
    }
}

/// Decoding a `tkhd` box at `pos`: the payload offset is remembered, the
/// default flag is bit 0 of the 3-byte flags field, and the track id
/// follows the version-dependent time fields.
pub open spec fn decode_tkhd_spec(d: Seq<u8>, pos: int, t: TrackView) -> Option<TrackView> {
    let p = pos + 8;
    if p + 4 > d.len() {
        None
    } else {
        let idpos = if d[p] == 1 {
            p + 20
        } else {
            p + 12
        };
        if idpos + 4 > d.len() {
            None
        } else {
            Some(
                TrackView {
                    tkhd_offset: Some(p as u64),
                    default_flag: d[p + 3] % 2 == 1,
                    track_id: be32_at(d, idpos),
                    ..t
                },
            )
        }
    }
}

/// Decoding an `mdhd` box at `pos`: the packed language code sits after the
/// version-dependent time and duration fields.
pub open spec fn decode_mdhd_spec(d: Seq<u8>, pos: int, t: TrackView) -> Option<TrackView> {
    let p = pos + 8;
    if p + 1 > d.len() {
        None
    } else {
        let langpos = if d[p] == 1 {
            p + 32
        } else {
            p + 20
        };
        if langpos + 2 > d.len() {
            None
        } else {
            Some(
                TrackView {
                    mdhd_offset: Some(p as u64),
                    lang: decode_lang_view(be16_at(d, langpos)),
                    ..t
                },
            )
        }
    }
}

/// Decoding an `hdlr` box at `pos`: the handler subtype sits after the
/// version, flags and pre-defined fields and names the semantic track type.
pub open spec fn decode_hdlr_spec(d: Seq<u8>, pos: int, t: TrackView) -> Option<TrackView> {
    if pos + 20 > d.len() {
        None
    } else {
        Some(TrackView { typ: Some(track_type_of(d, pos + 16)), ..t })
    }
}

/// Decoding an `stsd` box at `pos`: the payload offset is remembered and
/// the first sample entry's type drives the forced heuristic. A short
/// sample entry header is not an error: the flag is simply left alone.
pub open spec fn decode_stsd_spec(d: Seq<u8>, pos: int, t: TrackView) -> TrackView {
    let p = pos + 8;
    TrackView {
        stsd_offset: Some(p as u64),
        forced_flag: if p + 16 > d.len() {
            t.forced_flag
        } else {
            is_forced_entry(d[p + 12], d[p + 13], d[p + 14], d[p + 15])
        },
        ..t
    }
}

/// Scan the children of an `stbl` box over `[pos, end)`, decoding `stsd`.
pub open spec fn stbl_children_spec(d: Seq<u8>, pos: int, end: int, t: TrackView) -> Option<
    TrackView,
>
    decreases end - pos,
{
    if pos + 8 > end {
        Some(t)
    } else {
        match resolve_box_spec(d, pos, end) {
            None => None,
            Some((bs, tag)) => {
                let t2 = if tag == TAG_STSD {
                    decode_stsd_spec(d, pos, t)
                } else {
                    t
                };
                if bs < 8 || pos + bs > end {
                    Some(t2)
                } else {
                    stbl_children_spec(d, pos + bs, end, t2)
                }
            },
        }
    }
}

/// Scan the children of a `minf` box, descending into `stbl`. A child
/// container whose end position cannot be addressed stops the scan.
pub open spec fn minf_children_spec(d: Seq<u8>, pos: int, end: int, t: TrackView) -> Option<
    TrackView,
>
    decreases end - pos,
{
    if pos + 8 > end {
        Some(t)
    } else {
        match resolve_box_spec(d, pos, end) {
            None => None,
            Some((bs, tag)) => {
                if tag == TAG_STBL && pos + bs > u64::MAX {
                    Some(t)
                } else {
                    let sub = if tag == TAG_STBL {
                        stbl_children_spec(d, pos + 8, pos + bs, t)
                    } else {
                        Some(t)
                    };
                    match sub {
                        None => None,
                        Some(t2) => {
                            if bs < 8 || pos + bs > end {
                                Some(t2)
                            } else {
                                minf_children_spec(d, pos + bs, end, t2)
                            }
                        },
                    }
                }
            },
        }
    }
}

/// Scan the children of an `mdia` box: decode `mdhd` and `hdlr`, descend
/// into `minf`.
pub open spec fn mdia_children_spec(d: Seq<u8>, pos: int, end: int, t: TrackView) -> Option<
    TrackView,
>
    decreases end - pos,
{
    if pos + 8 > end {
        Some(t)
    } else {
        match resolve_box_spec(d, pos, end) {
            None => None,
            Some((bs, tag)) => {
                if tag == TAG_MINF && pos + bs > u64::MAX {
                    Some(t)
                } else {
                    let sub = if tag == TAG_MDHD {
                        decode_mdhd_spec(d, pos, t)
                    } else if tag == TAG_HDLR {
                        decode_hdlr_spec(d, pos, t)
                    } else if tag == TAG_MINF {
                        minf_children_spec(d, pos + 8, pos + bs, t)
                    } else {
                        Some(t)
                    };
                    match sub {
                        None => None,
                        Some(t2) => {
                            if bs < 8 || pos + bs > end {
                                Some(t2)
                            } else {
                                mdia_children_spec(d, pos + bs, end, t2)
                            }
                        },
                    }
                }
            },
        }
    }
}

/// Scan the children of a `trak` box: decode `tkhd`, descend into `mdia`.
pub open spec fn trak_children_spec(d: Seq<u8>, pos: int, end: int, t: TrackView) -> Option<
    TrackView,
>
    decreases end - pos,
{
    if pos + 8 > end {
        Some(t)
    } else {
        match resolve_box_spec(d, pos, end) {
            None => None,
            Some((bs, tag)) => {
                if tag == TAG_MDIA && pos + bs > u64::MAX {
                    Some(t)
                } else {
                    let sub = if tag == TAG_TKHD {
                        decode_tkhd_spec(d, pos, t)
                    } else if tag == TAG_MDIA {
                        mdia_children_spec(d, pos + 8, pos + bs, t)
                    } else {
                        Some(t)
                    };
                    match sub {
                        None => None,
                        Some(t2) => {
                            if bs < 8 || pos + bs > end {
                                Some(t2)
                            } else {
                                trak_children_spec(d, pos + bs, end, t2)
                            }
                        },
                    }
                }
            },
        }
    }
}

/// Scan the children of a `moov` box: each `trak` child whose decoded track
/// id is non-zero yields one track record, in encounter order.
pub open spec fn moov_children_spec(d: Seq<u8>, pos: int, end: int) -> Option<Seq<TrackView>>
    decreases end - pos,
{
    if pos + 8 > end {
        Some(Seq::empty())
    } else {
        match resolve_box_spec(d, pos, end) {
            None => None,
            Some((bs, tag)) => {
                if tag == TAG_TRAK && pos + bs > u64::MAX {
                    Some(Seq::empty())
                } else {
                    let found: Option<Option<TrackView>> = if tag == TAG_TRAK {
                        match trak_children_spec(d, pos + 8, pos + bs, empty_track()) {
                            None => None,
                            Some(t) => Some(
                                if t.track_id == 0 {
                                    None
                                } else {
                                    Some(t)
                                },
                            ),
                        }
                    } else {
                        Some(None)
                    };
                    match found {
                        None => None,
                        Some(topt) => {
                            let here = match topt {
                                Some(t) => seq![t],
                                None => Seq::empty(),
                            };
                            if bs < 8 || pos + bs > end {
                                Some(here)
                            } else {
                                match moov_children_spec(d, pos + bs, end) {
                                    None => None,
                                    Some(rest) => Some(here + rest),
                                }
                            }
                        },
                    }
                }
            },
        }
    }
}

/// Scan the file's root boxes from `pos`, descending into `moov` and
/// skipping every other root box whole.
pub open spec fn root_scan_spec(d: Seq<u8>, pos: int) -> Option<Seq<TrackView>>
    decreases d.len() - pos,
{
    let end = d.len() as int;
    if pos + 8 > end {
        Some(Seq::empty())
    } else {
        match resolve_box_spec(d, pos, end) {
            None => None,
            Some((bs, tag)) => {
                if tag == TAG_MOOV && pos + bs > u64::MAX {
                    Some(Seq::empty())
                } else {
                    let found = if tag == TAG_MOOV {
                        moov_children_spec(d, pos + 8, pos + bs)
                    } else {
                        Some(Seq::empty())
                    };
                    match found {
                        None => None,
                        Some(ts) => {
                            if bs < 8 || pos + bs > end {
                                Some(ts)
                            } else {
                                match root_scan_spec(d, pos + bs) {
                                    None => None,
                                    Some(rest) => Some(ts + rest),
                                }
                            }
                        },
                    }
                }
            },
        }
    }
}

/// The models of a sequence of track records.
pub open spec fn track_views(s: Seq<Track>) -> Seq<TrackView> {
    s.map_values(|t: Track| t@)
}

/// Read one byte at `base + off`, where the position may not be
/// addressable as a 64-bit value; such a position always lies beyond the
/// data.
fn read_u8_off(data: &Vec<u8>, base: u64, off: u64) -> (r: Option<u8>)
    ensures
        base + off + 1 <= data@.len() ==> r == Some(data@[base + off]),
        base + off + 1 > data@.len() ==> r is None,
{
    let n = data.len();
    proof {
        assert(data@.len() == n <= usize::MAX);
    }
    match base.checked_add(off) {
        Some(p) => read_u8(data, p),
        None => None,
    }
}

/// Read a big-endian 16-bit integer at `base + off`.
fn read_u16_off(data: &Vec<u8>, base: u64, off: u64) -> (r: Option<u16>)
    ensures
        base + off + 2 <= data@.len() ==> r == Some(be16_at(data@, base + off)),
        base + off + 2 > data@.len() ==> r is None,
{
    let n = data.len();
    proof {
        assert(data@.len() == n <= usize::MAX);
    }
    match base.checked_add(off) {
        Some(p) => read_u16(data, p),
        None => None,
    }
}

/// Read a big-endian 32-bit integer at `base + off`.
fn read_u32_off(data: &Vec<u8>, base: u64, off: u64) -> (r: Option<u32>)
    ensures
        base + off + 4 <= data@.len() ==> r == Some(be32_at(data@, base + off)),
        base + off + 4 > data@.len() ==> r is None,
{
    let n = data.len();
    proof {
        assert(data@.len() == n <= usize::MAX);
    }
    match base.checked_add(off) {
        Some(p) => read_u32(data, p),
        None => None,
    }
}

/// Resolve the header of the box at `pos` within a container ending at
/// `end`, per [`resolve_box_spec`].
fn resolve_box(data: &Vec<u8>, pos: u64, end: u64) -> (r: Option<(u64, u32)>)
    requires
        pos + 8 <= end,
    ensures
        match resolve_box_spec(data@, pos as int, end as int) {
            None => r is None,
            Some((bs, tag)) => r matches Some(p) && p.0 == bs && p.1 == tag,
        },
{
    let s32 = match read_u32(data, pos) {
        Some(v) => v,
        None => {
            return None;
        },
    };
    let tag = match read_u32(data, pos + 4) {
        Some(v) => v,
        None => {
            return None;
        },
    };
    if s32 == 1 {
        match read_u64(data, pos + 8) {
            Some(v) => Some((v, tag)),
            None => None,
        }
    } else if s32 == 0 {
        Some((end - pos, tag))
    } else {
        Some((s32 as u64, tag))
    }
}

/// Decode a `tkhd` box at `pos` into `t`; `false` is a parse failure.
fn decode_tkhd(data: &Vec<u8>, pos: u64, t: &mut Track) -> (ok: bool)
    requires
        pos + 8 <= u64::MAX,
    ensures
        match decode_tkhd_spec(data@, pos as int, old(t)@) {
            None => !ok,
            Some(tv) => ok && final(t)@ == tv,
        },
{
    let p = pos + 8;
    t.tkhd_offset = Some(p);
    let version = match read_u8_off(data, p, 0) {
        Some(v) => v,
        None => {
            return false;
        },
    };
    match read_u8_off(data, p, 1) {
        Some(_) => (),
        None => {
            return false;
        },
    };
    match read_u8_off(data, p, 2) {
        Some(_) => (),
        None => {
            return false;
        },
    };
    let f3 = match read_u8_off(data, p, 3) {
        Some(v) => v,
        None => {
            return false;
        },
    };
    t.default_flag = f3 % 2 == 1;
    let id = if version == 1 {
        match read_u32_off(data, p, 20) {
            Some(v) => v,
            None => {
                return false;
            },
        }
    } else {
        match read_u32_off(data, p, 12) {
            Some(v) => v,
            None => {
                return false;
            },
        }
    };
    t.track_id = id;
    true
}

/// Decode an `mdhd` box at `pos` into `t`; `false` is a parse failure.
fn decode_mdhd(data: &Vec<u8>, pos: u64, t: &mut Track) -> (ok: bool)
    requires
        pos + 8 <= u64::MAX,
    ensures
        match decode_mdhd_spec(data@, pos as int, old(t)@) {
            None => !ok,
            Some(tv) => ok && final(t)@ == tv,
        },
{
    let p = pos + 8;
    t.mdhd_offset = Some(p);
    let version = match read_u8_off(data, p, 0) {
        Some(v) => v,
        None => {
            return false;
        },
    };
    let packed = if version == 1 {
        match read_u16_off(data, p, 32) {
            Some(v) => v,
            None => {
                return false;
            },
        }
    } else {
        match read_u16_off(data, p, 20) {
            Some(v) => v,
            None => {
                return false;
            },
        }
    };
    t.lang = decode_mp4_language(packed);
    true
}

/// Decode an `hdlr` box at `pos` into `t`; `false` is a parse failure.
fn decode_hdlr(data: &Vec<u8>, pos: u64, t: &mut Track) -> (ok: bool)
    requires
        pos + 8 <= u64::MAX,
    ensures
        match decode_hdlr_spec(data@, pos as int, old(t)@) {
            None => !ok,
            Some(tv) => ok && final(t)@ == tv,
        },
{
    let n = data.len();
    proof {
        assert(data@.len() == n <= usize::MAX);
    }
    let sub = match read_u32_off(data, pos, 16) {
        Some(v) => v,
        None => {
            return false;
        },
    };
    let typ: String = if sub == SUBTYPE_VIDE {
        String::from_str("video")
    } else if sub == SUBTYPE_SOUN {
        String::from_str("audio")
    } else if sub == SUBTYPE_SUBT || sub == SUBTYPE_SBTL || sub == SUBTYPE_TEXT {
        String::from_str("subtitle")
    } else {
        let sp = match pos.checked_add(16) {
            Some(v) => v,
            None => {
                return false;
            },
        };
        match read_type(data, sp) {
            Some(s) => s,
            None => {
                return false;
            },
        }
    };
    t.typ = Some(typ);
    true
}

/// Decode an `stsd` box at `pos` into `t`; a short sample entry header
/// leaves the forced flag alone, so this decoder never fails.
fn decode_stsd(data: &Vec<u8>, pos: u64, t: &mut Track)
    requires
        pos + 8 <= u64::MAX,
    ensures
        final(t)@ == decode_stsd_spec(data@, pos as int, old(t)@),
{
    let p = pos + 8;
    t.stsd_offset = Some(p);
    let r0 = read_u8_off(data, p, 12);
    let r1 = read_u8_off(data, p, 13);
    let r2 = read_u8_off(data, p, 14);
    let r3 = read_u8_off(data, p, 15);
    match (r0, r1, r2, r3) {
        (Some(t0), Some(t1), Some(t2), Some(t3)) => {
            t.forced_flag = entry_type_is_forced(t0, t1, t2, t3);
        },
        _ => (),
    }
}

/// Walk the children of an `stbl` box; `false` is a parse failure.
fn stbl_children(data: &Vec<u8>, pos: u64, end: u64, t: &mut Track) -> (ok: bool)
    ensures
        match stbl_children_spec(data@, pos as int, end as int, old(t)@) {
            None => !ok,
            Some(tv) => ok && final(t)@ == tv,
        },
    decreases end - pos,
{
    if pos > end || end - pos < 8 {
        return true;
    }
    let (bs, tag) = match resolve_box(data, pos, end) {
        Some(x) => x,
        None => {
            return false;
        },
    };
    if tag == TAG_STSD {
        decode_stsd(data, pos, t);
    }
    if bs < 8 {
        return true;
    }
    let next = match pos.checked_add(bs) {
        Some(n) => n,
        None => {
            return true;
        },
    };
    if next > end {
        return true;
    }
    stbl_children(data, next, end, t)
}

/// Walk the children of a `minf` box; `false` is a parse failure.
fn minf_children(data: &Vec<u8>, pos: u64, end: u64, t: &mut Track) -> (ok: bool)
    ensures
        match minf_children_spec(data@, pos as int, end as int, old(t)@) {
            None => !ok,
            Some(tv) => ok && final(t)@ == tv,
        },
    decreases end - pos,
{
    if pos > end || end - pos < 8 {
        return true;
    }
    let (bs, tag) = match resolve_box(data, pos, end) {
        Some(x) => x,
        None => {
            return false;
        },
    };
    if tag == TAG_STBL {
        let child_end = match pos.checked_add(bs) {
            Some(n) => n,
            None => {
                return true;
            },
        };
        if !stbl_children(data, pos + 8, child_end, t) {
            return false;
        }
    }
    if bs < 8 {
        return true;
    }
    let next = match pos.checked_add(bs) {
        Some(n) => n,
        None => {
            return true;
        },
    };
    if next > end {
        return true;
    }
    minf_children(data, next, end, t)
}

/// Walk the children of an `mdia` box; `false` is a parse failure.
fn mdia_children(data: &Vec<u8>, pos: u64, end: u64, t: &mut Track) -> (ok: bool)
    ensures
        match mdia_children_spec(data@, pos as int, end as int, old(t)@) {
            None => !ok,
            Some(tv) => ok && final(t)@ == tv,
        },
    decreases end - pos,
{
    if pos > end || end - pos < 8 {
        return true;
    }
    let (bs, tag) = match resolve_box(data, pos, end) {
        Some(x) => x,
        None => {
            return false;
        },
    };
    if tag == TAG_MDHD {
        if !decode_mdhd(data, pos, t) {
            return false;
        }
    } else if tag == TAG_HDLR {
        if !decode_hdlr(data, pos, t) {
            return false;
        }
    } else if tag == TAG_MINF {
        let child_end = match pos.checked_add(bs) {
            Some(n) => n,
            None => {
                return true;
            },
        };
        if !minf_children(data, pos + 8, child_end, t) {
            return false;
        }
    }
    if bs < 8 {
        return true;
    }
    let next = match pos.checked_add(bs) {
        Some(n) => n,
        None => {
            return true;
        },
    };
    if next > end {
        return true;
    }
    mdia_children(data, next, end, t)
}

/// Walk the children of a `trak` box; `false` is a parse failure.
fn trak_children(data: &Vec<u8>, pos: u64, end: u64, t: &mut Track) -> (ok: bool)
    ensures
        match trak_children_spec(data@, pos as int, end as int, old(t)@) {
            None => !ok,
            Some(tv) => ok && final(t)@ == tv,
        },
    decreases end - pos,
{
    if pos > end || end - pos < 8 {
        return true;
    }
    let (bs, tag) = match resolve_box(data, pos, end) {
        Some(x) => x,
        None => {
            return false;
        },
    };
    if tag == TAG_TKHD {
        if !decode_tkhd(data, pos, t) {
            return false;
        }
    } else if tag == TAG_MDIA {
        let child_end = match pos.checked_add(bs) {
            Some(n) => n,
            None => {
                return true;
            },
        };
        if !mdia_children(data, pos + 8, child_end, t) {
            return false;
        }
    }
    if bs < 8 {
        return true;
    }
    let next = match pos.checked_add(bs) {
        Some(n) => n,
        None => {
            return true;
        },
    };
    if next > end {
        return true;
    }
    trak_children(data, next, end, t)
}

/// Walk the children of a `moov` box, appending one record per `trak`
/// child with a non-zero track id; `false` is a parse failure.
fn moov_children(data: &Vec<u8>, pos: u64, end: u64, tracks: &mut Vec<Track>) -> (ok: bool)
    ensures
        match moov_children_spec(data@, pos as int, end as int) {
            None => !ok,
            Some(ts) => ok && track_views(final(tracks)@) == track_views(old(tracks)@) + ts,
        },
    decreases end - pos,
{
    let ghost start_views = track_views(tracks@);
    if pos > end || end - pos < 8 {
        proof {
            assert(track_views(tracks@) =~~= start_views + Seq::<TrackView>::empty());
        }
        return true;
    }
    let (bs, tag) = match resolve_box(data, pos, end) {
        Some(x) => x,
        None => {
            return false;
        },
    };
    let ghost mut here_seq: Seq<TrackView> = Seq::empty();
    if tag == TAG_TRAK {
        let child_end = match pos.checked_add(bs) {
            Some(n) => n,
            None => {
                proof {
                    assert(track_views(tracks@) =~~= start_views + Seq::<TrackView>::empty());
                }
                return true;
            },
        };
        let mut tr = Track::new();
        if !trak_children(data, pos + 8, child_end, &mut tr) {
            return false;
        }
        if tr.track_id != 0 {
            proof {
                here_seq = seq![tr@];
            }
            tracks.push(tr);
        }
    }
    proof {
        assert(track_views(tracks@) =~~= start_views + here_seq);
    }
    if bs < 8 {
        return true;
    }
    let next = match pos.checked_add(bs) {
        Some(n) => n,
        None => {
            return true;
        },
    };
    if next > end {
        return true;
    }
    let r = moov_children(data, next, end, tracks);
    proof {
        if r {
            let rest = moov_children_spec(data@, next as int, end as int)->Some_0;
            assert(track_views(tracks@) =~~= start_views + (here_seq + rest));
        }
    }
    r
}

/// Walk the file's root boxes from `pos`, appending every track found
/// under a `moov` box; `false` is a parse failure.
fn root_scan(data: &Vec<u8>, pos: u64, tracks: &mut Vec<Track>) -> (ok: bool)
    ensures
        match root_scan_spec(data@, pos as int) {
            None => !ok,
            Some(ts) => ok && track_views(final(tracks)@) == track_views(old(tracks)@) + ts,
        },
    decreases data@.len() - pos,
{
    let n_usize = data.len();
    let n = n_usize as u64;
    let ghost start_views = track_views(tracks@);
    if pos > n || n - pos < 8 {
        proof {
            assert(track_views(tracks@) =~~= start_views + Seq::<TrackView>::empty());
        }
        return true;
    }
    let (bs, tag) = match resolve_box(data, pos, n) {
        Some(x) => x,
        None => {
            return false;
        },
    };
    let ghost mut here_seq: Seq<TrackView> = Seq::empty();
    if tag == TAG_MOOV {
        let child_end = match pos.checked_add(bs) {
            Some(e) => e,
            None => {
                proof {
                    assert(track_views(tracks@) =~~= start_views + Seq::<TrackView>::empty());
                }
                return true;
            },
        };
        if !moov_children(data, pos + 8, child_end, tracks) {
            return false;
        }
        proof {
            here_seq = moov_children_spec(data@, pos + 8, pos + bs)->Some_0;
        }
    }
    proof {
        assert(track_views(tracks@) =~~= start_views + here_seq);
    }
    if bs < 8 {
        return true;
    }
    let next = match pos.checked_add(bs) {
        Some(x) => x,
        None => {
            return true;
        },
    };
    if next > n {
        return true;
    }
    let r = root_scan(data, next, tracks);
    proof {
        if r {
            let rest = root_scan_spec(data@, next as int)->Some_0;
            assert(track_views(tracks@) =~~= start_views + (here_seq + rest));
        }
    }
    r
}

/// Parse the whole box tree of `data` and return the decoded track list in
/// `trak`-encounter order. `Err` exactly when a required field ran past
/// the end of the data.
pub fn parse_mp4(data: &Vec<u8>) -> (r: Result<Vec<Track>, ParseError>)
    ensures
        match root_scan_spec(data@, 0) {
            None => r is Err,
            Some(ts) => r matches Ok(v) && track_views(v@) == ts,
        },
{
    let mut tracks: Vec<Track> = Vec::new();
    let ok = root_scan(data, 0, &mut tracks);
    if ok {
        proof {
            if root_scan_spec(data@, 0) is Some {
                assert(track_views(tracks@) =~~= Seq::<TrackView>::empty() + root_scan_spec(
                    data@,
                    0,
                )->Some_0);
            }
        }
        Ok(tracks)
    } else {
        Err(ParseError::UnexpectedEof)
    }
}

} // verus!
