//! The round-trip law and its supporting locality law.
//!
//! Round trip: on a well-formed file, patching the default flag at the
//! `tkhd` offset the parse recorded for a track changes exactly that
//! track's default flag in a second parse ([`lemma_default_round_trip`]).
//! Locality: scanning a well-formed container range reads nothing outside
//! that range, so bytes elsewhere can change without disturbing what the
//! walker decodes from it ([`lemma_moov_scan_local`]).
//!
//! Well-formedness asks what a sane file provides: every child box has a
//! plain (or zero-sentinel) size field that keeps the box inside its
//! container, and every decoded leaf box is large enough for the fields
//! read from it. Corrupt files with overlapping or escaping boxes can
//! route the patched byte into an unrelated field, and neither law holds
//! of them.

use vstd::prelude::*;
use crate::bytes::be32_at;
use crate::parse::{
    resolve_box_spec, decode_tkhd_spec, decode_mdhd_spec, decode_hdlr_spec, decode_stsd_spec,
    stbl_children_spec, minf_children_spec, mdia_children_spec, trak_children_spec,
    moov_children_spec, root_scan_spec, TAG_MOOV, TAG_TRAK, TAG_TKHD, TAG_MDIA, TAG_MDHD,
    TAG_HDLR, TAG_MINF, TAG_STBL, TAG_STSD,
};
use crate::patch::{patch_default_spec, find_track_spec};
use crate::track::{TrackView, empty_track};

verus! {

/// The type tag of the box at `pos`.
pub open spec fn tag_of(d: Seq<u8>, pos: int) -> u32 {
    be32_at(d, pos + 4)
}

/// Resolved size of a well-formed child at `pos`: the literal 32-bit size
/// field, or the rest of the container for the zero sentinel.
pub open spec fn wf_size(d: Seq<u8>, pos: int, end: int) -> int {
    if be32_at(d, pos) == 0 {
        end - pos
    } else {
        be32_at(d, pos) as int
    }
}

/// Common shape of a well-formed child box: a plain (not extended) size
/// field, room for its own header, and containment in `[pos, end)`.
pub open spec fn wf_child(d: Seq<u8>, pos: int, end: int) -> bool {
    &&& be32_at(d, pos) != 1
    &&& 8 <= wf_size(d, pos, end)
    &&& pos + wf_size(d, pos, end) <= end
}

/// Well-formed `stbl` children: every `stsd` leaf has room for its entry
/// header.
pub open spec fn wf_stbl(d: Seq<u8>, pos: int, end: int) -> bool
    decreases end - pos,
{
    pos + 8 > end || {
        let bs = wf_size(d, pos, end);
        wf_child(d, pos, end) && (tag_of(d, pos) == TAG_STSD ==> bs >= 24) && wf_stbl(
            d,
            pos + bs,
            end,
        )
    }
}

/// Well-formed `minf` children.
pub open spec fn wf_minf(d: Seq<u8>, pos: int, end: int) -> bool
    decreases end - pos,
{
    pos + 8 > end || {
        let bs = wf_size(d, pos, end);
        wf_child(d, pos, end) && (tag_of(d, pos) == TAG_STBL ==> wf_stbl(d, pos + 8, pos + bs))
            && wf_minf(d, pos + bs, end)
    }
}

/// Well-formed `mdia` children: `mdhd` and `hdlr` leaves hold the fields
/// their decoders read.
pub open spec fn wf_mdia(d: Seq<u8>, pos: int, end: int) -> bool
    decreases end - pos,
{
    pos + 8 > end || {
        let bs = wf_size(d, pos, end);
        &&& wf_child(d, pos, end)
        &&& (tag_of(d, pos) == TAG_MDHD ==> bs >= (if d[pos + 8] == 1 {
            42int
        } else {
            30int
        }))
        &&& (tag_of(d, pos) == TAG_HDLR ==> bs >= 20)
        &&& (tag_of(d, pos) == TAG_MINF ==> wf_minf(d, pos + 8, pos + bs))
        &&& wf_mdia(d, pos + bs, end)
    }
}

/// Well-formed `trak` children: every `tkhd` leaf holds its flags and its
/// version-dependent track id field.
pub open spec fn wf_trak(d: Seq<u8>, pos: int, end: int) -> bool
    decreases end - pos,
{
    pos + 8 > end || {
        let bs = wf_size(d, pos, end);
        &&& wf_child(d, pos, end)
        &&& (tag_of(d, pos) == TAG_TKHD ==> bs >= (if d[pos + 8] == 1 {
            32int
        } else {
            24int
        }))
        &&& (tag_of(d, pos) == TAG_MDIA ==> wf_mdia(d, pos + 8, pos + bs))
        &&& wf_trak(d, pos + bs, end)
    }
}

/// Well-formed `moov` children.
pub open spec fn wf_moov(d: Seq<u8>, pos: int, end: int) -> bool
    decreases end - pos,
{
    pos + 8 > end || {
        let bs = wf_size(d, pos, end);
        wf_child(d, pos, end) && (tag_of(d, pos) == TAG_TRAK ==> wf_trak(d, pos + 8, pos + bs))
            && wf_moov(d, pos + bs, end)
    }
}

/// Bytes that agree on a well-formed `stbl` range scan alike.
proof fn lemma_agree_stbl(d: Seq<u8>, d2: Seq<u8>, pos: int, end: int, t: TrackView)
    requires
        d2.len() == d.len(),
        forall|i: int| pos <= i < end ==> d2[i] == d[i],
        wf_stbl(d, pos, end),
        0 <= pos,
        end <= d.len(),
    ensures
        stbl_children_spec(d2, pos, end, t) == stbl_children_spec(d, pos, end, t),
    decreases end - pos,
{
    if pos + 8 <= end {
        let bs = wf_size(d, pos, end);
        assert(resolve_box_spec(d2, pos, end) == resolve_box_spec(d, pos, end));
        let t2 = if tag_of(d, pos) == TAG_STSD {
            decode_stsd_spec(d, pos, t)
        } else {
            t
        };
        if tag_of(d, pos) == TAG_STSD {
            assert(decode_stsd_spec(d2, pos, t) == decode_stsd_spec(d, pos, t));
        }
        lemma_agree_stbl(d, d2, pos + bs, end, t2);
    }
}

/// Bytes that agree on a well-formed `minf` range scan alike.
proof fn lemma_agree_minf(d: Seq<u8>, d2: Seq<u8>, pos: int, end: int, t: TrackView)
    requires
        d2.len() == d.len(),
        forall|i: int| pos <= i < end ==> d2[i] == d[i],
        wf_minf(d, pos, end),
        0 <= pos,
        end <= d.len(),
    ensures
        minf_children_spec(d2, pos, end, t) == minf_children_spec(d, pos, end, t),
    decreases end - pos,
{
    if pos + 8 <= end {
        let bs = wf_size(d, pos, end);
        assert(resolve_box_spec(d2, pos, end) == resolve_box_spec(d, pos, end));
        if tag_of(d, pos) == TAG_STBL {
            lemma_agree_stbl(d, d2, pos + 8, pos + bs, t);
        }
        match stbl_children_spec(d, pos + 8, pos + bs, t) {
            Some(t2) => {
                if tag_of(d, pos) == TAG_STBL {
                    lemma_agree_minf(d, d2, pos + bs, end, t2);
                } else {
                    lemma_agree_minf(d, d2, pos + bs, end, t);
                }
            },
            None => {
                lemma_agree_minf(d, d2, pos + bs, end, t);
            },
        }
    }
}

/// Bytes that agree on a well-formed `mdia` range scan alike.
proof fn lemma_agree_mdia(d: Seq<u8>, d2: Seq<u8>, pos: int, end: int, t: TrackView)
    requires
        d2.len() == d.len(),
        forall|i: int| pos <= i < end ==> d2[i] == d[i],
        wf_mdia(d, pos, end),
        0 <= pos,
        end <= d.len(),
    ensures
        mdia_children_spec(d2, pos, end, t) == mdia_children_spec(d, pos, end, t),
    decreases end - pos,
{
    if pos + 8 <= end {
        let bs = wf_size(d, pos, end);
        assert(resolve_box_spec(d2, pos, end) == resolve_box_spec(d, pos, end));
        if tag_of(d, pos) == TAG_MDHD {
            assert(decode_mdhd_spec(d2, pos, t) == decode_mdhd_spec(d, pos, t));
        }
        if tag_of(d, pos) == TAG_HDLR {
            assert(d2.subrange(pos + 16, pos + 20) =~= d.subrange(pos + 16, pos + 20));
            assert(decode_hdlr_spec(d2, pos, t) == decode_hdlr_spec(d, pos, t));
        }
        if tag_of(d, pos) == TAG_MINF {
            lemma_agree_minf(d, d2, pos + 8, pos + bs, t);
        }
        let sub = if tag_of(d, pos) == TAG_MDHD {
            decode_mdhd_spec(d, pos, t)
        } else if tag_of(d, pos) == TAG_HDLR {
            decode_hdlr_spec(d, pos, t)
        } else if tag_of(d, pos) == TAG_MINF {
            minf_children_spec(d, pos + 8, pos + bs, t)
        } else {
            Some(t)
        };
        match sub {
            Some(t2) => {
                lemma_agree_mdia(d, d2, pos + bs, end, t2);
            },
            None => {},
        }
    }
}

/// Bytes that agree on a well-formed `trak` range scan alike.
proof fn lemma_agree_trak(d: Seq<u8>, d2: Seq<u8>, pos: int, end: int, t: TrackView)
    requires
        d2.len() == d.len(),
        forall|i: int| pos <= i < end ==> d2[i] == d[i],
        wf_trak(d, pos, end),
        0 <= pos,
        end <= d.len(),
    ensures
        trak_children_spec(d2, pos, end, t) == trak_children_spec(d, pos, end, t),
    decreases end - pos,
{
    if pos + 8 <= end {
        let bs = wf_size(d, pos, end);
        assert(resolve_box_spec(d2, pos, end) == resolve_box_spec(d, pos, end));
        if tag_of(d, pos) == TAG_TKHD {
            assert(decode_tkhd_spec(d2, pos, t) == decode_tkhd_spec(d, pos, t));
        }
        if tag_of(d, pos) == TAG_MDIA {
            lemma_agree_mdia(d, d2, pos + 8, pos + bs, t);
        }
        let sub = if tag_of(d, pos) == TAG_TKHD {
            decode_tkhd_spec(d, pos, t)
        } else if tag_of(d, pos) == TAG_MDIA {
            mdia_children_spec(d, pos + 8, pos + bs, t)
        } else {
            Some(t)
        };
        match sub {
            Some(t2) => {
                lemma_agree_trak(d, d2, pos + bs, end, t2);
            },
            None => {},
        }
    }
}

/// The `stbl` scan neither reads nor writes the `tkhd`-owned fields: two
/// accumulators that agree outside them scan to results that agree
/// outside them, each keeping its own `tkhd` fields.
proof fn lemma_stbl_tkhd_fields(d: Seq<u8>, pos: int, end: int, t1: TrackView, t2: TrackView)
    requires
        t2.stsd_offset == t1.stsd_offset,
        t2.mdhd_offset == t1.mdhd_offset,
        t2.forced_flag == t1.forced_flag,
        t2.typ == t1.typ,
        t2.lang == t1.lang,
    ensures
        match stbl_children_spec(d, pos, end, t1) {
            None => stbl_children_spec(d, pos, end, t2) is None,
            Some(r1) => stbl_children_spec(d, pos, end, t2) == Some(
                TrackView {
                    tkhd_offset: t2.tkhd_offset,
                    default_flag: t2.default_flag,
                    track_id: t2.track_id,
                    ..r1
                },
            ),
        },
    decreases end - pos,
{
    if pos + 8 <= end {
        match resolve_box_spec(d, pos, end) {
            None => {},
            Some((bs, tag)) => {
                let n1 = if tag == TAG_STSD {
                    decode_stsd_spec(d, pos, t1)
                } else {
                    t1
                };
                let n2 = if tag == TAG_STSD {
                    decode_stsd_spec(d, pos, t2)
                } else {
                    t2
                };
                if !(bs < 8 || pos + bs > end) {
                    lemma_stbl_tkhd_fields(d, pos + bs, end, n1, n2);
                }
            },
        }
    }
}

/// The `minf` scan neither reads nor writes the `tkhd`-owned fields.
proof fn lemma_minf_tkhd_fields(d: Seq<u8>, pos: int, end: int, t1: TrackView, t2: TrackView)
    requires
        t2.stsd_offset == t1.stsd_offset,
        t2.mdhd_offset == t1.mdhd_offset,
        t2.forced_flag == t1.forced_flag,
        t2.typ == t1.typ,
        t2.lang == t1.lang,
    ensures
        match minf_children_spec(d, pos, end, t1) {
            None => minf_children_spec(d, pos, end, t2) is None,
            Some(r1) => minf_children_spec(d, pos, end, t2) == Some(
                TrackView {
                    tkhd_offset: t2.tkhd_offset,
                    default_flag: t2.default_flag,
                    track_id: t2.track_id,
                    ..r1
                },
            ),
        },
    decreases end - pos,
{
    if pos + 8 <= end {
        match resolve_box_spec(d, pos, end) {
            None => {},
            Some((bs, tag)) => {
                if !(tag == TAG_STBL && pos + bs > u64::MAX) {
                    if tag == TAG_STBL {
                        lemma_stbl_tkhd_fields(d, pos + 8, pos + bs, t1, t2);
                    }
                    let s1 = if tag == TAG_STBL {
                        stbl_children_spec(d, pos + 8, pos + bs, t1)
                    } else {
                        Some(t1)
                    };
                    let s2 = if tag == TAG_STBL {
                        stbl_children_spec(d, pos + 8, pos + bs, t2)
                    } else {
                        Some(t2)
                    };
                    match (s1, s2) {
                        (Some(n1), Some(n2)) => {
                            if !(bs < 8 || pos + bs > end) {
                                lemma_minf_tkhd_fields(d, pos + bs, end, n1, n2);
                            }
                        },
                        _ => {},
                    }
                }
            },
        }
    }
}

/// The `mdia` scan neither reads nor writes the `tkhd`-owned fields.
proof fn lemma_mdia_tkhd_fields(d: Seq<u8>, pos: int, end: int, t1: TrackView, t2: TrackView)
    requires
        t2.stsd_offset == t1.stsd_offset,
        t2.mdhd_offset == t1.mdhd_offset,
        t2.forced_flag == t1.forced_flag,
        t2.typ == t1.typ,
        t2.lang == t1.lang,
    ensures
        match mdia_children_spec(d, pos, end, t1) {
            None => mdia_children_spec(d, pos, end, t2) is None,
            Some(r1) => mdia_children_spec(d, pos, end, t2) == Some(
                TrackView {
                    tkhd_offset: t2.tkhd_offset,
                    default_flag: t2.default_flag,
                    track_id: t2.track_id,
                    ..r1
                },
            ),
        },
    decreases end - pos,
{
    if pos + 8 <= end {
        match resolve_box_spec(d, pos, end) {
            None => {},
            Some((bs, tag)) => {
                if !(tag == TAG_MINF && pos + bs > u64::MAX) {
                    if tag == TAG_MINF {
                        lemma_minf_tkhd_fields(d, pos + 8, pos + bs, t1, t2);
                    }
                    let s1 = if tag == TAG_MDHD {
                        decode_mdhd_spec(d, pos, t1)
                    } else if tag == TAG_HDLR {
                        decode_hdlr_spec(d, pos, t1)
                    } else if tag == TAG_MINF {
                        minf_children_spec(d, pos + 8, pos + bs, t1)
                    } else {
                        Some(t1)
                    };
                    let s2 = if tag == TAG_MDHD {
                        decode_mdhd_spec(d, pos, t2)
                    } else if tag == TAG_HDLR {
                        decode_hdlr_spec(d, pos, t2)
                    } else if tag == TAG_MINF {
                        minf_children_spec(d, pos + 8, pos + bs, t2)
                    } else {
                        Some(t2)
                    };
                    match (s1, s2) {
                        (Some(n1), Some(n2)) => {
                            if !(bs < 8 || pos + bs > end) {
                                lemma_mdia_tkhd_fields(d, pos + bs, end, n1, n2);
                            }
                        },
                        _ => {},
                    }
                }
            },
        }
    }
}

/// The track-header offset a `trak` scan reports is either the one it
/// started with or that of a `tkhd` child, which lies at or after the
/// scan's own start.
proof fn lemma_trak_offset_mono(d: Seq<u8>, pos: int, end: int, t: TrackView)
    requires
        0 <= pos,
        end <= u64::MAX,
    ensures
        match trak_children_spec(d, pos, end, t) {
            None => true,
            Some(r) => r.tkhd_offset == t.tkhd_offset || (r.tkhd_offset matches Some(o) && o
                >= pos + 8),
        },
    decreases end - pos,
{
    if pos + 8 <= end {
        match resolve_box_spec(d, pos, end) {
            None => {},
            Some((bs, tag)) => {
                if !(tag == TAG_MDIA && pos + bs > u64::MAX) {
                    let sub = if tag == TAG_TKHD {
                        decode_tkhd_spec(d, pos, t)
                    } else if tag == TAG_MDIA {
                        mdia_children_spec(d, pos + 8, pos + bs, t)
                    } else {
                        Some(t)
                    };
                    if tag == TAG_MDIA {
                        lemma_mdia_tkhd_fields(d, pos + 8, pos + bs, t, t);
                    }
                    match sub {
                        Some(t2) => {
                            if !(bs < 8 || pos + bs > end) {
                                lemma_trak_offset_mono(d, pos + bs, end, t2);
                            }
                        },
                        None => {},
                    }
                }
            },
        }
    }
}

/// A `trak` scan that reports the track-header offset it started with —
/// one on a box wholly before the scanned range — decoded no `tkhd`
/// child, so a changed default flag rides through untouched.
proof fn lemma_trak_default_acc(d: Seq<u8>, pos: int, end: int, t1: TrackView, x: bool, o: u64)
    requires
        0 <= pos,
        end <= u64::MAX,
        t1.tkhd_offset == Some(o),
        o < pos + 8,
    ensures
        match trak_children_spec(d, pos, end, t1) {
            None => true,
            Some(r1) => r1.tkhd_offset == Some(o) ==> trak_children_spec(
                d,
                pos,
                end,
                TrackView { default_flag: x, ..t1 },
            ) == Some(TrackView { default_flag: x, ..r1 }),
        },
    decreases end - pos,
{
    let t2 = TrackView { default_flag: x, ..t1 };
    if pos + 8 <= end {
        match resolve_box_spec(d, pos, end) {
            None => {},
            Some((bs, tag)) => {
                if tag == TAG_TKHD {
                    // A tkhd child pushes the reported offset to at least
                    // this child's payload, past `o`.
                    match decode_tkhd_spec(d, pos, t1) {
                        Some(n1) => {
                            if !(bs < 8 || pos + bs > end) {
                                lemma_trak_offset_mono(d, pos + bs, end, n1);
                            }
                        },
                        None => {},
                    }
                } else if tag == TAG_MDIA {
                    if !(pos + bs > u64::MAX) {
                        lemma_mdia_tkhd_fields(d, pos + 8, pos + bs, t1, t1);
                        lemma_mdia_tkhd_fields(d, pos + 8, pos + bs, t1, t2);
                        match mdia_children_spec(d, pos + 8, pos + bs, t1) {
                            Some(n1) => {
                                if !(bs < 8 || pos + bs > end) {
                                    lemma_trak_default_acc(d, pos + bs, end, n1, x, o);
                                }
                            },
                            None => {},
                        }
                    }
                } else {
                    if !(bs < 8 || pos + bs > end) {
                        lemma_trak_default_acc(d, pos + bs, end, t1, x, o);
                    }
                }
            },
        }
    }
}

/// Patching the default flag at the `tkhd` offset a well-formed `trak`
/// scan reports flips exactly the default flag of what a second scan of
/// the same range yields; the offset lies inside the range, past every
/// sibling before its box.
proof fn lemma_patch_trak(d: Seq<u8>, pos: int, end: int, t: TrackView, set: bool, q: u64)
    requires
        wf_trak(d, pos, end),
        0 <= pos,
        end <= d.len(),
        end <= u64::MAX,
        trak_children_spec(d, pos, end, t) is Some,
        trak_children_spec(d, pos, end, t)->Some_0.tkhd_offset == Some(q),
        t.tkhd_offset != Some(q),
    ensures
        pos + 8 <= q,
        q + 16 <= end,
        trak_children_spec(patch_default_spec(d, q as int, set), pos, end, t) == Some(
            TrackView { default_flag: set, ..trak_children_spec(d, pos, end, t)->Some_0 },
        ),
    decreases end - pos,
{
    let d2 = patch_default_spec(d, q as int, set);
    let tv = trak_children_spec(d, pos, end, t)->Some_0;
    if pos + 8 <= end {
        match resolve_box_spec(d, pos, end) {
            None => {},
            Some((bs, tag)) => {
                if tag == TAG_TKHD {
                    match decode_tkhd_spec(d, pos, t) {
                        Some(n1) => {
                            if q == pos + 8 {
                                crate::laws::lemma_default_flag_round_trip(d, pos, t, set);
                                let n2 = TrackView { default_flag: set, ..n1 };
                                lemma_agree_trak(d, d2, pos + bs, end, n2);
                                lemma_trak_default_acc(d, pos + bs, end, n1, set, q);
                                assert(resolve_box_spec(d2, pos, end) == resolve_box_spec(
                                    d,
                                    pos,
                                    end,
                                ));
                            } else {
                                lemma_patch_trak(d, pos + bs, end, n1, set, q);
                                assert(decode_tkhd_spec(d2, pos, t) == decode_tkhd_spec(
                                    d,
                                    pos,
                                    t,
                                ));
                                assert(resolve_box_spec(d2, pos, end) == resolve_box_spec(
                                    d,
                                    pos,
                                    end,
                                ));
                            }
                        },
                        None => {},
                    }
                } else if tag == TAG_MDIA {
                    lemma_mdia_tkhd_fields(d, pos + 8, pos + bs, t, t);
                    match mdia_children_spec(d, pos + 8, pos + bs, t) {
                        Some(n1) => {
                            lemma_patch_trak(d, pos + bs, end, n1, set, q);
                            lemma_agree_mdia(d, d2, pos + 8, pos + bs, t);
                            assert(resolve_box_spec(d2, pos, end) == resolve_box_spec(
                                d,
                                pos,
                                end,
                            ));
                        },
                        None => {},
                    }
                } else {
                    lemma_patch_trak(d, pos + bs, end, t, set, q);
                    assert(resolve_box_spec(d2, pos, end) == resolve_box_spec(d, pos, end));
                }
            },
        }
    }
}

/// The locality law: two byte sequences of equal length that agree on a
/// well-formed `moov` container's range yield exactly the same tracks
/// from that container — the walker reads nothing outside the range.
pub proof fn lemma_moov_scan_local(d: Seq<u8>, d2: Seq<u8>, pos: int, end: int)
    requires
        d2.len() == d.len(),
        forall|i: int| pos <= i < end ==> d2[i] == d[i],
        wf_moov(d, pos, end),
        0 <= pos,
        end <= d.len(),
    ensures
        moov_children_spec(d2, pos, end) == moov_children_spec(d, pos, end),
    decreases end - pos,
{
    if pos + 8 <= end {
        let bs = wf_size(d, pos, end);
        assert(resolve_box_spec(d2, pos, end) == resolve_box_spec(d, pos, end));
        if tag_of(d, pos) == TAG_TRAK {
            lemma_agree_trak(d, d2, pos + 8, pos + bs, crate::track::empty_track());
        }
        lemma_moov_scan_local(d, d2, pos + bs, end);
    }
}

/// Patching the default flag at the `tkhd` offset recorded for the
/// `k`-th track of a well-formed `moov` flips exactly that track's
/// default flag in a second scan; every other track is unchanged.
proof fn lemma_patch_moov(d: Seq<u8>, pos: int, end: int, set: bool, q: u64, k: int)
    requires
        wf_moov(d, pos, end),
        0 <= pos,
        end <= d.len(),
        end <= u64::MAX,
        moov_children_spec(d, pos, end) is Some,
        0 <= k < moov_children_spec(d, pos, end)->Some_0.len(),
        moov_children_spec(d, pos, end)->Some_0[k].tkhd_offset == Some(q),
    ensures
        pos + 16 <= q,
        q + 16 <= end,
        moov_children_spec(patch_default_spec(d, q as int, set), pos, end) == Some(
            moov_children_spec(d, pos, end)->Some_0.update(
                k,
                TrackView {
                    default_flag: set,
                    ..moov_children_spec(d, pos, end)->Some_0[k]
                },
            ),
        ),
    decreases end - pos,
{
    let d2 = patch_default_spec(d, q as int, set);
    let ts = moov_children_spec(d, pos, end)->Some_0;
    if pos + 8 <= end {
        match resolve_box_spec(d, pos, end) {
            None => {},
            Some((bs, tag)) => {
                if tag == TAG_TRAK {
                    match trak_children_spec(d, pos + 8, pos + bs, empty_track()) {
                        Some(tr) => {
                            let here = if tr.track_id == 0 {
                                Seq::<TrackView>::empty()
                            } else {
                                seq![tr]
                            };
                            let rest = moov_children_spec(d, pos + bs, end)->Some_0;
                            assert(ts == here + rest);
                            if k < here.len() {
                                assert(tr.tkhd_offset == Some(q)) by {
                                    assert(ts[0] == tr);
                                }
                                lemma_patch_trak(d, pos + 8, pos + bs, empty_track(), set, q);
                                lemma_moov_scan_local(d, d2, pos + bs, end);
                                assert(resolve_box_spec(d2, pos, end) == resolve_box_spec(
                                    d,
                                    pos,
                                    end,
                                ));
                                assert(seq![TrackView { default_flag: set, ..tr }] + rest
                                    =~~= ts.update(k, TrackView { default_flag: set, ..ts[k] }));
                            } else {
                                assert(ts[k] == rest[k - here.len()]);
                                lemma_patch_moov(d, pos + bs, end, set, q, k - here.len());
                                lemma_agree_trak(d, d2, pos + 8, pos + bs, empty_track());
                                assert(resolve_box_spec(d2, pos, end) == resolve_box_spec(
                                    d,
                                    pos,
                                    end,
                                ));
                                assert(here + rest.update(
                                    k - here.len(),
                                    TrackView { default_flag: set, ..ts[k] },
                                ) =~~= ts.update(k, TrackView { default_flag: set, ..ts[k] }));
                            }
                        },
                        None => {},
                    }
                } else {
                    let rest = moov_children_spec(d, pos + bs, end)->Some_0;
                    assert(ts == Seq::<TrackView>::empty() + rest);
                    assert(ts[k] == rest[k]);
                    lemma_patch_moov(d, pos + bs, end, set, q, k);
                    assert(resolve_box_spec(d2, pos, end) == resolve_box_spec(d, pos, end));
                    assert(Seq::<TrackView>::empty() + rest.update(
                        k,
                        TrackView { default_flag: set, ..ts[k] },
                    ) =~~= ts.update(k, TrackView { default_flag: set, ..ts[k] }));
                }
            },
        }
    }
}

/// Well-formed root boxes of the whole file.
pub open spec fn wf_root(d: Seq<u8>, pos: int) -> bool
    decreases d.len() - pos,
{
    pos + 8 > d.len() || {
        let bs = wf_size(d, pos, d.len() as int);
        wf_child(d, pos, d.len() as int) && (tag_of(d, pos) == TAG_MOOV ==> wf_moov(
            d,
            pos + 8,
            pos + bs,
        )) && wf_root(d, pos + bs)
    }
}

/// Bytes that agree from `pos` to the end scan to the same root tracks.
proof fn lemma_agree_root(d: Seq<u8>, d2: Seq<u8>, pos: int)
    requires
        d2.len() == d.len(),
        forall|i: int| pos <= i < d.len() ==> d2[i] == d[i],
        wf_root(d, pos),
        0 <= pos,
    ensures
        root_scan_spec(d2, pos) == root_scan_spec(d, pos),
    decreases d.len() - pos,
{
    if pos + 8 <= d.len() {
        let bs = wf_size(d, pos, d.len() as int);
        assert(resolve_box_spec(d2, pos, d2.len() as int) == resolve_box_spec(
            d,
            pos,
            d.len() as int,
        ));
        if tag_of(d, pos) == TAG_MOOV {
            lemma_moov_scan_local(d, d2, pos + 8, pos + bs);
        }
        lemma_agree_root(d, d2, pos + bs);
    }
}

/// Patching the default flag at the `tkhd` offset recorded for the `k`-th
/// track of a well-formed file flips exactly that track's default flag on
/// a second root scan.
proof fn lemma_patch_root(d: Seq<u8>, pos: int, set: bool, q: u64, k: int)
    requires
        wf_root(d, pos),
        0 <= pos,
        d.len() <= u64::MAX,
        root_scan_spec(d, pos) is Some,
        0 <= k < root_scan_spec(d, pos)->Some_0.len(),
        root_scan_spec(d, pos)->Some_0[k].tkhd_offset == Some(q),
    ensures
        pos + 24 <= q,
        q + 16 <= d.len(),
        root_scan_spec(patch_default_spec(d, q as int, set), pos) == Some(
            root_scan_spec(d, pos)->Some_0.update(
                k,
                TrackView {
                    default_flag: set,
                    ..root_scan_spec(d, pos)->Some_0[k]
                },
            ),
        ),
    decreases d.len() - pos,
{
    let d2 = patch_default_spec(d, q as int, set);
    let ts = root_scan_spec(d, pos)->Some_0;
    if pos + 8 <= d.len() {
        match resolve_box_spec(d, pos, d.len() as int) {
            None => {},
            Some((bs, tag)) => {
                if tag == TAG_MOOV {
                    match moov_children_spec(d, pos + 8, pos + bs) {
                        Some(here) => {
                            let rest = root_scan_spec(d, pos + bs)->Some_0;
                            assert(ts == here + rest);
                            if k < here.len() {
                                lemma_patch_moov(d, pos + 8, pos + bs, set, q, k);
                                lemma_agree_root(d, d2, pos + bs);
                                assert(resolve_box_spec(d2, pos, d2.len() as int)
                                    == resolve_box_spec(d, pos, d.len() as int));
                                assert(here.update(
                                    k,
                                    TrackView { default_flag: set, ..ts[k] },
                                ) + rest =~~= ts.update(
                                    k,
                                    TrackView { default_flag: set, ..ts[k] },
                                ));
                            } else {
                                assert(ts[k] == rest[k - here.len()]);
                                lemma_patch_root(d, pos + bs, set, q, k - here.len());
                                lemma_moov_scan_local(d, d2, pos + 8, pos + bs);
                                assert(resolve_box_spec(d2, pos, d2.len() as int)
                                    == resolve_box_spec(d, pos, d.len() as int));
                                assert(here + rest.update(
                                    k - here.len(),
                                    TrackView { default_flag: set, ..ts[k] },
                                ) =~~= ts.update(
                                    k,
                                    TrackView { default_flag: set, ..ts[k] },
                                ));
                            }
                        },
                        None => {},
                    }
                } else {
                    let rest = root_scan_spec(d, pos + bs)->Some_0;
                    assert(ts == Seq::<TrackView>::empty() + rest);
                    assert(ts[k] == rest[k]);
                    lemma_patch_root(d, pos + bs, set, q, k);
                    assert(resolve_box_spec(d2, pos, d2.len() as int) == resolve_box_spec(
                        d,
                        pos,
                        d.len() as int,
                    ));
                    assert(Seq::<TrackView>::empty() + rest.update(
                        k,
                        TrackView { default_flag: set, ..ts[k] },
                    ) =~~= ts.update(k, TrackView { default_flag: set, ..ts[k] }));
                }
            },
        }
    }
}

/// The round-trip law: on a well-formed file, patching the default flag
/// at the `tkhd` offset the parse recorded for a listed track changes
/// exactly that track's default flag in a second parse — its id, type,
/// language and forced flag, and every other track, are unchanged.
/// Patching with the flag's old value, as clearing after setting a flag
/// that started clear, restores the original track list.
pub proof fn lemma_default_round_trip(d: Seq<u8>, set: bool, q: u64, k: int)
    requires
        wf_root(d, 0),
        d.len() <= u64::MAX,
        root_scan_spec(d, 0) is Some,
        0 <= k < root_scan_spec(d, 0)->Some_0.len(),
        root_scan_spec(d, 0)->Some_0[k].tkhd_offset == Some(q),
    ensures
        root_scan_spec(patch_default_spec(d, q as int, set), 0) == Some(
            root_scan_spec(d, 0)->Some_0.update(
                k,
                TrackView {
                    default_flag: set,
                    ..root_scan_spec(d, 0)->Some_0[k]
                },
            ),
        ),
{
    lemma_patch_root(d, 0, set, q, k);
}

/// The track a patch operation locates is one of the listed tracks: the
/// search for an id yields a record that stands in the list and carries
/// that id.
pub proof fn lemma_find_track_index(ts: Seq<TrackView>, id: u32)
    requires
        find_track_spec(ts, id) is Some,
    ensures
        exists|k: int|
            0 <= k < ts.len() && #[trigger] ts[k] == find_track_spec(ts, id)->Some_0
                && ts[k].track_id == id,
    decreases ts.len(),
{
    if ts.len() > 0 {
        if ts[0].track_id == id {
            assert(0 <= 0 < ts.len() && ts[0] == find_track_spec(ts, id)->Some_0
                && ts[0].track_id == id);
        } else {
            lemma_find_track_index(ts.drop_first(), id);
            let k0 = choose|k: int|
                0 <= k < ts.drop_first().len() && #[trigger] ts.drop_first()[k]
                    == find_track_spec(ts.drop_first(), id)->Some_0
                    && ts.drop_first()[k].track_id == id;
            assert(ts[k0 + 1] == ts.drop_first()[k0]);
        }
    }
}

} // verus!
