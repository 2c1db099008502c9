//! The in-place patcher: overwrite a track's 3-byte `tkhd` flags field or
//! the 4-byte type of the first `stsd` sample entry, at an offset recorded
//! by an earlier parse, without disturbing any other byte.
//!
//! The offsets are raw positions into the exact byte sequence the parse
//! saw; nothing here re-checks that the box at the offset still is a
//! `tkhd` or `stsd`.

use vstd::prelude::*;
use crate::parse::{root_scan_spec, track_views, parse_mp4};
use crate::track::{Track, TrackView};

verus! {

/// Why a patch operation failed.
#[derive(Clone, Copy, PartialEq, Eq, Structural, Debug)]
pub enum PatchError {
    /// The box tree could not be parsed.
    ParseFailed,
    /// No track carries the requested id.
    TrackNotFound,
    /// The track was found, but the parse recorded no offset for the
    /// requested field.
    MissingOffset,
    /// The recorded offset does not leave room for the field in the data.
    OutOfRange,
}

/// Which per-track flag a patch operation targets.
#[derive(Clone, Copy, PartialEq, Eq, Structural, Debug)]
pub enum FlagKind {
    Default,
    Forced,
}

/// The data after patching the default flag of the `tkhd` whose payload
/// starts at `off`: bit 0 of the third flags byte is set or cleared, every
/// other byte keeps its value.
pub open spec fn patch_default_spec(d: Seq<u8>, off: int, set: bool) -> Seq<u8> {
    d.update(
        off + 3,
        if set {
            d[off + 3] | 1
        } else {
            d[off + 3] & 0xFE
        },
    )
}

/// The data after patching the forced marker for the `stsd` whose payload
/// starts at `off`: setting writes the four marker bytes over the entry
/// type field; clearing is a no-op, since the original type was never
/// recorded and cannot be restored.
pub open spec fn patch_forced_spec(d: Seq<u8>, off: int, set: bool) -> Seq<u8> {
    if set {
        d.update(off + 20, 0x66u8).update(off + 21, 0x63u8).update(off + 22, 0x64u8).update(
            off + 23,
            0x20u8,
        )
    } else {
        d
    }
}

/// Set or clear bit 0 of the 3-byte `tkhd` flags field whose payload
/// starts at `tkhd_offset`, preserving every other bit and byte. Fails,
/// leaving the data unchanged, exactly when the three flag bytes do not
/// fit in the data.
pub fn patch_tkhd_flag(data: &mut Vec<u8>, tkhd_offset: u64, set: bool) -> (r: Result<
    (),
    PatchError,
>)
    ensures
        tkhd_offset + 4 <= old(data)@.len() ==> r is Ok && final(data)@ == patch_default_spec(
            old(data)@,
            tkhd_offset as int,
            set,
        ),
        tkhd_offset + 4 > old(data)@.len() ==> (r matches Err(e) && e == PatchError::OutOfRange)
            && final(data)@ == old(data)@,
{
    let n = data.len();
    if n < 4 || tkhd_offset > (n - 4) as u64 {
        return Err(PatchError::OutOfRange);
    }
    let base = tkhd_offset as usize;
    let b2 = data[base + 3];
    let nb = if set {
        b2 | 1
    } else {
        b2 & 0xFE
    };
    data[base + 3] = nb;
    proof {
        assert(data@ =~= patch_default_spec(old(data)@, tkhd_offset as int, set));
    }
    Ok(())
}

/// Patch the forced marker of the `stsd` whose payload starts at
/// `stsd_offset`: read the first sample entry header, then overwrite its
/// 4-byte type with the marker when setting; clearing changes nothing.
/// Fails, leaving the data unchanged, exactly when the entry header does
/// not fit in the data.
pub fn patch_stsd_forced(data: &mut Vec<u8>, stsd_offset: u64, set: bool) -> (r: Result<
    (),
    PatchError,
>)
    ensures
        stsd_offset + 24 <= old(data)@.len() ==> r is Ok && final(data)@ == patch_forced_spec(
            old(data)@,
            stsd_offset as int,
            set,
        ),
        stsd_offset + 24 > old(data)@.len() ==> (r matches Err(e) && e == PatchError::OutOfRange)
            && final(data)@ == old(data)@,
{
    let n = data.len();
    if n < 24 || stsd_offset > (n - 24) as u64 {
        return Err(PatchError::OutOfRange);
    }
    let base = stsd_offset as usize;
    if set {
        data[base + 20] = 0x66;
        data[base + 21] = 0x63;
        data[base + 22] = 0x64;
        data[base + 23] = 0x20;
        proof {
            assert(data@ =~= patch_forced_spec(old(data)@, stsd_offset as int, set));
        }
    }
    Ok(())
}

/// The first track of `ts` whose id is `id`, in encounter order.
pub open spec fn find_track_spec(ts: Seq<TrackView>, id: u32) -> Option<TrackView>
    decreases ts.len(),
{
    if ts.len() == 0 {
        None
    } else if ts[0].track_id == id {
        Some(ts[0])
    } else {
        find_track_spec(ts.drop_first(), id)
    }
}

/// Search `tracks` from index `i` for the first record with the given id
/// and hand back its recorded `tkhd` and `stsd` payload offsets.
fn find_track_offsets(tracks: &Vec<Track>, i: usize, id: u32) -> (r: Option<
    (Option<u64>, Option<u64>),
>)
    requires
        i <= tracks@.len(),
    ensures
        match find_track_spec(track_views(tracks@).skip(i as int), id) {
            None => r is None,
            Some(tv) => r == Some((tv.tkhd_offset, tv.stsd_offset)),
        },
    decreases tracks@.len() - i,
{
    proof {
        assert(track_views(tracks@).len() == tracks@.len());
    }
    if i == tracks.len() {
        proof {
            assert(track_views(tracks@).skip(i as int).len() == 0);
        }
        return None;
    }
    let t = &tracks[i];
    proof {
        assert(track_views(tracks@).skip(i as int)[0] == tracks@[i as int]@);
    }
    if t.track_id == id {
        Some((t.tkhd_offset, t.stsd_offset))
    } else {
        proof {
            assert(track_views(tracks@).skip(i as int).drop_first() =~= track_views(
                tracks@,
            ).skip(i as int + 1));
        }
        find_track_offsets(tracks, i + 1, id)
    }
}

/// The outcome of a whole patch operation on `d`: parse, locate the track,
/// patch the requested flag at its recorded offset.
pub open spec fn apply_patch_spec(d: Seq<u8>, id: u32, flag: FlagKind, set: bool) -> Result<
    Seq<u8>,
    PatchError,
> {
    match root_scan_spec(d, 0) {
        None => Err(PatchError::ParseFailed),
        Some(ts) => match find_track_spec(ts, id) {
            None => Err(PatchError::TrackNotFound),
            Some(tv) => match flag {
                FlagKind::Default => match tv.tkhd_offset {
                    None => Err(PatchError::MissingOffset),
                    Some(off) => if off + 4 <= d.len() {
                        Ok(patch_default_spec(d, off as int, set))
                    } else {
                        Err(PatchError::OutOfRange)
                    },
                },
                FlagKind::Forced => match tv.stsd_offset {
                    None => Err(PatchError::MissingOffset),
                    Some(off) => if off + 24 <= d.len() {
                        Ok(patch_forced_spec(d, off as int, set))
                    } else {
                        Err(PatchError::OutOfRange)
                    },
                },
            },
        },
    }
}

/// Parse `data`, find the first track with id `track_id`, and set or clear
/// the requested flag at the offset the parse recorded. On any failure —
/// parse error, unknown track, missing offset, offset out of range — the
/// data is left byte-for-byte unchanged.
pub fn apply_patch(data: &mut Vec<u8>, track_id: u32, flag: FlagKind, set: bool) -> (r: Result<
    (),
    PatchError,
>)
    ensures
        match apply_patch_spec(old(data)@, track_id, flag, set) {
            Ok(d2) => r is Ok && final(data)@ == d2,
            Err(e) => (r matches Err(e2) && e2 == e) && final(data)@ == old(data)@,
        },
{
    let tracks = match parse_mp4(data) {
        Ok(v) => v,
        Err(_) => {
            return Err(PatchError::ParseFailed);
        },
    };
    proof {
        assert(track_views(tracks@).skip(0) =~= track_views(tracks@));
    }
    let (tkhd_off, stsd_off) = match find_track_offsets(&tracks, 0, track_id) {
        Some(p) => p,
        None => {
            return Err(PatchError::TrackNotFound);
        },
    };
    match flag {
        FlagKind::Default => match tkhd_off {
            Some(off) => patch_tkhd_flag(data, off, set),
            None => Err(PatchError::MissingOffset),
        },
        FlagKind::Forced => match stsd_off {
            Some(off) => patch_stsd_forced(data, off, set),
            None => Err(PatchError::MissingOffset),
        },
    }
}

} // verus!
