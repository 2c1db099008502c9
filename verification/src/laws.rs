//! Laws relating the walker, the decoders and the patcher: what a patch
//! changes and preserves, and how the two box-size forms drive traversal.

use vstd::prelude::*;
use crate::bytes::{be32_at, be64_at};
use crate::parse::{
    resolve_box_spec, decode_tkhd_spec, moov_children_spec, TAG_TRAK,
};
use crate::patch::patch_default_spec;
use crate::track::TrackView;

verus! {

/// Patching the default flag touches nothing but bit 0 of the third flags
/// byte: the length is kept, every byte outside the flags field keeps its
/// value, and even within the patched byte the upper seven bits survive.
pub proof fn lemma_patch_default_isolation(d: Seq<u8>, off: int, set: bool)
    requires
        0 <= off,
        off + 4 <= d.len(),
    ensures
        patch_default_spec(d, off, set).len() == d.len(),
        forall|i: int|
            0 <= i < d.len() && i != off + 3 ==> patch_default_spec(d, off, set)[i] == d[i],
        patch_default_spec(d, off, set)[off + 3] / 2 == d[off + 3] / 2,
        patch_default_spec(d, off, set)[off + 3] % 2 == (if set {
            1u8
        } else {
            0u8
        }),
{
    let b = d[off + 3];
    assert((b | 1) / 2 == b / 2 && (b | 1) % 2 == 1) by (bit_vector);
    assert((b & 0xFE) / 2 == b / 2 && (b & 0xFE) % 2 == 0) by (bit_vector);
}

/// Round trip at the `tkhd` decoder: patching the default flag at the
/// offset the decoder records changes exactly that flag in what a second
/// decode of the same box yields — the track id, the version handling and
/// every other decoded field are unchanged, and clearing after setting
/// restores the original record when the flag started out clear.
pub proof fn lemma_default_flag_round_trip(d: Seq<u8>, pos: int, t: TrackView, set: bool)
    requires
        0 <= pos,
        decode_tkhd_spec(d, pos, t) is Some,
    ensures
        ({
            let tv = decode_tkhd_spec(d, pos, t)->Some_0;
            let d2 = patch_default_spec(d, pos + 8, set);
            decode_tkhd_spec(d2, pos, t) == Some(TrackView { default_flag: set, ..tv })
        }),
{
    let p = pos + 8;
    let d2 = patch_default_spec(d, p, set);
    let b = d[p + 3];
    assert((b | 1) % 2 == 1) by (bit_vector);
    assert((b & 0xFE) % 2 == 0) by (bit_vector);
    assert(d2[p] == d[p]);
    let idpos = if d[p] == 1 {
        p + 20
    } else {
        p + 12
    };
    assert(be32_at(d2, idpos) == be32_at(d, idpos));
}

/// Clearing the default flag right after setting it restores the data
/// byte for byte, whenever the flag started out clear; and setting or
/// clearing twice is the same as doing it once.
pub proof fn lemma_patch_default_revert(d: Seq<u8>, off: int, set: bool)
    requires
        0 <= off,
        off + 4 <= d.len(),
    ensures
        d[off + 3] % 2 == 0 && !set ==> patch_default_spec(
            patch_default_spec(d, off, true),
            off,
            false,
        ) =~= d,
        patch_default_spec(patch_default_spec(d, off, set), off, set) =~= patch_default_spec(
            d,
            off,
            set,
        ),
{
    let b = d[off + 3];
    assert(b % 2 == 0 ==> (b | 1) & 0xFE == b) by (bit_vector);
    assert((b | 1) | 1 == b | 1 && (b & 0xFE) & 0xFE == b & 0xFE) by (bit_vector);
}

/// A box whose 32-bit size field holds the sentinel 1 resolves to the
/// following 64-bit extended size: for child iteration it is treated
/// identically to an ordinary box whose total length is that value, since
/// every scan advances by the resolved size alone.
pub proof fn lemma_extended_size(d: Seq<u8>, pos: int, end: int)
    requires
        pos + 16 <= d.len(),
        be32_at(d, pos) == 1,
    ensures
        resolve_box_spec(d, pos, end) == Some(
            (be64_at(d, pos + 8) as int, be32_at(d, pos + 4)),
        ),
{
}

/// An ordinary box resolves to the literal value of its 32-bit size field,
/// whatever the enclosing container's end.
pub proof fn lemma_plain_size(d: Seq<u8>, pos: int, end: int)
    requires
        pos + 8 <= d.len(),
        be32_at(d, pos) != 0,
        be32_at(d, pos) != 1,
    ensures
        resolve_box_spec(d, pos, end) == Some((be32_at(d, pos) as int, be32_at(d, pos + 4))),
{
}

/// A child with a 32-bit size field of 0 extends exactly to its
/// container's end, and traversal of that container terminates cleanly
/// after it: no further sibling is attempted.
pub proof fn lemma_zero_size_terminal(d: Seq<u8>, pos: int, end: int)
    requires
        pos + 8 <= end,
        pos + 8 <= d.len(),
        end <= u64::MAX,
        be32_at(d, pos) == 0,
        be32_at(d, pos + 4) != TAG_TRAK,
    ensures
        moov_children_spec(d, pos, end) == Some(Seq::<TrackView>::empty()),
{
    assert(resolve_box_spec(d, pos, end) == Some((end - pos, be32_at(d, pos + 4))));
    assert(moov_children_spec(d, end, end) == Some(Seq::<TrackView>::empty()));
}

} // verus!
