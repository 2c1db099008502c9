use mp4track::bytes::{read_u8, read_u16, read_u32, read_u64, read_type};
use mp4track::parse::{parse_mp4, ParseError};
use mp4track::patch::{apply_patch, FlagKind, PatchError};
use mp4track::track::{decode_mp4_language, entry_type_is_forced};

fn boxed(tag: &[u8; 4], payload: &[u8]) -> Vec<u8> {
    let mut v = Vec::new();
    v.extend_from_slice(&((payload.len() as u32) + 8).to_be_bytes());
    v.extend_from_slice(tag);
    v.extend_from_slice(payload);
    v
}

fn tkhd(flags: u32, id: u32) -> Vec<u8> {
    let mut p = Vec::new();
    p.push(0u8); // version 0
    p.push((flags >> 16) as u8);
    p.push((flags >> 8) as u8);
    p.push(flags as u8);
    p.extend_from_slice(&[0u8; 8]); // creation + modification
    p.extend_from_slice(&id.to_be_bytes());
    boxed(b"tkhd", &p)
}

fn mdhd(lang: u16) -> Vec<u8> {
    let mut p = Vec::new();
    p.extend_from_slice(&[0u8; 4]); // version + flags
    p.extend_from_slice(&[0u8; 8]); // creation + modification
    p.extend_from_slice(&[0u8; 4]); // timescale
    p.extend_from_slice(&[0u8; 4]); // duration
    p.extend_from_slice(&lang.to_be_bytes());
    boxed(b"mdhd", &p)
}

fn hdlr(subtype: &[u8; 4]) -> Vec<u8> {
    let mut p = Vec::new();
    p.extend_from_slice(&[0u8; 4]); // version + flags
    p.extend_from_slice(&[0u8; 4]); // pre-defined
    p.extend_from_slice(subtype);
    boxed(b"hdlr", &p)
}

fn stsd(entry_type: &[u8; 4]) -> Vec<u8> {
    let mut p = Vec::new();
    p.extend_from_slice(&[0u8; 4]); // version + flags
    p.extend_from_slice(&1u32.to_be_bytes()); // entry count
    p.extend_from_slice(&16u32.to_be_bytes()); // entry size
    p.extend_from_slice(entry_type);
    p.extend_from_slice(&[0u8; 8]); // entry body
    boxed(b"stsd", &p)
}

fn trak_full(flags: u32, id: u32, lang: u16, subtype: &[u8; 4], entry: &[u8; 4]) -> Vec<u8> {
    let mut mdia_payload = mdhd(lang);
    mdia_payload.extend_from_slice(&hdlr(subtype));
    let stbl = boxed(b"stbl", &stsd(entry));
    let minf = boxed(b"minf", &stbl);
    mdia_payload.extend_from_slice(&minf);
    let mdia = boxed(b"mdia", &mdia_payload);
    let mut trak_payload = tkhd(flags, id);
    trak_payload.extend_from_slice(&mdia);
    boxed(b"trak", &trak_payload)
}

fn file_of(traks: &[Vec<u8>]) -> Vec<u8> {
    let mut moov_payload = Vec::new();
    for t in traks {
        moov_payload.extend_from_slice(t);
    }
    let mut f = boxed(b"ftyp", &[0u8; 8]);
    f.extend_from_slice(&boxed(b"moov", &moov_payload));
    f
}

fn one_track_file() -> Vec<u8> {
    file_of(&[trak_full(0, 1, 0x15C7, b"vide", b"avc1")])
}

#[test]
fn read_primitives() {
    let data = vec![0x12u8, 0x34, 0x56, 0x78, 0x9A, 0xBC, 0xDE, 0xF0];
    assert_eq!(read_u8(&data, 0), Some(0x12));
    assert_eq!(read_u8(&data, 7), Some(0xF0));
    assert_eq!(read_u8(&data, 8), None);
    assert_eq!(read_u16(&data, 0), Some(0x1234));
    assert_eq!(read_u16(&data, 7), None);
    assert_eq!(read_u32(&data, 0), Some(0x12345678));
    assert_eq!(read_u32(&data, 4), Some(0x9ABCDEF0));
    assert_eq!(read_u32(&data, 5), None);
    assert_eq!(read_u64(&data, 0), Some(0x123456789ABCDEF0));
    assert_eq!(read_u64(&data, 1), None);
}

#[test]
fn read_type_text() {
    let data = b"ftypisom".to_vec();
    assert_eq!(read_type(&data, 0).as_deref(), Some("ftyp"));
    assert_eq!(read_type(&data, 4).as_deref(), Some("isom"));
    assert_eq!(read_type(&data, 5), None);
    let bad = vec![0xFFu8, 0xFE, 0x80, 0x41];
    assert_eq!(
        read_type(&bad, 0).as_deref(),
        Some("\u{FFFD}\u{FFFD}\u{FFFD}A")
    );
}

#[test]
fn language_decoding() {
    assert_eq!(decode_mp4_language(0), None);
    assert_eq!(decode_mp4_language(0x15C7).as_deref(), Some("eng"));
    // "und": u = 21, n = 14, d = 4, packed as three 5-bit groups.
    let und = (21u16 << 10) | (14 << 5) | 4;
    assert_eq!(decode_mp4_language(und).as_deref(), Some("und"));
}

#[test]
fn list_one_track() {
    let f = one_track_file();
    let tracks = parse_mp4(&f).unwrap();
    assert_eq!(tracks.len(), 1);
    let t = &tracks[0];
    assert_eq!(t.track_id, 1);
    assert_eq!(t.typ.as_deref(), Some("video"));
    assert_eq!(t.lang.as_deref(), Some("eng"));
    assert!(!t.default_flag);
    assert!(!t.forced_flag);
    assert!(t.tkhd_offset.is_some());
    assert!(t.stsd_offset.is_some());
    assert!(t.mdhd_offset.is_some());
}

#[test]
fn track_type_classification() {
    let f = file_of(&[
        trak_full(0, 1, 0, b"soun", b"mp4a"),
        trak_full(0, 2, 0, b"subt", b"tx3g"),
        trak_full(0, 3, 0, b"sbtl", b"tx3g"),
        trak_full(0, 4, 0, b"text", b"tx3g"),
        trak_full(0, 5, 0, b"meta", b"mett"),
    ]);
    let tracks = parse_mp4(&f).unwrap();
    assert_eq!(tracks.len(), 5);
    assert_eq!(tracks[0].typ.as_deref(), Some("audio"));
    assert_eq!(tracks[1].typ.as_deref(), Some("subtitle"));
    assert_eq!(tracks[2].typ.as_deref(), Some("subtitle"));
    assert_eq!(tracks[3].typ.as_deref(), Some("subtitle"));
    assert_eq!(tracks[4].typ.as_deref(), Some("meta"));
    assert_eq!(tracks[0].lang, None);
}

#[test]
fn zero_track_id_dropped() {
    let f = file_of(&[
        trak_full(0, 0, 0, b"vide", b"avc1"),
        trak_full(0, 7, 0, b"soun", b"mp4a"),
    ]);
    let tracks = parse_mp4(&f).unwrap();
    assert_eq!(tracks.len(), 1);
    assert_eq!(tracks[0].track_id, 7);
}

#[test]
fn forced_heuristic() {
    let forced = file_of(&[trak_full(0, 1, 0, b"subt", b"fcd1")]);
    let plain = file_of(&[trak_full(0, 1, 0, b"vide", b"avc1")]);
    assert!(parse_mp4(&forced).unwrap()[0].forced_flag);
    assert!(!parse_mp4(&plain).unwrap()[0].forced_flag);
    assert!(entry_type_is_forced(b'f', b'c', b'd', b'1'));
    assert!(entry_type_is_forced(b'F', b'C', b'D', b' '));
    assert!(entry_type_is_forced(b'x', b'f', b'c', b'd'));
    assert!(!entry_type_is_forced(b'a', b'v', b'c', b'1'));
    assert!(!entry_type_is_forced(b'f', b'c', b'x', b'd'));
}

#[test]
fn extended_size_box() {
    // A skipped root box in extended-size form must advance traversal
    // exactly as an ordinary box of the same total length.
    let trak = trak_full(0, 3, 0, b"vide", b"avc1");
    let moov = boxed(b"moov", &trak);

    let mut plain = boxed(b"free", &[0xAAu8; 24]); // total length 32
    plain.extend_from_slice(&moov);

    let mut ext = Vec::new();
    ext.extend_from_slice(&1u32.to_be_bytes()); // sentinel: extended size
    ext.extend_from_slice(b"free");
    ext.extend_from_slice(&32u64.to_be_bytes()); // true total length
    ext.extend_from_slice(&[0xAAu8; 16]); // padding to 32 bytes total
    ext.extend_from_slice(&moov);

    let a = parse_mp4(&plain).unwrap();
    let b = parse_mp4(&ext).unwrap();
    assert_eq!(a.len(), 1);
    assert_eq!(b.len(), 1);
    assert_eq!(a[0].track_id, 3);
    assert_eq!(b[0].track_id, 3);
    assert_eq!(a[0].typ, b[0].typ);
    assert_eq!(a[0].default_flag, b[0].default_flag);
    assert_eq!(a[0].forced_flag, b[0].forced_flag);
}

#[test]
fn zero_size_terminal_box() {
    // A last child with size field 0 extends to the container's end and
    // ends traversal of that container cleanly.
    let trak = trak_full(0, 9, 0, b"vide", b"avc1");
    let mut moov_payload = trak;
    moov_payload.extend_from_slice(&0u32.to_be_bytes()); // size 0
    moov_payload.extend_from_slice(b"free");
    moov_payload.extend_from_slice(&[0u8; 16]);
    let mut f = boxed(b"ftyp", &[0u8; 8]);
    f.extend_from_slice(&boxed(b"moov", &moov_payload));
    let tracks = parse_mp4(&f).unwrap();
    assert_eq!(tracks.len(), 1);
    assert_eq!(tracks[0].track_id, 9);
}

#[test]
fn default_flag_round_trip() {
    let original = one_track_file();
    let mut f = original.clone();
    assert_eq!(apply_patch(&mut f, 1, FlagKind::Default, true), Ok(()));
    let after_set = parse_mp4(&f).unwrap();
    assert_eq!(after_set.len(), 1);
    assert!(after_set[0].default_flag);
    assert_eq!(after_set[0].track_id, 1);
    assert_eq!(after_set[0].typ.as_deref(), Some("video"));
    assert_eq!(after_set[0].lang.as_deref(), Some("eng"));
    assert!(!after_set[0].forced_flag);
    assert_eq!(apply_patch(&mut f, 1, FlagKind::Default, false), Ok(()));
    let after_unset = parse_mp4(&f).unwrap();
    assert!(!after_unset[0].default_flag);
    assert_eq!(f, original);
}

#[test]
fn flag_isolation() {
    let original = file_of(&[
        trak_full(0, 1, 0x15C7, b"vide", b"avc1"),
        trak_full(0, 2, 0, b"soun", b"mp4a"),
    ]);
    let mut f = original.clone();
    assert_eq!(apply_patch(&mut f, 1, FlagKind::Default, true), Ok(()));
    assert_eq!(f.len(), original.len());
    let tkhd_off = parse_mp4(&original).unwrap()[0].tkhd_offset.unwrap() as usize;
    let changed: Vec<usize> = (0..f.len()).filter(|&i| f[i] != original[i]).collect();
    assert_eq!(changed, vec![tkhd_off + 3]);
    assert_eq!(f[tkhd_off + 3], original[tkhd_off + 3] | 1);
    let second = parse_mp4(&f).unwrap();
    assert!(!second[1].default_flag);
    assert_eq!(second[1].track_id, 2);
    assert_eq!(second[0].lang.as_deref(), Some("eng"));
    assert_eq!(second[1].lang, None);
}

#[test]
fn unknown_track_patch() {
    let original = one_track_file();
    let mut f = original.clone();
    assert_eq!(
        apply_patch(&mut f, 9999, FlagKind::Default, true),
        Err(PatchError::TrackNotFound)
    );
    assert_eq!(f, original);
}

#[test]
fn missing_stsd_offset() {
    // A trak with a tkhd but no stbl/stsd: the forced patch has no offset.
    let mut trak_payload = tkhd(0, 5);
    trak_payload.extend_from_slice(&boxed(b"mdia", &mdhd(0)));
    let trak = boxed(b"trak", &trak_payload);
    let mut f = boxed(b"ftyp", &[0u8; 8]);
    f.extend_from_slice(&boxed(b"moov", &trak));
    let original = f.clone();
    assert_eq!(
        apply_patch(&mut f, 5, FlagKind::Forced, true),
        Err(PatchError::MissingOffset)
    );
    assert_eq!(f, original);
}

#[test]
fn truncated_file_fails() {
    let mut f = one_track_file();
    // Cut into the tkhd payload so the track id read runs past the end.
    f.truncate(50);
    assert!(matches!(parse_mp4(&f), Err(ParseError::UnexpectedEof)));
}

#[test]
fn patch_forced_writes_marker() {
    let original = one_track_file();
    let mut f = original.clone();
    let stsd_off = parse_mp4(&original).unwrap()[0].stsd_offset.unwrap() as usize;
    assert_eq!(apply_patch(&mut f, 1, FlagKind::Forced, true), Ok(()));
    assert_eq!(&f[stsd_off + 20..stsd_off + 24], b"fcd ");
    for i in 0..f.len() {
        if i < stsd_off + 20 || i >= stsd_off + 24 {
            assert_eq!(f[i], original[i]);
        }
    }
    // Clearing the forced flag is a documented no-op.
    let before_unset = f.clone();
    assert_eq!(apply_patch(&mut f, 1, FlagKind::Forced, false), Ok(()));
    assert_eq!(f, before_unset);
}

#[test]
fn short_sample_entry_is_soft() {
    // An stsd with no entries: the forced flag stays false and parsing
    // succeeds; patching forced fails because the entry header has no room.
    let empty_stsd = {
        let mut p = Vec::new();
        p.extend_from_slice(&[0u8; 4]);
        p.extend_from_slice(&0u32.to_be_bytes());
        boxed(b"stsd", &p)
    };
    let stbl = boxed(b"stbl", &empty_stsd);
    let minf = boxed(b"minf", &stbl);
    let mut mdia_payload = mdhd(0);
    mdia_payload.extend_from_slice(&minf);
    let mdia = boxed(b"mdia", &mdia_payload);
    let mut trak_payload = tkhd(0, 4);
    trak_payload.extend_from_slice(&mdia);
    let trak = boxed(b"trak", &trak_payload);
    let mut f = boxed(b"ftyp", &[0u8; 8]);
    f.extend_from_slice(&boxed(b"moov", &trak));
    let tracks = parse_mp4(&f).unwrap();
    assert_eq!(tracks.len(), 1);
    assert!(!tracks[0].forced_flag);
    let original = f.clone();
    assert_eq!(
        apply_patch(&mut f, 4, FlagKind::Forced, true),
        Err(PatchError::OutOfRange)
    );
    assert_eq!(f, original);
}

#[test]
fn multiple_tracks_in_order() {
    let f = file_of(&[
        trak_full(1, 10, 0, b"vide", b"avc1"),
        trak_full(0, 11, 0x15C7, b"soun", b"mp4a"),
        trak_full(0, 12, 0, b"subt", b"fcd1"),
    ]);
    let tracks = parse_mp4(&f).unwrap();
    let ids: Vec<u32> = tracks.iter().map(|t| t.track_id).collect();
    assert_eq!(ids, vec![10, 11, 12]);
    assert!(tracks[0].default_flag);
    assert!(!tracks[1].default_flag);
    assert!(tracks[2].forced_flag);
}

#[test]
fn patch_on_unparsable_file_fails() {
    let mut f = one_track_file();
    // Cut into the tkhd payload: the patch pass first re-parses and fails.
    f.truncate(50);
    let original = f.clone();
    assert_eq!(
        apply_patch(&mut f, 1, FlagKind::Default, true),
        Err(PatchError::ParseFailed)
    );
    assert_eq!(f, original);
}

#[test]
fn bytes_outside_moov_do_not_matter() {
    // The walker reads nothing outside the boxes it visits: changing a
    // byte inside a skipped root box leaves the decoded tracks unchanged.
    let mut f = one_track_file();
    let a = parse_mp4(&f).unwrap();
    f[10] ^= 0xFF; // inside the ftyp payload
    let b = parse_mp4(&f).unwrap();
    assert_eq!(a.len(), b.len());
    assert_eq!(a[0].track_id, b[0].track_id);
    assert_eq!(a[0].typ, b[0].typ);
    assert_eq!(a[0].lang, b[0].lang);
    assert_eq!(a[0].default_flag, b[0].default_flag);
    assert_eq!(a[0].forced_flag, b[0].forced_flag);
    assert_eq!(a[0].tkhd_offset, b[0].tkhd_offset);
}
