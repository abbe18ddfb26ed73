use mov_metadata::atom::{
    check_file_signature, read_metadata, walk_atoms, Atom, AtomReadError, MovError,
};
use mov_metadata::bytes::Endian;
use mov_metadata::fourcc::{
    ART, COVR, ESDS, FTYP, GNRE, META, MOOV, MVHD, NAM, STSD, TKHD, TRAK, TRKN, UDTA,
};
use mov_metadata::metadata::{decode_mvhd, MovieHeader, VideoAtom, VideoMetadata};
use mov_metadata::tag::{VideoTag, VideoTagFormat};

fn atom(size: u32, kind: &[u8; 4], payload: &[u8]) -> Vec<u8> {
    let mut v = size.to_be_bytes().to_vec();
    v.extend_from_slice(kind);
    v.extend_from_slice(payload);
    v
}

fn ftyp(brand: &[u8; 4]) -> Vec<u8> {
    let mut payload = brand.to_vec();
    payload.extend_from_slice(&[0u8; 8]);
    atom(20, b"ftyp", &payload)
}

#[test]
fn signature_accepts_quicktime_brand() {
    assert!(check_file_signature(&ftyp(b"qt  ")));
}

#[test]
fn signature_rejects_unknown_brand() {
    assert!(!check_file_signature(&ftyp(b"xxxx")));
}

#[test]
fn signature_accepts_each_listed_brand() {
    for b in [b"mp41", b"mp42", b"isom", b"M4V ", b"M4A "] {
        assert!(check_file_signature(&ftyp(b)));
    }
}

#[test]
fn signature_rejects_short_and_wrong_buffers() {
    assert!(!check_file_signature(&[]));
    assert!(!check_file_signature(&ftyp(b"qt  ")[..11]));
    assert!(!check_file_signature(&atom(20, b"moov", b"qt  \0\0\0\0\0\0\0\0")));
    assert!(!check_file_signature(&atom(4, b"ftyp", b"qt  \0\0\0\0\0\0\0\0")));
}

#[test]
fn read_from_reads_header() {
    let data = atom(16, b"moov", &[0xAA; 8]);
    let a = Atom::read_from(&data, 0).unwrap();
    assert_eq!(a, Atom { size: 16, atom_type: MOOV, data_offset: 8, data_size: 8 });
    assert_eq!(Atom::read_from(&data, 9), Err(AtomReadError::EndOfData));
    let bad = atom(7, b"moov", &[]);
    assert_eq!(Atom::read_from(&bad, 0), Err(AtomReadError::InvalidSize));
}

#[test]
fn extraction_returns_moov_payload() {
    let mut data = ftyp(b"qt  ");
    data.extend(atom(16, b"moov", &[0xAA; 8]));
    assert_eq!(read_metadata(&data), Ok(vec![0xAA; 8]));
}

#[test]
fn extraction_skips_other_atoms() {
    let mut data = ftyp(b"isom");
    data.extend(atom(12, b"free", &[1, 2, 3, 4]));
    data.extend(atom(10, b"moov", &[7, 9]));
    data.extend(atom(8, b"mdat", &[]));
    assert_eq!(read_metadata(&data), Ok(vec![7, 9]));
}

#[test]
fn extraction_without_moov_is_not_found() {
    let mut data = ftyp(b"qt  ");
    data.extend(atom(12, b"mdat", &[0; 4]));
    assert_eq!(read_metadata(&data), Err(MovError::NotFound));
    // a truncated atom ends the walk
    let mut data = ftyp(b"qt  ");
    data.extend(atom(100, b"mdat", &[0; 4]));
    assert_eq!(read_metadata(&data), Err(MovError::NotFound));
}

#[test]
fn extraction_reports_undersized_atom_offset() {
    let mut data = ftyp(b"qt  ");
    data.extend(atom(12, b"free", &[0; 4]));
    data.extend(atom(4, b"junk", &[]));
    assert_eq!(read_metadata(&data), Err(MovError::InvalidFormat { offset: 32 }));
}

#[test]
fn extraction_rejects_bad_signature() {
    let mut data = ftyp(b"xxxx");
    data.extend(atom(16, b"moov", &[0xAA; 8]));
    assert_eq!(read_metadata(&data), Err(MovError::InvalidFormat { offset: 0 }));
}

#[test]
fn extraction_rejects_truncated_moov() {
    let mut data = ftyp(b"qt  ");
    data.extend(atom(40, b"moov", &[0xAA; 8]));
    assert_eq!(read_metadata(&data), Err(MovError::InvalidFormat { offset: 20 }));
}

#[test]
fn walker_stops_at_bound() {
    let mut data = atom(12, b"free", &[0; 4]);
    data.extend(atom(16, b"mdat", &[0; 8]));
    data.extend(atom(64, b"skip", &[0; 4]));
    let hs = walk_atoms(&data, 0, data.len()).unwrap();
    assert_eq!(hs.len(), 3);
    assert_eq!(hs[1].data_offset, 20);
    assert_eq!(hs[2].size, 64);
    // a bound inside the second atom
    let hs = walk_atoms(&data, 0, 20).unwrap();
    assert_eq!(hs.len(), 2);
    // fewer than eight bytes left
    let hs = walk_atoms(&data, 0, 15).unwrap();
    assert_eq!(hs.len(), 1);
}

#[test]
fn walker_reports_undersized_atom() {
    let mut data = atom(12, b"free", &[0; 4]);
    data.extend(atom(3, b"bad!", &[]));
    assert_eq!(walk_atoms(&data, 0, data.len()), Err(MovError::InvalidFormat { offset: 12 }));
}

#[test]
fn tag_atom_types() {
    assert_eq!(VideoTag::Duration(vec![1]).as_u32(), MVHD);
    assert_eq!(VideoTag::Width(vec![1]).as_u32(), TKHD);
    assert_eq!(VideoTag::Bitrate(vec![1]).as_u32(), STSD);
    assert_eq!(VideoTag::Title("x".to_string()).as_u32(), NAM);
    assert_eq!(VideoTag::AlbumArtist("x".to_string()).as_u32(), 0x61415254);
    assert_eq!(VideoTag::CoverArt(vec![]).as_u32(), 0x636F7672);
    assert_eq!(VideoTag::AudioCodecConfig(vec![]).as_u32(), ESDS);
    assert_eq!(VideoTag::UnknownVINT8U(vec![], 0x12345678).as_u32(), 0x12345678);
}

#[test]
fn tag_essential_kinds() {
    assert!(VideoTag::Duration(vec![]).is_essential_tag());
    assert!(VideoTag::Width(vec![]).is_essential_tag());
    assert!(VideoTag::Height(vec![]).is_essential_tag());
    assert!(VideoTag::Timescale(vec![]).is_essential_tag());
    assert!(!VideoTag::Title(String::new()).is_essential_tag());
    assert!(!VideoTag::CreationTime(0).is_essential_tag());
}

#[test]
fn fourcc_text_with_copyright_sign() {
    assert_eq!(VideoTag::Title("t".to_string()).fourcc_as_string(), "\u{A9}nam");
    assert_eq!(VideoTag::Duration(vec![]).fourcc_as_string(), "mvhd");
    assert_eq!(VideoTag::GenreID(vec![]).fourcc_as_string(), "gnre");
}

#[test]
fn tag_values_big_endian() {
    let e = Endian::Big;
    assert_eq!(VideoTag::Tempo(vec![0x0102, 0x0304]).value_as_u8_vec(&e), vec![1, 2, 3, 4]);
    assert_eq!(VideoTag::Width(vec![1920]).value_as_u8_vec(&e), vec![0, 0, 7, 0x80]);
    assert_eq!(
        VideoTag::Duration(vec![0x0102030405060708]).value_as_u8_vec(&e),
        vec![1, 2, 3, 4, 5, 6, 7, 8]
    );
    assert_eq!(VideoTag::CreationTime(1).value_as_u8_vec(&e), vec![0, 0, 0, 0, 0, 0, 0, 1]);
    assert_eq!(VideoTag::VideoCodec(0x61766331).value_as_u8_vec(&e), b"avc1".to_vec());
    assert_eq!(VideoTag::Title("h\u{e9}".to_string()).value_as_u8_vec(&e), vec![0x68, 0xC3, 0xA9]);
    assert_eq!(VideoTag::CoverArt(vec![9, 8, 7]).value_as_u8_vec(&e), vec![9, 8, 7]);
    assert_eq!(VideoTag::Framerate(vec![0x41F00000]).value_as_u8_vec(&e), vec![0x41, 0xF0, 0, 0]);
    let m = VideoTag::TransformMatrix([-1, 0, 0, 0, 1, 0, 0, 0, 2]).value_as_u8_vec(&e);
    assert_eq!(m.len(), 36);
    assert_eq!(&m[0..4], &[0xFF, 0xFF, 0xFF, 0xFF]);
    assert_eq!(&m[32..36], &[0, 0, 0, 2]);
}

#[test]
fn tag_values_little_endian() {
    let e = Endian::Little;
    assert_eq!(VideoTag::Width(vec![1920]).value_as_u8_vec(&e), vec![0x80, 7, 0, 0]);
    assert_eq!(VideoTag::Tempo(vec![0x0102]).value_as_u8_vec(&e), vec![2, 1]);
}

#[test]
fn tag_format_variants_compare() {
    assert_eq!(VideoTagFormat::VSTRING, VideoTagFormat::VSTRING);
    assert_ne!(VideoTagFormat::VINT8U, VideoTagFormat::VBINARY);
}

#[test]
fn set_tag_replaces_same_identity() {
    let mut m = VideoMetadata::new();
    m.set_tag(VideoTag::Title("first".to_string()));
    m.set_tag(VideoTag::Title("second".to_string()));
    let c = m.get_atom(NAM).unwrap();
    assert_eq!(c.get_tags(), &vec![VideoTag::Title("second".to_string())]);
    assert_eq!(m.get_atoms().len(), 1);
}

#[test]
fn set_tag_keeps_other_identities() {
    let mut m = VideoMetadata::new();
    m.set_tag(VideoTag::Duration(vec![10]));
    m.set_tag(VideoTag::Timescale(vec![600]));
    m.set_tag(VideoTag::Duration(vec![20]));
    let c = m.get_atom(MVHD).unwrap();
    assert_eq!(
        c.get_tags(),
        &vec![VideoTag::Timescale(vec![600]), VideoTag::Duration(vec![20])]
    );
    assert_eq!(c.get_atom_type(), MVHD);
    assert_eq!(c.get_size(), 0);
}

#[test]
fn create_atom_never_duplicates() {
    let mut m = VideoMetadata::new();
    m.create_atom(TRAK);
    m.create_atom(TRAK);
    assert_eq!(m.get_atoms().len(), 1);
    assert!(m.get_atom(TRAK).unwrap().get_tags().is_empty());
    assert!(m.get_atom(MOOV).is_none());
}

#[test]
fn minimize_keeps_essentials() {
    let mut m = VideoMetadata::new();
    m.set_tag(VideoTag::Duration(vec![10]));
    m.set_tag(VideoTag::CreationTime(5));
    m.set_tag(VideoTag::Title("x".to_string()));
    m.reduce_to_minimum();
    assert_eq!(m.get_atoms().len(), 1);
    assert_eq!(m.get_atom(MVHD).unwrap().get_tags(), &vec![VideoTag::Duration(vec![10])]);
    assert!(m.get_atom(NAM).is_none());
}

#[test]
fn sort_orders_by_priority() {
    let mut m = VideoMetadata::new();
    m.create_atom(UDTA);
    m.create_atom(META);
    m.create_atom(NAM);
    m.create_atom(TRAK);
    m.create_atom(MVHD);
    m.create_atom(MOOV);
    m.create_atom(FTYP);
    m.sort_data();
    let order: Vec<u32> = m.get_atoms().iter().map(|c| c.get_atom_type()).collect();
    assert_eq!(order, vec![FTYP, MOOV, MVHD, TRAK, META, UDTA, NAM]);
}

#[test]
fn tags_in_order_flattens_all() {
    let mut m = VideoMetadata::new();
    m.set_tag(VideoTag::Title("a".to_string()));
    m.set_tag(VideoTag::Duration(vec![1]));
    m.set_tag(VideoTag::Timescale(vec![2]));
    m.set_tag(VideoTag::Artist("b".to_string()));
    let all = m.tags_in_order();
    assert_eq!(
        all,
        vec![
            &VideoTag::Title("a".to_string()),
            &VideoTag::Duration(vec![1]),
            &VideoTag::Timescale(vec![2]),
            &VideoTag::Artist("b".to_string()),
        ]
    );
    // a fresh traversal starts over
    assert_eq!(m.tags_in_order().len(), 4);
}

#[test]
fn encode_empty_model_is_ftyp_only() {
    let m = VideoMetadata::new();
    let bytes = m.encode().unwrap();
    let mut expected = atom(24, b"ftyp", b"mp41");
    expected.extend_from_slice(&[0, 0, 0, 0]);
    expected.extend_from_slice(b"mp41isom");
    assert_eq!(bytes, expected);
    assert_eq!(m.get_endian(), Endian::Big);
}

#[test]
fn encode_generic_and_meta_atoms() {
    let mut m = VideoMetadata::new();
    m.set_tag_in(META, VideoTag::UnknownVBINARY(vec![1, 2], META));
    m.set_tag(VideoTag::Width(vec![640]));
    let bytes = m.encode().unwrap();
    let mut expected = bytes[..24].to_vec();
    expected.extend(atom(14, b"meta", &[0, 0, 0, 0, 1, 2]));
    expected.extend(atom(12, b"tkhd", &[0, 0, 2, 0x80]));
    assert_eq!(bytes, expected);
}

#[test]
fn encode_default_movie_header() {
    let mut m = VideoMetadata::new();
    m.create_atom(MVHD);
    let bytes = m.encode().unwrap();
    assert_eq!(bytes.len(), 24 + 120);
    assert_eq!(&bytes[24..32], &[0, 0, 0, 120, b'm', b'v', b'h', b'd']);
    let h = decode_mvhd(&bytes[32..]).unwrap();
    assert_eq!(
        h,
        MovieHeader {
            creation_time: 0,
            modification_time: 0,
            timescale: 1000,
            duration: 0,
            matrix: [0x00010000, 0, 0, 0, 0x00010000, 0, 0, 0, 0x40000000],
        }
    );
    // rate 1.0, volume 1.0, next track id 1
    assert_eq!(&bytes[32 + 32..32 + 38], &[0, 1, 0, 0, 1, 0]);
    assert_eq!(&bytes[32 + 108..32 + 112], &[0, 0, 0, 1]);
}

#[test]
fn movie_header_round_trip() {
    let mx = [1, 2, 3, -4, 5, 6, 7, 8, 0x40000000];
    let mut m = VideoMetadata::new();
    m.set_tag_in(MVHD, VideoTag::CreationTime(3_600_000_000));
    m.set_tag_in(MVHD, VideoTag::ModificationTime(3_700_000_000));
    m.set_tag_in(MVHD, VideoTag::Timescale(vec![600]));
    m.set_tag_in(MVHD, VideoTag::Duration(vec![123_456]));
    m.set_tag_in(MVHD, VideoTag::TransformMatrix(mx));
    let bytes = m.encode().unwrap();
    let hs = walk_atoms(&bytes, 0, bytes.len()).unwrap();
    assert_eq!(hs.len(), 2);
    assert_eq!(hs[0].atom_type, FTYP);
    assert_eq!(hs[1].atom_type, MVHD);
    let start = hs[1].data_offset as usize;
    let end = start + hs[1].data_size as usize;
    let h = decode_mvhd(&bytes[start..end]).unwrap();
    assert_eq!(
        h,
        MovieHeader {
            creation_time: 3_600_000_000,
            modification_time: 3_700_000_000,
            timescale: 600,
            duration: 123_456,
            matrix: mx,
        }
    );
}

#[test]
fn decode_reads_nested_atoms() {
    let mut mvhd_body = vec![0u8; 112];
    mvhd_body[20..24].copy_from_slice(&600u32.to_be_bytes());
    mvhd_body[24..32].copy_from_slice(&42u64.to_be_bytes());
    let mut moov = atom(120, b"mvhd", &mvhd_body);
    let stsd = atom(12, b"stsd", &[5, 6, 7, 8]);
    let trak = atom(20, b"trak", &stsd);
    moov.extend(trak);
    let title = atom(10, b"\xA9nam", b"hi");
    let ilst = atom(18, b"ilst", &title);
    let mut meta_payload = vec![0, 0, 0, 0];
    meta_payload.extend(ilst);
    let meta = atom(30, b"meta", &meta_payload);
    moov.extend(atom(38, b"udta", &meta));
    let m = VideoMetadata::decode(&moov);
    let h = m.get_atom(MVHD).unwrap().get_tags();
    assert!(h.contains(&VideoTag::Timescale(vec![600])));
    assert!(h.contains(&VideoTag::Duration(vec![42])));
    assert_eq!(
        m.get_atom(STSD).unwrap().get_tags(),
        &vec![VideoTag::UnknownVBINARY(vec![5, 6, 7, 8], STSD)]
    );
    assert_eq!(m.get_atom(NAM).unwrap().get_tags(), &vec![VideoTag::Title("hi".to_string())]);
    assert_eq!(m.get_atoms().len(), 3);
}

#[test]
fn decoding_wrapper_sorts_or_falls_back() {
    let stsd = atom(12, b"stsd", &[1, 2, 3, 4]);
    let mut moov = stsd.clone();
    moov.extend(atom(120, b"mvhd", &[0u8; 112]));
    let m = VideoMetadata::general_decoding_wrapper(Ok(moov)).unwrap();
    let order: Vec<u32> = m.get_atoms().iter().map(|c| c.get_atom_type()).collect();
    assert_eq!(order, vec![MVHD, STSD]);
    let empty = VideoMetadata::general_decoding_wrapper(Err(MovError::NotFound)).unwrap();
    assert!(empty.get_atoms().is_empty());
}

#[test]
fn iterator_visits_every_tag_once() {
    let mut m = VideoMetadata::new();
    m.set_tag(VideoTag::Title("a".to_string()));
    m.create_atom(TRAK);
    m.set_tag(VideoTag::Duration(vec![1]));
    m.set_tag(VideoTag::Timescale(vec![2]));
    let mut it = m.into_iter();
    assert_eq!(it.next(), Some(&VideoTag::Title("a".to_string())));
    assert_eq!(it.next(), Some(&VideoTag::Duration(vec![1])));
    assert_eq!(it.next(), Some(&VideoTag::Timescale(vec![2])));
    assert_eq!(it.next(), None);
    assert_eq!(it.next(), None);
    let mut again = m.into_iter();
    assert_eq!(again.next(), Some(&VideoTag::Title("a".to_string())));
}

#[test]
fn lookup_by_identity_and_code() {
    let mut m = VideoMetadata::new();
    m.set_tag(VideoTag::Duration(vec![7]));
    m.set_tag(VideoTag::Timescale(vec![600]));
    m.set_tag(VideoTag::Width(vec![640]));
    assert_eq!(m.get_tag(&VideoTag::Duration(vec![])), vec![&VideoTag::Duration(vec![7])]);
    assert_eq!(
        m.get_tag_by_id(MVHD, None),
        vec![&VideoTag::Duration(vec![7]), &VideoTag::Timescale(vec![600])]
    );
    assert_eq!(m.get_tag_by_id(TKHD, Some(TKHD)), vec![&VideoTag::Width(vec![640])]);
    assert!(m.get_tag_by_id(TKHD, Some(MVHD)).is_empty());
    assert!(m.get_tag_by_id(TKHD, Some(UDTA)).is_empty());
}

#[test]
fn get_atom_mut_creates_container() {
    let mut m = VideoMetadata::new();
    assert_eq!(m.get_atom_mut(UDTA).get_atom_type(), UDTA);
    assert_eq!(m.get_atom_mut(UDTA).get_tags().len(), 0);
    assert_eq!(m.get_atoms().len(), 1);
}

fn data_atom(value: &[u8]) -> Vec<u8> {
    let mut payload = vec![0, 0, 0, 1, 0, 0, 0, 0];
    payload.extend_from_slice(value);
    atom(16 + value.len() as u32, b"data", &payload)
}

#[test]
fn decode_reads_item_list_values() {
    let artist = atom(28, b"\xA9ART", &data_atom(b"abcd"));
    let trkn = atom(32, b"trkn", &data_atom(&[0, 0, 0, 3, 0, 0, 0, 9]));
    let mut items = artist;
    items.extend(trkn);
    let ilst = atom(8 + items.len() as u32, b"ilst", &items);
    let mut meta_payload = vec![0, 0, 0, 0];
    meta_payload.extend(ilst);
    let meta = atom(8 + meta_payload.len() as u32, b"meta", &meta_payload);
    let udta = atom(8 + meta.len() as u32, b"udta", &meta);
    let m = VideoMetadata::decode(&udta);
    assert_eq!(m.get_atom(ART).unwrap().get_tags(), &vec![VideoTag::Artist("abcd".to_string())]);
    assert_eq!(m.get_atom(TRKN).unwrap().get_tags(), &vec![VideoTag::TrackNumber(vec![3, 9])]);
}

#[test]
fn item_values_take_catalog_kinds() {
    assert_eq!(VideoTag::from_item(NAM, b"x".to_vec()), VideoTag::Title("x".to_string()));
    assert_eq!(VideoTag::from_item(NAM, vec![0xFF]), VideoTag::UnknownVBINARY(vec![0xFF], NAM));
    assert_eq!(VideoTag::from_item(GNRE, vec![0, 17]), VideoTag::GenreID(vec![17]));
    assert_eq!(VideoTag::from_item(GNRE, vec![17]), VideoTag::UnknownVBINARY(vec![17], GNRE));
    assert_eq!(VideoTag::from_item(COVR, vec![1, 2]), VideoTag::CoverArt(vec![1, 2]));
    assert_eq!(
        VideoTag::from_item(0x77786978, vec![1]),
        VideoTag::UnknownVBINARY(vec![1], 0x77786978)
    );
}

#[test]
fn decode_reads_short_movie_header() {
    let mut body = vec![0u8; 100];
    body[4..8].copy_from_slice(&11u32.to_be_bytes());
    body[8..12].copy_from_slice(&12u32.to_be_bytes());
    body[12..16].copy_from_slice(&600u32.to_be_bytes());
    body[16..20].copy_from_slice(&6000u32.to_be_bytes());
    body[36..40].copy_from_slice(&0x00010000u32.to_be_bytes());
    let h = decode_mvhd(&body).unwrap();
    assert_eq!(
        h,
        MovieHeader {
            creation_time: 11,
            modification_time: 12,
            timescale: 600,
            duration: 6000,
            matrix: [0x00010000, 0, 0, 0, 0, 0, 0, 0, 0],
        }
    );
    assert_eq!(decode_mvhd(&body[..99]), None);
}

#[test]
fn file_to_model_to_bytes() {
    let mut body = vec![0u8; 112];
    body[20..24].copy_from_slice(&600u32.to_be_bytes());
    body[24..32].copy_from_slice(&9000u64.to_be_bytes());
    let mvhd = atom(120, b"mvhd", &body);
    let mut file = ftyp(b"mp42");
    file.extend(atom(8 + mvhd.len() as u32, b"moov", &mvhd));
    file.extend(atom(12, b"mdat", &[1, 2, 3, 4]));
    let m = VideoMetadata::general_decoding_wrapper(read_metadata(&file)).unwrap();
    let out = m.encode().unwrap();
    let hs = walk_atoms(&out, 0, out.len()).unwrap();
    assert_eq!(hs.len(), 2);
    assert_eq!(hs[1].atom_type, MVHD);
    let h = decode_mvhd(&out[32..144]).unwrap();
    assert_eq!(h.timescale, 600);
    assert_eq!(h.duration, 9000);
    // not a movie file: an empty model
    let m = VideoMetadata::general_decoding_wrapper(read_metadata(&vec![0u8; 4])).unwrap();
    assert!(m.get_atoms().is_empty());
}
