use rrmap::format::wad::{ByteReader, Error, Header, Wad, WadType};

fn le(n: u32) -> [u8; 4] {
    n.to_le_bytes()
}

/// A container image: the header, then the lumps' bytes, then the directory.
fn image(tag: &[u8; 4], lumps: &[(&str, &[u8])]) -> Vec<u8> {
    let mut data: Vec<u8> = Vec::new();
    let mut entries: Vec<(u32, u32, [u8; 8])> = Vec::new();
    let mut offset = 12u32;
    for (name, bytes) in lumps {
        let mut raw = [0u8; 8];
        raw[..name.len()].copy_from_slice(name.as_bytes());
        entries.push((offset, bytes.len() as u32, raw));
        data.extend_from_slice(bytes);
        offset += bytes.len() as u32;
    }
    let mut out = Vec::new();
    out.extend_from_slice(tag);
    out.extend_from_slice(&le(lumps.len() as u32));
    out.extend_from_slice(&le(offset));
    out.extend_from_slice(&data);
    for (pos, size, raw) in entries {
        out.extend_from_slice(&le(pos));
        out.extend_from_slice(&le(size));
        out.extend_from_slice(&raw);
    }
    out
}

fn read(bytes: &[u8]) -> Result<Wad, Error> {
    Wad::from_reader(&mut ByteReader::new(bytes))
}

#[test]
fn reads_header_directory_and_data() {
    let bytes = image(b"PWAD", &[("MAP01", b""), ("TEXTMAP", b"namespace = \"x\";"), ("ENDMAP", b"")]);
    let wad = read(&bytes).unwrap();
    assert_eq!(
        *wad.header(),
        Header {
            ident: WadType::Pwad,
            num_lumps: 3,
            info_table_offset: 12 + 16,
        }
    );
    let lumps = wad.lumps();
    assert_eq!(lumps.len(), 3);
    assert_eq!(wad.len(), 3);
    assert_eq!(lumps[0].name(), "MAP01");
    assert_eq!(lumps[1].name(), "TEXTMAP");
    assert_eq!(lumps[1].data(), b"namespace = \"x\";");
    assert_eq!(lumps[2].name(), "ENDMAP");
}

#[test]
fn iwad_tag() {
    let wad = read(&image(b"IWAD", &[])).unwrap();
    assert_eq!(wad.header().ident, WadType::Iwad);
    assert!(wad.lumps().is_empty());
}

#[test]
fn lookup_returns_first_match() {
    let bytes = image(b"PWAD", &[("A", b"1"), ("B", b"2"), ("A", b"3")]);
    let wad = read(&bytes).unwrap();
    assert_eq!(wad.lump("A").unwrap().data(), b"1");
    assert_eq!(wad.lump("B").unwrap().data(), b"2");
    assert!(wad.lump("C").is_none());
    assert!(wad.lump("").is_none());
}

#[test]
fn zero_size_lump_is_empty_whatever_its_offset() {
    let mut bytes = image(b"PWAD", &[("EMPTY", b"")]);
    // Point the entry's offset far past the end.
    let dir = 12;
    bytes[dir..dir + 4].copy_from_slice(&le(0xFFFF_FF00));
    let wad = read(&bytes).unwrap();
    assert_eq!(wad.lump("EMPTY").unwrap().data(), b"");
}

#[test]
fn reading_twice_gives_the_same_container() {
    let bytes = image(b"PWAD", &[("ONE", b"abc"), ("TWO", b"de")]);
    let a = read(&bytes).unwrap();
    let b = read(&bytes).unwrap();
    assert_eq!(a.header(), b.header());
    let (la, lb) = (a.lumps(), b.lumps());
    assert_eq!(la.len(), lb.len());
    for (x, y) in la.iter().zip(lb.iter()) {
        assert_eq!(x.name(), y.name());
        assert_eq!(x.data(), y.data());
    }
}

#[test]
fn bad_tag_is_reported_lossily() {
    let mut bytes = image(b"PWAD", &[]);
    bytes[..4].copy_from_slice(b"ZW\xffD");
    match read(&bytes) {
        Err(Error::InvalidWadType(s)) => assert_eq!(s, "ZW\u{FFFD}D"),
        other => panic!("unexpected {:?}", other.map(|_| ())),
    }
}

#[test]
fn short_reads_fail() {
    assert!(matches!(read(b"PWA"), Err(Error::UnexpectedEof)));
    assert!(matches!(read(b"PWAD\x01\x00\x00\x00"), Err(Error::UnexpectedEof)));
    // A directory that promises more entries than the bytes hold.
    let mut bytes = image(b"PWAD", &[("A", b"1")]);
    bytes[4..8].copy_from_slice(&le(2));
    assert!(matches!(read(&bytes), Err(Error::UnexpectedEof)));
    // A lump that runs past the end.
    let mut bytes = image(b"PWAD", &[("A", b"1")]);
    let dir = 13;
    bytes[dir + 4..dir + 8].copy_from_slice(&le(100));
    assert!(matches!(read(&bytes), Err(Error::UnexpectedEof)));
}

#[test]
fn bad_name_is_utf8_error() {
    let mut bytes = image(b"PWAD", &[("A", b"1")]);
    let dir = 13;
    bytes[dir + 8] = 0xFF;
    assert!(matches!(read(&bytes), Err(Error::Utf8(_))));
}

#[test]
fn reader_is_left_after_the_header() {
    let bytes = image(b"PWAD", &[("A", b"xyz")]);
    let mut r = ByteReader::new(&bytes);
    Wad::from_reader(&mut r).unwrap();
    assert_eq!(r.stream_position(), 12);
}

#[test]
fn byte_reader_reads_exactly() {
    let bytes = [1u8, 2, 3];
    let mut r = ByteReader::new(&bytes);
    assert_eq!(r.read_bytes(2).unwrap(), vec![1, 2]);
    assert!(matches!(r.read_bytes(2), Err(Error::UnexpectedEof)));
    assert_eq!(r.stream_position(), 2);
    r.seek(10);
    assert!(matches!(r.read_bytes(1), Err(Error::UnexpectedEof)));
}

#[test]
fn header_integers_are_signed_and_widened() {
    let mut bytes = image(b"IWAD", &[]);
    bytes[8..12].copy_from_slice(&[0xFF, 0xFF, 0xFF, 0xFF]);
    let wad = read(&bytes).unwrap();
    assert_eq!(wad.header().num_lumps, 0);
    assert_eq!(wad.header().info_table_offset, (-1i32) as usize);
    // A negative count asks for more entries than any container holds.
    let mut bytes = image(b"PWAD", &[]);
    bytes[4..8].copy_from_slice(&[0xFF, 0xFF, 0xFF, 0xFF]);
    assert!(matches!(read(&bytes), Err(Error::UnexpectedEof)));
}
