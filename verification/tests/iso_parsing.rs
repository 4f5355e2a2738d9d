use iso_extract_jpegs::iso::{
    decode_identifier, decode_utf16_lossy, extent_span, file_span, is_joliet_descriptor,
    next_sector_boundary, parse_directory_record, parse_directory_records, parse_root_directory,
    read_u32_le, DirectoryRef, DirectoryWalk, IsoEntry, IsoEntryKind, IsoVolume,
    RecordIdentifier, VolumeScan,
};

const SECTOR: usize = 2048;

fn record(extent: u32, size: u32, flags: u8, identifier: &[u8]) -> Vec<u8> {
    let padding = if identifier.len() % 2 == 0 { 1 } else { 0 };
    let length = 33 + identifier.len() + padding;
    let mut r = vec![0_u8; length];
    r[0] = length as u8;
    r[2..6].copy_from_slice(&extent.to_le_bytes());
    r[6..10].copy_from_slice(&extent.to_be_bytes());
    r[10..14].copy_from_slice(&size.to_le_bytes());
    r[14..18].copy_from_slice(&size.to_be_bytes());
    r[25] = flags;
    r[32] = identifier.len() as u8;
    r[33..33 + identifier.len()].copy_from_slice(identifier);
    r
}

fn iso_error(e: iso_extract_jpegs::AppError) -> String {
    assert_eq!(e.exit_code(), 1);
    e.message()
}

#[test]
fn reads_little_endian_fields() {
    let bytes = [0x78, 0x56, 0x34, 0x12, 0xff];
    assert_eq!(read_u32_le(&bytes, 0).unwrap(), 0x1234_5678);
    assert_eq!(read_u32_le(&bytes, 1).unwrap(), 0xff12_3456);
    assert_eq!(
        iso_error(read_u32_le(&bytes, 2).unwrap_err()),
        "directory record is missing a u32 field"
    );
}

#[test]
fn decodes_special_and_plain_identifiers() {
    assert_eq!(decode_identifier(&[0], false), RecordIdentifier::Current);
    assert_eq!(decode_identifier(&[1], true), RecordIdentifier::Parent);
    assert_eq!(
        decode_identifier(b"PHOTO.JPG;1", false),
        RecordIdentifier::Name("PHOTO.JPG".to_string())
    );
    assert_eq!(
        decode_identifier(&[0x41, 0xff], false),
        RecordIdentifier::Name("A\u{fffd}".to_string())
    );
}

#[test]
fn decodes_joliet_identifiers_as_utf16() {
    let name: Vec<u8> = "Fotó.jpg;1"
        .encode_utf16()
        .flat_map(|u| u.to_be_bytes())
        .collect();
    assert_eq!(
        decode_identifier(&name, true),
        RecordIdentifier::Name("Fotó.jpg".to_string())
    );
    // An odd length is read as UTF-8 even on a Joliet volume.
    assert_eq!(
        decode_identifier(b"ABC", true),
        RecordIdentifier::Name("ABC".to_string())
    );
}

#[test]
fn utf16_pairs_and_lone_surrogates() {
    assert_eq!(decode_utf16_lossy(&[0x0041, 0x00e9]), vec!['A', 'é']);
    assert_eq!(decode_utf16_lossy(&[0xd83d, 0xde00]), vec!['\u{1f600}']);
    assert_eq!(
        decode_utf16_lossy(&[0xd83d, 0x0041, 0xde00]),
        vec!['\u{fffd}', 'A', '\u{fffd}']
    );
}

#[test]
fn parses_one_record() {
    let r = parse_directory_record(&record(21, 10, 0x00, b"A.JPG;1"), false).unwrap();
    assert_eq!(r.identifier, RecordIdentifier::Name("A.JPG".to_string()));
    assert_eq!((r.extent, r.size, r.kind), (21, 10, IsoEntryKind::File));
    let d = parse_directory_record(&record(22, 2048, 0x02, b"DIR"), false).unwrap();
    assert_eq!(d.kind, IsoEntryKind::Directory);
    let o = parse_directory_record(&record(23, 1, 0x01, b"HIDDEN"), false).unwrap();
    assert_eq!(o.kind, IsoEntryKind::Other);
}

#[test]
fn rejects_broken_records() {
    assert_eq!(
        iso_error(parse_directory_record(&[0; 33], false).unwrap_err()),
        "directory record is too short"
    );
    let mut r = record(21, 10, 0, b"A");
    r[32] = 40;
    assert_eq!(
        iso_error(parse_directory_record(&r, false).unwrap_err()),
        "directory identifier extends past record"
    );
    let mut data = record(21, 10, 0, b"A");
    data[0] = 200;
    assert_eq!(
        iso_error(parse_directory_records(&data, false).unwrap_err()),
        "directory record extends past directory data"
    );
}

#[test]
fn zero_length_skips_to_next_sector() {
    assert_eq!(next_sector_boundary(0), 2048);
    assert_eq!(next_sector_boundary(2047), 2048);
    assert_eq!(next_sector_boundary(2048), 4096);
    let mut data = vec![0_u8; 2 * SECTOR];
    let a = record(30, 5, 0, b"A");
    let b = record(31, 6, 0, b"B");
    data[..a.len()].copy_from_slice(&a);
    data[SECTOR..SECTOR + b.len()].copy_from_slice(&b);
    let records = parse_directory_records(&data, false).unwrap();
    assert_eq!(records.len(), 2);
    assert_eq!(records[0].identifier, RecordIdentifier::Name("A".to_string()));
    assert_eq!(records[1].identifier, RecordIdentifier::Name("B".to_string()));
}

fn descriptor(kind: u8, root: &[u8], escape: &[u8]) -> Vec<u8> {
    let mut d = vec![0_u8; SECTOR];
    d[0] = kind;
    d[1..6].copy_from_slice(b"CD001");
    d[88..88 + escape.len()].copy_from_slice(escape);
    d[156..156 + root.len()].copy_from_slice(root);
    d
}

#[test]
fn recognises_joliet_descriptors() {
    assert!(is_joliet_descriptor(&descriptor(2, &[], b"%/E")));
    assert!(is_joliet_descriptor(&descriptor(2, &[], b"%/@")));
    assert!(!is_joliet_descriptor(&descriptor(2, &[], b"%/F")));
    let root = parse_root_directory(&descriptor(1, &record(20, 2048, 2, &[0]), b""), false).unwrap();
    assert_eq!(root, DirectoryRef { extent: 20, size: 2048 });
}

#[test]
fn joliet_root_is_preferred() {
    let mut scan = VolumeScan::new();
    assert_eq!(scan.next_descriptor_offset(), Some(16 * 2048));
    scan.feed(&descriptor(1, &record(20, 2048, 2, &[0]), b"")).unwrap();
    assert_eq!(scan.next_descriptor_offset(), Some(17 * 2048));
    scan.feed(&descriptor(2, &record(30, 4096, 2, &[0]), b"%/E")).unwrap();
    scan.feed(&descriptor(255, &[], b"")).unwrap();
    assert_eq!(scan.next_descriptor_offset(), None);
    assert_eq!(
        scan.finish().unwrap(),
        IsoVolume { root: DirectoryRef { extent: 30, size: 4096 }, joliet: true }
    );
}

#[test]
fn scan_errors() {
    let mut scan = VolumeScan::new();
    assert_eq!(
        iso_error(scan.feed(&vec![0_u8; SECTOR]).unwrap_err()),
        "not an ISO 9660 image: missing CD001 descriptor"
    );
    let mut scan = VolumeScan::new();
    scan.feed(&descriptor(255, &[], b"")).unwrap();
    assert_eq!(
        iso_error(scan.finish().unwrap_err()),
        "ISO has no primary volume descriptor"
    );
    let mut scan = VolumeScan::new();
    scan.feed(&descriptor(1, &record(20, 2048, 2, &[0]), b"")).unwrap();
    // A later sector without CD001 is passed over.
    scan.feed(&vec![0_u8; SECTOR]).unwrap();
    assert_eq!(scan.index, 2);
    assert!(!scan.ended);
}

#[test]
fn walk_lists_nested_entries_and_reads_each_directory_once() {
    let root = DirectoryRef { extent: 20, size: 2048 };
    let mut walk = DirectoryWalk::new(IsoVolume { root, joliet: false });
    assert_eq!(walk.next_directory().unwrap(), Some(root));
    let mut root_data = Vec::new();
    root_data.extend(record(20, 2048, 2, &[0]));
    root_data.extend(record(20, 2048, 2, &[1]));
    root_data.extend(record(21, 2048, 2, b"SUB"));
    root_data.extend(record(40, 3, 0, b"TOP.JPG;1"));
    walk.accept(&root_data).unwrap();
    assert_eq!(
        walk.next_directory().unwrap(),
        Some(DirectoryRef { extent: 21, size: 2048 })
    );
    let mut sub_data = Vec::new();
    sub_data.extend(record(41, 4, 0, b"IN.JPG;1"));
    // A record that leads back to the root is not read again.
    sub_data.extend(record(20, 2048, 2, b"LOOP"));
    walk.accept(&sub_data).unwrap();
    assert_eq!(walk.next_directory().unwrap(), None);
    let entries = walk.into_entries();
    let paths: Vec<&str> = entries.iter().map(|e| e.path.as_str()).collect();
    assert_eq!(paths, vec!["SUB", "TOP.JPG", "SUB/IN.JPG", "SUB/LOOP"]);
    assert_eq!(entries[2].size, 4);
    assert_eq!(entries[2].extent, 41);
}

#[test]
fn spans_of_files() {
    let file = IsoEntry {
        path: "A.JPG".to_string(),
        size: 10,
        kind: IsoEntryKind::File,
        extent: 21,
    };
    assert_eq!(file_span(&file).unwrap(), (21 * 2048, 10));
    let dir = IsoEntry { kind: IsoEntryKind::Directory, ..file };
    assert_eq!(
        iso_error(file_span(&dir).unwrap_err()),
        "A.JPG is not a regular ISO file"
    );
    assert_eq!(extent_span(3, 7).unwrap(), (3 * 2048, 7));
}

#[test]
fn valid_utf8_names_decode_as_written() {
    assert_eq!(
        decode_identifier("CAFÉ.JPG;2".as_bytes(), false),
        RecordIdentifier::Name("CAFÉ.JPG".to_string())
    );
}

#[test]
fn zero_padding_to_the_end_gives_no_records() {
    assert!(parse_directory_records(&[], false).unwrap().is_empty());
    assert!(parse_directory_records(&[0u8; 5], false).unwrap().is_empty());
    assert!(parse_directory_records(&[0u8; SECTOR + 1], false).unwrap().is_empty());
    let mut data = vec![0u8; SECTOR + 3];
    data[SECTOR] = 40;
    assert_eq!(
        iso_error(parse_directory_records(&data, false).unwrap_err()),
        "directory record extends past directory data"
    );
}
