use game_case::case::{serialize_case, BuildError};
use game_case::codec::ParseError;
use game_case::element::{encode_children, encode_elem, Element};
use game_case::integrity::{compute_digest, crc32, ChecksumAlgorithm};
use game_case::reader::{CaseReader, FetchError};
use game_case::schema::{
    ID_CRC32, ID_DATA_FORMAT, ID_ENTRY_UID, ID_GAME, ID_GAME_CASE, ID_GAME_DATA,
    ID_GAME_DATA_ENTRY, ID_MANUALS, ID_MANUAL_DATA, ID_MANUAL_ENTRY, ID_PAGE_COUNT, ID_RAW_DATA,
    ID_ROM_DATA, ID_ROM_FILE_NAME, ID_ROM_FILE_SIZE, ID_TITLE,
};

fn uint(id: u32, value: u64) -> Element {
    Element::UInt { id, value }
}

fn byt(id: u32, data: Vec<u8>) -> Element {
    Element::Bytes { id, data }
}

fn master(id: u32, children: Vec<Element>) -> Element {
    Element::Master { id, children }
}

fn rom_payload() -> Vec<u8> {
    (0..1024u32).map(|i| (i % 251) as u8).collect()
}

/// One Game with one raw-data entry (uid 1) and one manual entry (uid 2).
fn sample_body() -> Vec<Element> {
    let rom = rom_payload();
    let rom_crc = compute_digest(ChecksumAlgorithm::Crc32, &rom);
    let props = master(
        game_case::schema::ID_FILE_PROPERTIES,
        vec![
            byt(ID_ROM_FILE_NAME, b"example.rom".to_vec()),
            uint(ID_ROM_FILE_SIZE, rom.len() as u64),
            byt(ID_CRC32, rom_crc),
        ],
    );
    let raw = master(ID_RAW_DATA, vec![props, byt(ID_ROM_DATA, rom)]);
    let entry = master(
        ID_GAME_DATA_ENTRY,
        vec![uint(ID_ENTRY_UID, 1), byt(ID_DATA_FORMAT, b"raw".to_vec()), raw],
    );
    let game = master(
        ID_GAME,
        vec![
            byt(ID_TITLE, b"Example".to_vec()),
            master(ID_GAME_DATA, vec![entry]),
        ],
    );
    let manual = master(
        ID_MANUAL_ENTRY,
        vec![
            uint(ID_ENTRY_UID, 2),
            uint(ID_PAGE_COUNT, 12),
            byt(ID_MANUAL_DATA, vec![9u8; 64]),
        ],
    );
    vec![game, master(ID_MANUALS, vec![manual])]
}

fn find_bytes(e: &Element, id: u32) -> Option<Vec<u8>> {
    match e {
        Element::Bytes { id: i, data } => {
            if *i == id {
                Some(data.clone())
            } else {
                None
            }
        }
        Element::Master { children, .. } => {
            for c in children {
                if let Some(d) = find_bytes(c, id) {
                    return Some(d);
                }
            }
            None
        }
        Element::UInt { .. } => None,
    }
}

fn encode_one(e: &Element) -> Vec<u8> {
    let mut buf: Vec<u8> = Vec::new();
    encode_elem(&mut buf, e);
    buf
}

#[test]
fn serialized_case_opens_with_two_index_records() {
    let bytes = serialize_case(&sample_body()).expect("a small case serializes");
    let reader = CaseReader::open(bytes).expect("a written case opens");
    assert!(reader.index_present());
    assert_eq!(reader.record_count(), 2);
}

#[test]
fn fetch_returns_each_entry_by_uid() {
    let bytes = serialize_case(&sample_body()).expect("serialize");
    let reader = CaseReader::open(bytes).expect("open");
    let game_entry = reader.fetch(1).expect("uid 1 is present");
    let payload = find_bytes(&game_entry, ID_ROM_DATA).expect("the ROM payload is inside");
    assert_eq!(payload.len(), 1024);
    assert_eq!(payload, rom_payload());
    // and the recorded CRC32 matches the payload
    let recorded = find_bytes(&game_entry, ID_CRC32).expect("a CRC32 was recorded");
    assert_eq!(recorded, compute_digest(ChecksumAlgorithm::Crc32, &payload));
    let manual_entry = reader.fetch(2).expect("uid 2 is present");
    assert!(matches!(&manual_entry, Element::Master { id, .. } if *id == ID_MANUAL_ENTRY));
}

#[test]
fn fetch_on_a_nonexistent_uid_is_not_found() {
    let bytes = serialize_case(&sample_body()).expect("serialize");
    let reader = CaseReader::open(bytes).expect("open");
    assert!(matches!(reader.fetch(1234), Err(FetchError::NotFound)));
}

#[test]
fn concrete_scenario_crc32_of_the_payload_matches() {
    let rom = rom_payload();
    let expected = crc32fast::hash(&rom);
    assert_eq!(crc32(&rom), expected);
    let bytes = serialize_case(&sample_body()).expect("serialize");
    let reader = CaseReader::open(bytes).expect("open");
    assert_eq!(reader.record_count(), 2);
    let entry = reader.fetch(1).expect("fetch");
    let payload = find_bytes(&entry, ID_ROM_DATA).expect("payload");
    assert_eq!(payload.len(), 1024);
    assert_eq!(crc32(&payload), expected);
}

#[test]
fn stripping_the_index_leaves_every_fetch_identical() {
    let body = sample_body();
    let with_index = serialize_case(&body).expect("serialize");
    let reader1 = CaseReader::open(with_index).expect("open with index");
    assert!(reader1.index_present());

    // the same document with the Index element deleted: header + GameCase(body)
    let gc = Element::Master { id: ID_GAME_CASE, children: body };
    let mut stripped: Vec<u8> = Vec::new();
    game_case::vint::write_id(&mut stripped, game_case::schema::ID_EBML);
    // rebuild the same EBML header the writer emits
    let hdr_children = vec![
        uint(game_case::schema::ID_EBML_VERSION, 1),
        byt(game_case::schema::ID_DOC_TYPE, b"gamecase".to_vec()),
        uint(game_case::schema::ID_DOC_TYPE_VERSION, 1),
        uint(game_case::schema::ID_DOC_TYPE_READ_VERSION, 1),
    ];
    let mut hdr_buf: Vec<u8> = Vec::new();
    encode_children(&mut hdr_buf, &hdr_children);
    game_case::vint::write_size(&mut stripped, hdr_buf.len() as u64);
    stripped.extend(hdr_buf);
    encode_elem(&mut stripped, &gc);

    let reader2 = CaseReader::open(stripped).expect("open without index");
    assert!(!reader2.index_present());
    assert_eq!(reader2.record_count(), 0);

    for uid in [1u64, 2, 77] {
        match (reader1.fetch(uid), reader2.fetch(uid)) {
            (Ok(a), Ok(b)) => assert_eq!(encode_one(&a), encode_one(&b)),
            (Err(ea), Err(eb)) => assert_eq!(ea, eb),
            _ => panic!("index and scan paths disagree on uid {uid}"),
        }
    }
}

#[test]
fn an_empty_body_serializes_and_opens_with_no_records() {
    let empty: Vec<Element> = Vec::new();
    let bytes = serialize_case(&empty).expect("an empty case serializes");
    let reader = CaseReader::open(bytes).expect("open");
    assert!(reader.index_present());
    assert_eq!(reader.record_count(), 0);
    assert!(matches!(reader.fetch(1), Err(FetchError::NotFound)));
}

#[test]
fn oversized_payload_is_refused_as_too_large() {
    // a shifted position that cannot fit 64 bits trips the builder's check
    let recs = vec![game_case::case::IndexRecord {
        uid: 1,
        target_id: ID_GAME_DATA_ENTRY,
        position: u64::MAX - 1,
        label: Vec::new(),
        region: Vec::new(),
    }];
    let r = game_case::case::build_index_elem(&recs, 1000);
    assert!(matches!(r, Err(BuildError::CaseTooLarge)));
}

#[test]
fn opening_garbage_reports_the_codec_error() {
    // an empty stream has no header element at all
    assert!(matches!(CaseReader::open(Vec::new()), Err(ParseError::UnexpectedEof)));
    // a stream whose first element is not the expected header
    let mut not_header: Vec<u8> = Vec::new();
    encode_elem(&mut not_header, &uint(ID_ENTRY_UID, 3));
    assert!(matches!(CaseReader::open(not_header), Err(ParseError::MalformedTag)));
}

#[test]
fn opening_a_truncated_case_reports_truncation() {
    let bytes = serialize_case(&sample_body()).expect("serialize");
    let mut cut = bytes.clone();
    cut.truncate(bytes.len() - 200);
    assert!(matches!(CaseReader::open(cut), Err(ParseError::TruncatedElement)));
}

#[test]
fn a_stale_index_position_falls_back_to_the_scan() {
    let body = sample_body();
    let bytes = serialize_case(&body).expect("serialize");
    let reader = CaseReader::open(bytes.clone()).expect("open");
    let straight = reader.fetch(1).expect("entry through the index");

    // corrupt the first recorded IndexPosition: identifier 0x5B08, a
    // one-byte size field 0x81, then the single position byte
    let at = bytes
        .windows(3)
        .position(|w| w == [0x5B, 0x08, 0x81])
        .expect("a one-byte IndexPosition is recorded");
    let mut stale = bytes.clone();
    stale[at + 3] = 0x05;  // points into the middle of the header now
    assert_ne!(stale, bytes);

    let reader2 = CaseReader::open(stale).expect("the index still parses");
    assert!(reader2.index_present());
    // the reader must not trust the stale position: the scan answers
    let recovered = reader2.fetch(1).expect("recovered through the linear scan");
    assert_eq!(encode_one(&straight), encode_one(&recovered));
}

#[test]
fn damage_outside_an_entry_breaks_the_scan_but_not_the_index_path() {
    let bytes = serialize_case(&sample_body()).expect("serialize");
    // break the Title element's identifier inside the body
    let at = bytes
        .windows(4)
        .position(|w| w == [0x2E, 0x8A, 0x00, 0x87])
        .expect("the Title element is in the body");
    let mut damaged = bytes.clone();
    damaged[at] = 0x00;

    let reader = CaseReader::open(damaged).expect("the index still opens");
    // the damaged byte sits outside the game-data entry, so the recorded
    // position still resolves
    let entry = reader.fetch(1).expect("the index path avoids the damage");
    assert!(matches!(&entry, Element::Master { id, .. } if *id == ID_GAME_DATA_ENTRY));
    // a uid the index does not know needs the scan, which now fails
    assert!(matches!(
        reader.fetch(99),
        Err(FetchError::Parse(ParseError::MalformedTag))
    ));
}
