use game_case::codec::{ElementSize, ParseError};
use game_case::decode::{decode_children, decode_elem};
use game_case::element::{encode_children, encode_elem, Element, Event};
use game_case::parser::{parse_events, process_ebml_data, Parser, SpanEvent};
use game_case::schema::{
    ID_DATA_FORMAT, ID_ENTRY_UID, ID_GAME, ID_GAME_DATA, ID_GAME_DATA_ENTRY, ID_RAW_DATA,
    ID_ROM_DATA, ID_TITLE,
};

fn uint(id: u32, value: u64) -> Element {
    Element::UInt { id, value }
}

fn bytes(id: u32, data: Vec<u8>) -> Element {
    Element::Bytes { id, data }
}

fn master(id: u32, children: Vec<Element>) -> Element {
    Element::Master { id, children }
}

fn sample_game() -> Element {
    master(
        ID_GAME,
        vec![
            bytes(ID_TITLE, b"Example".to_vec()),
            master(
                ID_GAME_DATA,
                vec![master(
                    ID_GAME_DATA_ENTRY,
                    vec![
                        uint(ID_ENTRY_UID, 7),
                        bytes(ID_DATA_FORMAT, b"raw".to_vec()),
                        master(ID_RAW_DATA, vec![bytes(ID_ROM_DATA, vec![1, 2, 3, 4])]),
                    ],
                )],
            ),
        ],
    )
}

/// A comparable fingerprint of one event.
fn sig(ev: &Event) -> (u8, u32, Option<u64>, Option<Vec<u8>>) {
    match ev {
        Event::Start { id } => (0, *id, None, None),
        Event::UIntScalar { id, value } => (1, *id, Some(*value), None),
        Event::BytesScalar { id, data } => (2, *id, None, Some(data.clone())),
        Event::End { id } => (3, *id, None, None),
    }
}

fn encode_one(e: &Element) -> Vec<u8> {
    let mut buf: Vec<u8> = Vec::new();
    encode_elem(&mut buf, e);
    buf
}

#[test]
fn round_trip_rebuilds_the_tree() {
    let doc = sample_game();
    let bytes1 = encode_one(&doc);
    let (back, used) = decode_elem(&bytes1, 0, bytes1.len()).expect("encoded document decodes");
    assert_eq!(used, bytes1.len());
    // the decoded tree re-encodes to the identical byte string
    let bytes2 = encode_one(&back);
    assert_eq!(bytes1, bytes2);
}

#[test]
fn round_trip_event_sequence_matches_depth_first_flattening() {
    let doc = sample_game();
    let stream = encode_one(&doc);
    let events = parse_events(&stream).expect("events come out of a written stream");
    let expected: Vec<(u8, u32, Option<u64>, Option<Vec<u8>>)> = vec![
        (0, ID_GAME, None, None),
        (2, ID_TITLE, None, Some(b"Example".to_vec())),
        (0, ID_GAME_DATA, None, None),
        (0, ID_GAME_DATA_ENTRY, None, None),
        (1, ID_ENTRY_UID, Some(7), None),
        (2, ID_DATA_FORMAT, None, Some(b"raw".to_vec())),
        (0, ID_RAW_DATA, None, None),
        (2, ID_ROM_DATA, None, Some(vec![1, 2, 3, 4])),
        (3, ID_RAW_DATA, None, None),
        (3, ID_GAME_DATA_ENTRY, None, None),
        (3, ID_GAME_DATA, None, None),
        (3, ID_GAME, None, None),
    ];
    let got: Vec<_> = events.iter().map(sig).collect();
    assert_eq!(got, expected);
}

#[test]
fn streaming_parser_agrees_with_parse_events() {
    let doc = sample_game();
    let stream = encode_one(&doc);
    let flat = parse_events(&stream).expect("flat events");
    let mut parser = Parser::new(stream);
    let mut pulled: Vec<(u8, u32, Option<u64>, Option<Vec<u8>>)> = Vec::new();
    loop {
        match parser.next_event().expect("the stream is well formed") {
            Some(ev) => pulled.push(sig(&ev)),
            None => break,
        }
    }
    let expected: Vec<_> = flat.iter().map(sig).collect();
    assert_eq!(pulled, expected);
}

#[test]
fn streaming_parser_is_lazy_and_nests_ends_with_starts() {
    let doc = sample_game();
    let stream = encode_one(&doc);
    let mut parser = Parser::new(stream);
    assert_eq!(parser.depth(), 0);
    let first = parser.next_event().unwrap().unwrap();
    assert!(matches!(first, Event::Start { id } if id == ID_GAME));
    assert_eq!(parser.depth(), 1);
    // every End closes the most recent unmatched Start
    let mut open: Vec<u32> = vec![ID_GAME];
    loop {
        match parser.next_event().unwrap() {
            None => break,
            Some(Event::Start { id }) => open.push(id),
            Some(Event::End { id }) => {
                assert_eq!(open.pop(), Some(id));
            }
            Some(_) => {}
        }
    }
    assert!(open.is_empty());
}

#[test]
fn unknown_master_is_walked_and_leaves_siblings_alone() {
    // an unregistered master identifier holding a well-formed child
    let foreign = master(0x7E10, vec![uint(ID_ENTRY_UID, 99)]);
    let before = bytes(ID_TITLE, b"left".to_vec());
    let after = bytes(ID_DATA_FORMAT, b"right".to_vec());

    let mut plain: Vec<u8> = Vec::new();
    encode_children(&mut plain, &vec![before, after]);
    let plain_events: Vec<_> = parse_events(&plain).unwrap().iter().map(sig).collect();

    let before2 = bytes(ID_TITLE, b"left".to_vec());
    let after2 = bytes(ID_DATA_FORMAT, b"right".to_vec());
    let mut spliced: Vec<u8> = Vec::new();
    encode_children(&mut spliced, &vec![before2, foreign, after2]);
    let spliced_events: Vec<_> = parse_events(&spliced).unwrap().iter().map(sig).collect();

    // the foreign element surfaces as a walked master with its child events
    let expected_middle = vec![
        (0u8, 0x7E10u32, None, None),
        (1, ID_ENTRY_UID, Some(99u64), None),
        (3, 0x7E10, None, None),
    ];
    assert_eq!(spliced_events.len(), plain_events.len() + expected_middle.len());
    assert_eq!(spliced_events[0], plain_events[0]);
    assert_eq!(&spliced_events[1..4], &expected_middle[..]);
    assert_eq!(spliced_events[4], plain_events[1]);
}

#[test]
fn size_zero_parses_as_present_with_empty_payload() {
    let empty_text = bytes(ID_TITLE, Vec::new());
    let stream = encode_one(&empty_text);
    let events = parse_events(&stream).unwrap();
    assert_eq!(events.len(), 1);
    assert!(matches!(&events[0], Event::BytesScalar { id, data } if *id == ID_TITLE && data.is_empty()));
    // while an absent element yields no event at all
    let nothing: Vec<u8> = Vec::new();
    assert!(parse_events(&nothing).unwrap().is_empty());
}

#[test]
fn oversized_declared_size_is_a_truncated_element() {
    let mut stream: Vec<u8> = Vec::new();
    game_case::vint::write_id(&mut stream, ID_TITLE);
    game_case::vint::write_size(&mut stream, 100);
    stream.push(b'x');  // only one of the declared hundred bytes
    assert!(matches!(parse_events(&stream), Err(ParseError::TruncatedElement)));
    assert_eq!(process_ebml_data(&stream), Err(ParseError::TruncatedElement));
}

#[test]
fn unknown_size_element_runs_to_the_end_of_its_enclosure() {
    // ROMData with the reserved one-byte all-ones size field
    let mut stream: Vec<u8> = vec![0x1E, 0x8A, 0xA0, 0x00, 0xFF];
    stream.extend([7u8, 8, 9]);
    let (e, used) = decode_elem(&stream, 0, stream.len()).expect("tolerated by the reader");
    assert_eq!(used, stream.len());
    assert!(matches!(e, Element::Bytes { id: ID_ROM_DATA, data } if data == vec![7, 8, 9]));
}

#[test]
fn sibling_runs_decode_one_after_the_other() {
    let mut stream: Vec<u8> = Vec::new();
    encode_children(&mut stream, &vec![uint(ID_ENTRY_UID, 1), uint(ID_ENTRY_UID, 2)]);
    let cs = decode_children(&stream, 0, stream.len()).unwrap();
    assert_eq!(cs.len(), 2);
    assert!(matches!(cs[0], Element::UInt { id: ID_ENTRY_UID, value: 1 }));
    assert!(matches!(cs[1], Element::UInt { id: ID_ENTRY_UID, value: 2 }));
    assert!(process_ebml_data(&stream).unwrap());
}

#[test]
fn span_events_leave_payloads_in_the_stream() {
    let doc = sample_game();
    let stream = encode_one(&doc);
    let mut parser = Parser::new(stream);
    let mut seen_payload = false;
    loop {
        match parser.next_span_event().expect("well formed") {
            None => break,
            Some(SpanEvent::BytesSpan { id, lo, hi }) => {
                let copied = parser.read_span(lo, hi);
                if id == ID_ROM_DATA {
                    assert_eq!(copied, vec![1, 2, 3, 4]);
                    assert_eq!(hi - lo, 4);
                    seen_payload = true;
                }
            }
            Some(_) => {}
        }
    }
    assert!(seen_payload);
}
