use edimancy::components::element::{Element, ElementConfig, ElementItem};
use edimancy::components::segment::{Segment, SegmentConfig};
use edimancy::error::Error;

#[test]
fn segment_id_should_return_ok() {
    let payload = b"ISA*REST";
    let seg_config = SegmentConfig { terminator: b'~', element_separator: b'*' };

    let res = Segment::from_bytes(payload, &seg_config).unwrap();

    assert_eq!(res.segment_id, b"ISA");
    assert_eq!(res.body, b"REST");
}

#[test]
fn segment_with_terminator_includes_terminator_in_len() {
    let payload = b"ISA*REST~";
    let seg_config = SegmentConfig { terminator: b'~', element_separator: b'*' };

    let res = Segment::from_bytes(payload, &seg_config).unwrap();

    assert_eq!(res.segment_id, b"ISA");
    assert_eq!(res.body, b"REST");
}

#[test]
fn body_can_be_empty() {
    let payload = b"ISA*";
    let seg_config = SegmentConfig { terminator: b'~', element_separator: b'*' };

    let res = Segment::from_bytes(payload, &seg_config).unwrap();

    assert_eq!(res.segment_id, b"ISA");
    assert_eq!(res.body, b"");
}

#[test]
fn header_empty_should_fail() {
    let payload = b"*REST";
    let seg_config = SegmentConfig { terminator: b'~', element_separator: b'*' };

    let res = Segment::from_bytes(payload, &seg_config);

    assert!(res.is_err());
}

#[test]
fn missing_separator_should_fail() {
    let payload = b"ISARESTOFEDI";
    let seg_config = SegmentConfig { terminator: b'~', element_separator: b'*' };

    let res = Segment::from_bytes(payload, &seg_config);

    assert!(res.is_err());
}

#[test]
fn missing_separator_reports_its_error() {
    let seg_config = SegmentConfig { terminator: b'~', element_separator: b'*' };

    let res = Segment::from_bytes(b"GS", &seg_config);

    assert_eq!(res, Err(Error::MissingElementSeparator));
}

#[test]
fn five_byte_tag_reports_invalid_length() {
    let seg_config = SegmentConfig { terminator: b'~', element_separator: b'*' };

    let res = Segment::from_bytes(b"ABCDE*X~", &seg_config);

    assert_eq!(res, Err(Error::InvalidTagLength));
}

#[test]
fn four_byte_tag_is_accepted() {
    let seg_config = SegmentConfig { terminator: b'~', element_separator: b'*' };

    let res = Segment::from_bytes(b"ABCD*X~", &seg_config).unwrap();

    assert_eq!(res.segment_id, b"ABCD");
    assert_eq!(res.body, b"X");
}

#[test]
fn unterminated_chunk_is_used_whole() {
    let seg_config = SegmentConfig { terminator: b'~', element_separator: b'*' };

    let res = Segment::from_bytes(b"REF*1*2:3", &seg_config).unwrap();

    assert_eq!(res.segment_id, b"REF");
    assert_eq!(res.body, b"1*2:3");
}

#[test]
fn elements_split_the_body_in_order() {
    let seg_config = SegmentConfig { terminator: b'~', element_separator: b'*' };
    let elem_config = ElementConfig { subelement_separator: b':', repetition_separator: b'^' };
    let segment = Segment::from_bytes(b"CLM*A:B*X^Y*PLAIN~", &seg_config).unwrap();

    let elements = segment.elements(&seg_config, &elem_config);

    assert_eq!(elements.len(), 3);
    match &elements[0] {
        Element::Single(ElementItem::Composite(components)) => {
            assert_eq!(*components, vec![b"A".as_ref(), b"B".as_ref()]);
        }
        _ => panic!("expected single composite element"),
    }
    match &elements[1] {
        Element::Repeating(occurrences) => {
            assert_eq!(occurrences.len(), 2);
        }
        _ => panic!("expected repeating element"),
    }
    match &elements[2] {
        Element::Single(ElementItem::Simple(body)) => {
            assert_eq!(*body, b"PLAIN");
        }
        _ => panic!("expected single simple element"),
    }
}

#[test]
fn element_at_decodes_only_the_requested_position() {
    let seg_config = SegmentConfig { terminator: b'~', element_separator: b'*' };
    let elem_config = ElementConfig { subelement_separator: b':', repetition_separator: b'^' };
    let segment = Segment::from_bytes(b"CLM*A:B*X^Y*PLAIN~", &seg_config).unwrap();

    match segment.element_at(2, &seg_config, &elem_config) {
        Some(Element::Single(ElementItem::Simple(body))) => assert_eq!(body, b"PLAIN"),
        _ => panic!("expected single simple element"),
    }
    match segment.element_at(0, &seg_config, &elem_config) {
        Some(Element::Single(ElementItem::Composite(components))) => {
            assert_eq!(components, vec![b"A".as_ref(), b"B".as_ref()]);
        }
        _ => panic!("expected single composite element"),
    }
    assert_eq!(segment.element_at(3, &seg_config, &elem_config), None);
}

#[test]
fn elements_derivation_is_repeatable() {
    let seg_config = SegmentConfig { terminator: b'~', element_separator: b'*' };
    let elem_config = ElementConfig { subelement_separator: b':', repetition_separator: b'^' };
    let segment = Segment::from_bytes(b"SV1*HC:98941*75^80**11~", &seg_config).unwrap();

    let first = segment.elements(&seg_config, &elem_config);
    let second = segment.elements(&seg_config, &elem_config);

    assert_eq!(first, second);
}
