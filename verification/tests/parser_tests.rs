use edimancy::error::Error;
use edimancy::parser::{parser_config_from_isa_header, ParserConfig, ISA_HEADER_LEN};

fn sample_header() -> Vec<u8> {
    // A fixed-width leading header: byte 3 carries the element separator,
    // byte 104 the component separator, byte 105 the terminator.
    let mut header = vec![b' '; ISA_HEADER_LEN];
    header[0] = b'I';
    header[1] = b'S';
    header[2] = b'A';
    header[3] = b'*';
    header[104] = b':';
    header[105] = b'~';
    header
}

#[test]
fn header_extraction_reads_fixed_offsets() {
    let header = sample_header();
    assert_eq!(header.len(), 106);

    let config = parser_config_from_isa_header(&header).unwrap();

    assert_eq!(config.segment_config.element_separator, b'*');
    assert_eq!(config.element_config.subelement_separator, b':');
    assert_eq!(config.segment_config.terminator, b'~');
    assert_eq!(config.element_config.repetition_separator, b'^');
}

#[test]
fn short_header_fails() {
    let header = vec![b' '; ISA_HEADER_LEN - 1];

    let res = parser_config_from_isa_header(&header);

    assert_eq!(res, Err(Error::HeaderTooShort));
}

#[test]
fn empty_header_fails() {
    let res = ParserConfig::from_isa_header(&[]);

    assert_eq!(res, Err(Error::HeaderTooShort));
}

#[test]
fn manual_config_keeps_the_four_bytes() {
    let config = ParserConfig::new('~', '*', ':', '^');

    assert_eq!(config.segment_config.terminator, b'~');
    assert_eq!(config.segment_config.element_separator, b'*');
    assert_eq!(config.element_config.subelement_separator, b':');
    assert_eq!(config.element_config.repetition_separator, b'^');
}
