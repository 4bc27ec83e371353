use edimancy::error::Error;
use edimancy::parser::{ParserConfig, ReadOutcome, StreamParser};

fn test_config() -> ParserConfig {
    ParserConfig::new('~', '*', ':', '^')
}

/// Cut a document the way a terminator-aware reader would: each chunk runs
/// up to and including the next terminator; a final unterminated remainder
/// is one more chunk.
fn chunks_of(document: &[u8], terminator: u8) -> Vec<Vec<u8>> {
    let mut chunks = Vec::new();
    let mut current = Vec::new();
    for &byte in document {
        current.push(byte);
        if byte == terminator {
            chunks.push(std::mem::take(&mut current));
        }
    }
    if !current.is_empty() {
        chunks.push(current);
    }
    chunks
}

#[test]
fn one_item_per_segment_then_nothing() {
    let document = b"ISA*00~GS*PO~BAD~ST*1*2~";
    let mut stream = StreamParser::new(test_config());

    let mut items = Vec::new();
    for chunk in chunks_of(document, b'~') {
        items.push(stream.next_item(ReadOutcome::Data(chunk)));
    }
    assert_eq!(items.len(), 4);

    let first = items[0].clone().unwrap().unwrap();
    assert_eq!(first.segment_id, b"ISA");
    assert_eq!(first.body, b"00");

    let second = items[1].clone().unwrap().unwrap();
    assert_eq!(second.segment_id, b"GS");
    assert_eq!(second.body, b"PO");

    // A malformed chunk yields a failure item; the stream keeps going.
    assert_eq!(items[2], Some(Err(Error::MissingElementSeparator)));

    let fourth = items[3].clone().unwrap().unwrap();
    assert_eq!(fourth.segment_id, b"ST");
    assert_eq!(fourth.body, b"1*2");

    // End of source closes the stream; nothing comes after.
    assert_eq!(stream.next_item(ReadOutcome::End), None);
    assert_eq!(stream.next_item(ReadOutcome::Data(b"GE*1~".to_vec())), None);
    assert_eq!(stream.next_item(ReadOutcome::Failure), None);
}

#[test]
fn final_unterminated_chunk_is_one_segment() {
    let document = b"ST*1~SE*2";
    let mut stream = StreamParser::new(test_config());

    let chunks = chunks_of(document, b'~');
    assert_eq!(chunks.len(), 2);

    let first = stream.next_item(ReadOutcome::Data(chunks[0].clone())).unwrap().unwrap();
    assert_eq!(first.segment_id, b"ST");
    assert_eq!(first.body, b"1");

    let second = stream.next_item(ReadOutcome::Data(chunks[1].clone())).unwrap().unwrap();
    assert_eq!(second.segment_id, b"SE");
    assert_eq!(second.body, b"2");

    assert_eq!(stream.next_item(ReadOutcome::End), None);
}

#[test]
fn read_failure_yields_io_failure_item() {
    let mut stream = StreamParser::new(test_config());

    let item = stream.next_item(ReadOutcome::Failure);

    assert_eq!(item, Some(Err(Error::IoFailure)));

    // An I/O failure does not exhaust the stream by itself.
    let next = stream.next_item(ReadOutcome::Data(b"ST*1~".to_vec())).unwrap().unwrap();
    assert_eq!(next.segment_id, b"ST");
}
