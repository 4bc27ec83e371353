use crate::components::element::ElementConfig;
use crate::components::segment::{decode_segment_spec, seg_result_view, Segment, SegmentConfig, SegView};
use crate::error::Error;
use vstd::prelude::*;

verus! {

/// Byte length of the fixed-width leading header from which the delimiter
/// bytes are read.
pub const ISA_HEADER_LEN: usize = 106;

/// Default repetition separator, the byte value of `^`: the fixed header
/// layout holds no offset for this role, so a documented default stands in.
pub const DEFAULT_REPETITION_SEPARATOR: u8 = 94;

/// The delimiter bytes of one document, threaded through every stage.
///
/// Nothing checks that the four bytes are distinct from one another; with
/// two roles on the same byte the format itself is ambiguous.
#[derive(Debug, Clone, Copy, PartialEq, Eq)]
pub struct ParserConfig {
    pub segment_config: SegmentConfig,
    pub element_config: ElementConfig,
}

impl ParserConfig {
    /// Build a configuration from four delimiter characters, each narrowed
    /// to its low byte.
    pub fn new(
        segment_terminator: char,
        element_separator: char,
        component_element_separator: char,
        repetition_separator: char,
    ) -> (r: Self)
        ensures
            r.segment_config.terminator == segment_terminator as u8,
            r.segment_config.element_separator == element_separator as u8,
            r.element_config.subelement_separator == component_element_separator as u8,
            r.element_config.repetition_separator == repetition_separator as u8,
    {
        Self {
            segment_config: SegmentConfig {
                terminator: segment_terminator as u8,
                element_separator: element_separator as u8,
            },
            element_config: ElementConfig {
                subelement_separator: component_element_separator as u8,
                repetition_separator: repetition_separator as u8,
            },
        }
    }

    /// The configuration a long-enough header describes: element separator
    /// at byte 3, component separator at byte 104, terminator at byte 105.
    /// The header layout holds no repetition separator; the documented
    /// default `^` stands in for it.
    pub open spec fn from_isa_header_spec(header: Seq<u8>) -> ParserConfig {
        ParserConfig {
            segment_config: SegmentConfig {
                terminator: header[105],
                element_separator: header[3],
            },
            element_config: ElementConfig {
                subelement_separator: header[104],
                repetition_separator: DEFAULT_REPETITION_SEPARATOR,
            },
        }
    }

    /// Read the delimiter bytes out of the fixed-width leading header.
    /// Exactly the headers shorter than `ISA_HEADER_LEN` bytes are refused.
    pub fn from_isa_header(isa_bytes: &[u8]) -> (r: Result<Self, Error>)
        ensures
            isa_bytes@.len() < ISA_HEADER_LEN ==> r == Err::<ParserConfig, Error>(
                Error::HeaderTooShort,
            ),
            isa_bytes@.len() >= ISA_HEADER_LEN ==> (r matches Ok(c) && c
                == Self::from_isa_header_spec(isa_bytes@)),
    {
        if isa_bytes.len() < ISA_HEADER_LEN {
            return Err(Error::HeaderTooShort);
        }
        let element_separator = isa_bytes[3];
        let subelement_separator = isa_bytes[104];
        let segment_terminator = isa_bytes[105];
        Ok(
            Self {
                segment_config: SegmentConfig {
                    terminator: segment_terminator,
                    element_separator,
                },
                element_config: ElementConfig {
                    subelement_separator,
                    repetition_separator: DEFAULT_REPETITION_SEPARATOR,
                },
            },
        )
    }
}

/// The outcome of one attempt to read the next terminator-delimited chunk
/// from the underlying byte source: some bytes, end of source, or a read
/// failure.
#[derive(Debug, Clone, PartialEq, Eq)]
pub enum ReadOutcome {
    Data(Vec<u8>),
    End,
    Failure,
}

/// The item a stream in the given state yields for one read outcome: nothing
/// once the source is exhausted or at its end, a decode of the chunk for
/// data, and an `IoFailure` item for a failed read.
pub open spec fn stream_item_spec(exhausted: bool, outcome: ReadOutcome, term: u8, esep: u8) -> Option<
    Result<SegView, Error>,
> {
    if exhausted {
        None
    } else {
        match outcome {
            ReadOutcome::End => None,
            ReadOutcome::Failure => Some(Err(Error::IoFailure)),
            ReadOutcome::Data(chunk) => Some(decode_segment_spec(chunk@, term, esep)),
        }
    }
}

/// Whether the stream is exhausted after it saw the given read outcome: the
/// transition is one-way and happens exactly at end of source.
pub open spec fn stream_exhausted_after(exhausted: bool, outcome: ReadOutcome) -> bool {
    exhausted || outcome is End
}

/// The mathematical content of one yielded item.
pub open spec fn opt_seg_view(r: Option<Result<Segment, Error>>) -> Option<
    Result<SegView, Error>,
> {
    match r {
        None => None,
        Some(res) => Some(seg_result_view(res)),
    }
}

/// The items a stream starting in the given state yields over a whole run
/// of read outcomes, one per outcome, in order.
pub open spec fn stream_run(
    exhausted: bool,
    outcomes: Seq<ReadOutcome>,
    term: u8,
    esep: u8,
) -> Seq<Option<Result<SegView, Error>>>
    decreases outcomes.len(),
{
    if outcomes.len() == 0 {
        Seq::empty()
    } else {
        seq![stream_item_spec(exhausted, outcomes[0], term, esep)] + stream_run(
            stream_exhausted_after(exhausted, outcomes[0]),
            outcomes.subrange(1, outcomes.len() as int),
            term,
            esep,
        )
    }
}

/// An exhausted stream yields nothing further, whatever is fed to it.
pub proof fn lemma_exhausted_stream_yields_nothing(outcomes: Seq<ReadOutcome>, term: u8, esep: u8)
    ensures
        stream_run(true, outcomes, term, esep).len() == outcomes.len(),
        forall|k: int|
            0 <= k < outcomes.len() ==> stream_run(true, outcomes, term, esep)[k] is None,
    decreases outcomes.len(),
{
    if outcomes.len() > 0 {
        lemma_exhausted_stream_yields_nothing(
            outcomes.subrange(1, outcomes.len() as int),
            term,
            esep,
        );
    }
}

/// One item per chunk: a document of terminator-delimited chunks followed by
/// end of source yields exactly one item per chunk, in source order — each
/// the decode of its chunk, usable or explicitly failed — and nothing
/// further, whatever is fed after the end.
pub proof fn lemma_stream_one_item_per_chunk(
    chunks: Seq<Vec<u8>>,
    tail: Seq<ReadOutcome>,
    term: u8,
    esep: u8,
)
    ensures
        ({
            let outcomes = chunks.map_values(|c: Vec<u8>| ReadOutcome::Data(c)) + seq![
                ReadOutcome::End,
            ] + tail;
            let run = stream_run(false, outcomes, term, esep);
            &&& run.len() == chunks.len() + 1 + tail.len()
            &&& forall|k: int|
                0 <= k < chunks.len() ==> run[k] == Some(decode_segment_spec(chunks[k]@, term, esep))
            &&& forall|k: int| chunks.len() <= k < run.len() ==> run[k] is None
        }),
    decreases chunks.len(),
{
    let outcomes = chunks.map_values(|c: Vec<u8>| ReadOutcome::Data(c)) + seq![ReadOutcome::End]
        + tail;
    let run = stream_run(false, outcomes, term, esep);
    if chunks.len() == 0 {
        assert(outcomes[0] == ReadOutcome::End);
        lemma_exhausted_stream_yields_nothing(
            outcomes.subrange(1, outcomes.len() as int),
            term,
            esep,
        );
        assert(run[0] is None);
        assert forall|k: int| chunks.len() <= k < run.len() implies run[k] is None by {
            if k > 0 {
                assert(run[k] == stream_run(
                    true,
                    outcomes.subrange(1, outcomes.len() as int),
                    term,
                    esep,
                )[k - 1]);
            }
        }
    } else {
        assert(outcomes[0] == chunks.map_values(|c: Vec<u8>| ReadOutcome::Data(c))[0]);
        assert(outcomes[0] == ReadOutcome::Data(chunks[0]));
        let rest = chunks.subrange(1, chunks.len() as int);
        lemma_stream_one_item_per_chunk(rest, tail, term, esep);
        let outcomes_rest = rest.map_values(|c: Vec<u8>| ReadOutcome::Data(c)) + seq![
            ReadOutcome::End,
        ] + tail;
        assert(outcomes.subrange(1, outcomes.len() as int) =~= outcomes_rest);
        let run_rest = stream_run(false, outcomes_rest, term, esep);
        assert(run == seq![
            Some(decode_segment_spec(chunks[0]@, term, esep)),
        ] + run_rest);
        assert forall|k: int|
            0 <= k < chunks.len() implies run[k] == Some(
            decode_segment_spec(chunks[k]@, term, esep),
        ) by {
            if k > 0 {
                assert(run[k] == run_rest[k - 1]);
                assert(rest[k - 1] == chunks[k]);
            }
        }
        assert forall|k: int| chunks.len() <= k < run.len() implies run[k] is None by {
            assert(run[k] == run_rest[k - 1]);
        }
    }
}

/// Pulls terminator-delimited chunks, as an outside byte source hands them
/// over, through segment decoding: a lazy, finite, non-restartable sequence
/// of decode results.
///
/// The caller performs the reads; `next_item` turns each read outcome into
/// the item the stream yields, so every decision the stream takes is a
/// function of its state and the outcome alone.
pub struct StreamParser {
    pub config: ParserConfig,
    pub exhausted: bool,
}

impl StreamParser {
    /// A fresh stream in its reading state.
    pub fn new(config: ParserConfig) -> (r: Self)
        ensures
            r.config == config,
            !r.exhausted,
    {
        Self { config, exhausted: false }
    }

    /// Advance the stream with the outcome of one read.  Yields exactly one
    /// item per chunk, a decode failure does not end the stream, and once
    /// the source reports its end the stream yields nothing further.
    pub fn next_item(&mut self, outcome: ReadOutcome) -> (r: Option<Result<Segment, Error>>)
        ensures
            final(self).config == old(self).config,
            final(self).exhausted == stream_exhausted_after(old(self).exhausted, outcome),
            opt_seg_view(r) == stream_item_spec(
                old(self).exhausted,
                outcome,
                old(self).config.segment_config.terminator,
                old(self).config.segment_config.element_separator,
            ),
    {
        if self.exhausted {
            return None;
        }
        match outcome {
            ReadOutcome::End => {
                self.exhausted = true;
                None
            },
            ReadOutcome::Failure => Some(Err(Error::IoFailure)),
            ReadOutcome::Data(chunk) => Some(
                Segment::from_bytes(chunk.as_slice(), &self.config.segment_config),
            ),
        }
    }
}

} // verus!
