use crate::components::element::{element_view_of, Element, ElementConfig, ElementView};
use crate::error::Error;
use crate::split::{find_byte_from, find_sep, split_bytes, split_on, views_of};
use vstd::prelude::*;

verus! {

/// The two delimiter bytes segment decoding needs: the terminator that closes
/// a segment and the separator between its elements.
#[derive(Debug, Clone, Copy, PartialEq, Eq)]
pub struct SegmentConfig {
    pub terminator: u8,
    pub element_separator: u8,
}

/// One decoded segment: an owned tag of one to four bytes and an owned body,
/// the bytes after the first element separator.
#[derive(Debug, Clone, PartialEq, Eq)]
pub struct Segment {
    pub segment_id: Vec<u8>,
    pub body: Vec<u8>,
}

/// Mathematical content of a `Segment`.
#[verifier::ext_equal]
pub struct SegView {
    pub tag: Seq<u8>,
    pub body: Seq<u8>,
}

impl View for Segment {
    type V = SegView;

    open spec fn view(&self) -> SegView {
        SegView { tag: self.segment_id@, body: self.body@ }
    }
}

/// `raw` with one trailing terminator byte removed, when present.
pub open spec fn strip_terminator(raw: Seq<u8>, term: u8) -> Seq<u8> {
    if raw.len() > 0 && raw[raw.len() - 1] == term {
        raw.subrange(0, raw.len() - 1)
    } else {
        raw
    }
}

/// What decoding one chunk yields: after stripping a trailing terminator, the
/// bytes before the first element separator are the tag and the bytes after
/// it are the body.  A chunk without a separator, or with a tag that is empty
/// or longer than four bytes, is refused.
pub open spec fn decode_segment_spec(raw: Seq<u8>, term: u8, esep: u8) -> Result<SegView, Error> {
    let s = strip_terminator(raw, term);
    let i = find_sep(s, esep) as int;
    if i == s.len() {
        Err(Error::MissingElementSeparator)
    } else if i == 0 || i > 4 {
        Err(Error::InvalidTagLength)
    } else {
        Ok((SegView { tag: s.subrange(0, i), body: s.subrange(i + 1, s.len() as int) }))
    }
}

/// The mathematical content of a decode result.
pub open spec fn seg_result_view(r: Result<Segment, Error>) -> Result<SegView, Error> {
    match r {
        Ok(seg) => Ok(seg@),
        Err(e) => Err(e),
    }
}

/// What decoding a segment body into its elements yields: one element per
/// part between element separators, in order.
pub open spec fn elements_view_of(body: Seq<u8>, esep: u8, comp: u8, rep: u8) -> Seq<ElementView> {
    split_on(body, esep).map_values(|p: Seq<u8>| element_view_of(p, comp, rep))
}

/// A chunk with no terminator byte is consumed whole: nothing is stripped,
/// and a successful decode accounts for every byte of the chunk.
pub proof fn lemma_unterminated_chunk_decodes_whole(s: Seq<u8>, term: u8, esep: u8)
    requires
        !s.contains(term),
    ensures
        strip_terminator(s, term) == s,
        decode_segment_spec(s, term, esep) matches Ok(v) ==> v.tag + seq![esep] + v.body == s,
{
    if s.len() > 0 && s[s.len() - 1] == term {
        assert(s.contains(term));
    }
    crate::split::lemma_find_sep_props(s, esep);
    if decode_segment_spec(s, term, esep) is Ok {
        let i = find_sep(s, esep) as int;
        let v = decode_segment_spec(s, term, esep)->Ok_0;
        assert(v.tag + seq![esep] + v.body =~= s);
    }
}

/// Framing round trip: a tag of one to four separator-free bytes, the
/// element separator, an arbitrary body and the terminator decode back to
/// exactly that tag and body.
pub proof fn lemma_framed_segment_decodes(tag: Seq<u8>, body: Seq<u8>, term: u8, esep: u8)
    requires
        1 <= tag.len() <= 4,
        !tag.contains(esep),
    ensures
        decode_segment_spec(tag + seq![esep] + body + seq![term], term, esep) == Ok::<
            SegView,
            Error,
        >((SegView { tag, body })),
{
    let raw = tag + seq![esep] + body + seq![term];
    let s = strip_terminator(raw, term);
    assert(raw[raw.len() - 1] == term);
    assert(s =~= tag + seq![esep] + body);
    lemma_unterminated_frame(tag, body, s, esep);
}

/// The same round trip for a source that ends without a terminator, as long
/// as the body does not itself end in the terminator byte (and a terminator
/// playing element separator does not close an empty body).
pub proof fn lemma_unterminated_segment_decodes(tag: Seq<u8>, body: Seq<u8>, term: u8, esep: u8)
    requires
        1 <= tag.len() <= 4,
        !tag.contains(esep),
        body.len() > 0 ==> body[body.len() - 1] != term,
        body.len() == 0 ==> esep != term,
    ensures
        decode_segment_spec(tag + seq![esep] + body, term, esep) == Ok::<SegView, Error>(
            (SegView { tag, body }),
        ),
{
    let raw = tag + seq![esep] + body;
    assert(raw[raw.len() - 1] != term);
    let s = strip_terminator(raw, term);
    assert(s =~= tag + seq![esep] + body);
    lemma_unterminated_frame(tag, body, s, esep);
}

/// Decoding of an already-stripped frame `tag + [esep] + body`.
proof fn lemma_unterminated_frame(tag: Seq<u8>, body: Seq<u8>, s: Seq<u8>, esep: u8)
    requires
        1 <= tag.len() <= 4,
        !tag.contains(esep),
        s == tag + seq![esep] + body,
    ensures
        find_sep(s, esep) == tag.len(),
        s.subrange(0, tag.len() as int) == tag,
        s.subrange(tag.len() as int + 1, s.len() as int) == body,
{
    assert forall|j: int| 0 <= j < tag.len() implies s[j] != esep by {
        assert(s[j] == tag[j]);
        if s[j] == esep {
            assert(tag.contains(esep));
        }
    }
    assert(s[tag.len() as int] == esep);
    crate::split::lemma_find_sep_at(s, esep, tag.len() as int);
    assert(s.subrange(0, tag.len() as int) =~= tag);
    assert(s.subrange(tag.len() as int + 1, s.len() as int) =~= body);
}

/// A chunk without the element separator never decodes, whatever else it
/// holds: the failure is always `MissingElementSeparator`.
pub proof fn lemma_missing_separator_fails(raw: Seq<u8>, term: u8, esep: u8)
    requires
        !raw.contains(esep),
    ensures
        decode_segment_spec(raw, term, esep) == Err::<SegView, Error>(
            Error::MissingElementSeparator,
        ),
{
    let s = strip_terminator(raw, term);
    assert forall|j: int| 0 <= j < s.len() implies s[j] != esep by {
        assert(s[j] == raw[j]);
        if raw[j] == esep {
            assert(raw.contains(esep));
        }
    }
    crate::split::lemma_find_sep_at(s, esep, s.len() as int);
}

/// A tag that is empty or longer than four bytes before the first element
/// separator is refused as `InvalidTagLength`.
pub proof fn lemma_bad_tag_length_fails(tag: Seq<u8>, body: Seq<u8>, term: u8, esep: u8)
    requires
        tag.len() == 0 || tag.len() > 4,
        !tag.contains(esep),
    ensures
        decode_segment_spec(tag + seq![esep] + body + seq![term], term, esep) == Err::<
            SegView,
            Error,
        >(Error::InvalidTagLength),
{
    let raw = tag + seq![esep] + body + seq![term];
    let s = strip_terminator(raw, term);
    assert(raw[raw.len() - 1] == term);
    assert(s =~= tag + seq![esep] + body);
    assert forall|j: int| 0 <= j < tag.len() implies s[j] != esep by {
        assert(s[j] == tag[j]);
        if s[j] == esep {
            assert(tag.contains(esep));
        }
    }
    assert(s[tag.len() as int] == esep);
    crate::split::lemma_find_sep_at(s, esep, tag.len() as int);
}

impl Segment {
    /// Decode one chunk, with or without its trailing terminator, into an
    /// owned tag and body.
    pub fn from_bytes(bytes: &[u8], config: &SegmentConfig) -> (r: Result<Segment, Error>)
        ensures
            seg_result_view(r) == decode_segment_spec(
                bytes@,
                config.terminator,
                config.element_separator,
            ),
    {
        let n = bytes.len();
        let end = if n > 0 && bytes[n - 1] == config.terminator {
            n - 1
        } else {
            n
        };
        proof {
            assert(bytes@.subrange(0, end as int) =~= strip_terminator(bytes@, config.terminator));
        }
        let i = find_byte_from(bytes, config.element_separator, 0, end);
        if i == end {
            Err(Error::MissingElementSeparator)
        } else if i == 0 || i > 4 {
            Err(Error::InvalidTagLength)
        } else {
            let segment_id = vstd::slice::slice_to_vec(
                vstd::slice::slice_subrange(bytes, 0, i),
            );
            let body = vstd::slice::slice_to_vec(
                vstd::slice::slice_subrange(bytes, i + 1, end),
            );
            proof {
                let s = strip_terminator(bytes@, config.terminator);
                assert(s.subrange(0, i as int) =~= bytes@.subrange(0, i as int));
                assert(s.subrange(i as int + 1, s.len() as int) =~= bytes@.subrange(
                    i as int + 1,
                    end as int,
                ));
            }
            Ok(Segment { segment_id, body })
        }
    }

    /// All elements of this segment's body, decoded in order.  The result is
    /// a function of the body and the separator bytes alone, so repeated
    /// derivations agree.
    pub fn elements(&self, seg_config: &SegmentConfig, elem_config: &ElementConfig) -> (r: Vec<
        Element,
    >)
        ensures
            r@.map_values(|e: Element| e@) == elements_view_of(
                self.body@,
                seg_config.element_separator,
                elem_config.subelement_separator,
                elem_config.repetition_separator,
            ),
    {
        let parts = split_bytes(self.body.as_slice(), seg_config.element_separator);
        let mut out: Vec<Element> = Vec::new();
        let n = parts.len();
        let mut k: usize = 0;
        while k < n
            invariant
                k <= n,
                n == parts@.len(),
                views_of(parts@) == split_on(self.body@, seg_config.element_separator),
                out@.map_values(|e: Element| e@) =~= split_on(
                    self.body@,
                    seg_config.element_separator,
                ).subrange(0, k as int).map_values(
                    |p: Seq<u8>| element_view_of(
                        p,
                        elem_config.subelement_separator,
                        elem_config.repetition_separator,
                    ),
                ),
            decreases n - k,
        {
            let ghost prev = out@;
            let decoded = Element::from_bytes(parts[k].as_slice(), elem_config);
            match decoded {
                Ok(e) => {
                    out.push(e);
                    proof {
                        let esep = seg_config.element_separator;
                        let comp = elem_config.subelement_separator;
                        let rep = elem_config.repetition_separator;
                        assert(parts@[k as int]@ == split_on(self.body@, esep)[k as int]);
                        assert(out@.map_values(|x: Element| x@) =~= prev.map_values(
                            |x: Element| x@,
                        ) + seq![e@]);
                        assert(split_on(self.body@, esep).subrange(0, k + 1) =~= split_on(
                            self.body@,
                            esep,
                        ).subrange(0, k as int) + seq![split_on(self.body@, esep)[k as int]]);
                        assert(out@.map_values(|x: Element| x@) =~= split_on(
                            self.body@,
                            esep,
                        ).subrange(0, k + 1).map_values(
                            |p: Seq<u8>| element_view_of(p, comp, rep),
                        ));
                    }
                },
                Err(_) => {
                    proof {
                        assert(false);
                    }
                },
            }
            k += 1;
        }
        proof {
            assert(split_on(self.body@, seg_config.element_separator).subrange(0, n as int)
                =~= split_on(self.body@, seg_config.element_separator));
        }
        out
    }

    /// The element at one position of this segment's body, derived on
    /// demand: only the spans up to the requested element are visited, and
    /// only that element is decoded.  Positions past the last element yield
    /// nothing.
    pub fn element_at(
        &self,
        index: usize,
        seg_config: &SegmentConfig,
        elem_config: &ElementConfig,
    ) -> (r: Option<Element>)
        ensures
            ({
                let views = elements_view_of(
                    self.body@,
                    seg_config.element_separator,
                    elem_config.subelement_separator,
                    elem_config.repetition_separator,
                );
                &&& index < views.len() ==> (r matches Some(e) && e@ == views[index as int])
                &&& index >= views.len() ==> r is None
            }),
    {
        let esep = seg_config.element_separator;
        let ghost full = split_on(self.body@, esep);
        let n = self.body.len();
        let mut start: usize = 0;
        let mut count: usize = 0;
        proof {
            assert(self.body@.subrange(0, n as int) =~= self.body@);
            assert(full.skip(0) =~= full);
        }
        while count < index
            invariant
                count <= index,
                start <= n,
                n == self.body@.len(),
                esep == seg_config.element_separator,
                full == split_on(self.body@, esep),
                full.len() == count + split_on(
                    self.body@.subrange(start as int, n as int),
                    esep,
                ).len(),
                full.skip(count as int) == split_on(
                    self.body@.subrange(start as int, n as int),
                    esep,
                ),
            decreases index - count,
        {
            let ghost suffix = self.body@.subrange(start as int, n as int);
            let i = find_byte_from(self.body.as_slice(), esep, start, n);
            if i == n {
                proof {
                    assert(find_sep(suffix, esep) == suffix.len());
                    assert(split_on(suffix, esep) == seq![suffix]);
                    assert(full.len() == count + 1);
                }
                return None;
            }
            proof {
                assert(find_sep(suffix, esep) == i - start);
                let rest = self.body@.subrange(i as int + 1, n as int);
                assert(suffix.subrange(i - start + 1, suffix.len() as int) =~= rest);
                assert(split_on(suffix, esep) == seq![suffix.subrange(0, i - start)] + split_on(
                    rest,
                    esep,
                ));
                assert forall|j: int| 0 <= j < full.len() - count - 1 implies full.skip(
                    count + 1,
                )[j] == split_on(rest, esep)[j] by {
                    assert(full.skip(count as int)[j + 1] == split_on(suffix, esep)[j + 1]);
                    assert(full.skip(count as int)[j + 1] == full[count + 1 + j]);
                    assert(split_on(suffix, esep)[j + 1] == split_on(rest, esep)[j]);
                }
                assert(full.skip(count + 1) =~= split_on(rest, esep));
            }
            start = i + 1;
            count += 1;
        }
        let ghost suffix = self.body@.subrange(start as int, n as int);
        let i = find_byte_from(self.body.as_slice(), esep, start, n);
        proof {
            crate::split::lemma_split_on_nonempty(suffix, esep);
            assert(index < full.len());
            if i < n {
                assert(find_sep(suffix, esep) == i - start);
                assert(suffix.subrange(0, i - start) =~= self.body@.subrange(
                    start as int,
                    i as int,
                ));
            } else {
                assert(find_sep(suffix, esep) == suffix.len());
                assert(split_on(suffix, esep) == seq![suffix]);
                assert(suffix =~= self.body@.subrange(start as int, i as int));
            }
            assert(split_on(suffix, esep)[0] == self.body@.subrange(start as int, i as int));
            assert(full[index as int] == full.skip(index as int)[0]);
        }
        let part = vstd::slice::slice_subrange(self.body.as_slice(), start, i);
        match Element::from_bytes(part, elem_config) {
            Ok(e) => Some(e),
            Err(_) => {
                proof {
                    assert(false);
                }
                None
            },
        }
    }
}

} // verus!
