use crate::error::Error;
use crate::split::{contains_byte, split_bytes, split_on, views_of};
use vstd::prelude::*;

verus! {

/// The two delimiter bytes element decoding needs: the component (subelement)
/// separator inside one occurrence, and the repetition separator between
/// occurrences of one element.
#[derive(Debug, Clone, Copy, PartialEq, Eq)]
pub struct ElementConfig {
    pub subelement_separator: u8,
    pub repetition_separator: u8,
}

/// One occurrence of an element: a plain byte span, or an ordered row of
/// component spans when the component separator occurs in it.
#[derive(Debug, Clone, PartialEq, Eq)]
pub enum ElementItem {
    Simple(Vec<u8>),
    Composite(Vec<Vec<u8>>),
}

/// One element of a segment body: a single occurrence, or an ordered row of
/// occurrences when the repetition separator occurs in its span.
#[derive(Debug, Clone, PartialEq, Eq)]
pub enum Element {
    Single(ElementItem),
    Repeating(Vec<ElementItem>),
}

/// Mathematical content of an `ElementItem`.
#[verifier::ext_equal]
pub enum ItemView {
    Simple(Seq<u8>),
    Composite(Seq<Seq<u8>>),
}

/// Mathematical content of an `Element`.
#[verifier::ext_equal]
pub enum ElementView {
    Single(ItemView),
    Repeating(Seq<ItemView>),
}

impl View for ElementItem {
    type V = ItemView;

    open spec fn view(&self) -> ItemView {
        match self {
            ElementItem::Simple(body) => ItemView::Simple(body@),
            ElementItem::Composite(components) => ItemView::Composite(views_of(components@)),
        }
    }
}

impl View for Element {
    type V = ElementView;

    open spec fn view(&self) -> ElementView {
        match self {
            Element::Single(item) => ElementView::Single(item@),
            Element::Repeating(items) => ElementView::Repeating(
                items@.map_values(|it: ElementItem| it@),
            ),
        }
    }
}

/// What decoding one occurrence span yields: composite exactly when the
/// component separator occurs in it, otherwise the span itself.
pub open spec fn item_view_of(s: Seq<u8>, comp: u8) -> ItemView {
    if s.contains(comp) {
        ItemView::Composite(split_on(s, comp))
    } else {
        ItemView::Simple(s)
    }
}

/// What decoding one element span yields: repeating exactly when the
/// repetition separator occurs in it, each occurrence decoded on its own.
pub open spec fn element_view_of(s: Seq<u8>, comp: u8, rep: u8) -> ElementView {
    if s.contains(rep) {
        ElementView::Repeating(split_on(s, rep).map_values(|p: Seq<u8>| item_view_of(p, comp)))
    } else {
        ElementView::Single(item_view_of(s, comp))
    }
}

/// A span free of both separators decodes to a single scalar occurrence
/// wrapping the whole span unchanged.
pub proof fn lemma_plain_body_single_scalar(b: Seq<u8>, comp: u8, rep: u8)
    requires
        !b.contains(comp),
        !b.contains(rep),
    ensures
        element_view_of(b, comp, rep) == ElementView::Single(ItemView::Simple(b)),
{
}

/// Three parts free of both separators, joined by the component separator,
/// decode to a single composite with exactly those parts as components:
/// empty components between adjacent separators included.
pub proof fn lemma_composite_components(p1: Seq<u8>, p2: Seq<u8>, p3: Seq<u8>, comp: u8, rep: u8)
    requires
        !p1.contains(comp) && !p1.contains(rep),
        !p2.contains(comp) && !p2.contains(rep),
        !p3.contains(comp) && !p3.contains(rep),
        comp != rep,
    ensures
        element_view_of(p1 + seq![comp] + p2 + seq![comp] + p3, comp, rep)
            == ElementView::Single(ItemView::Composite(seq![p1, p2, p3])),
{
    let body = p1 + seq![comp] + p2 + seq![comp] + p3;
    lemma_joined_parts_free_of(body, p1, p2, p3, comp, rep);
    assert(body[p1.len() as int] == comp);
    assert(body =~= p1 + seq![comp] + (p2 + seq![comp] + p3));
    crate::split::lemma_split_on_prepend(p1, p2 + seq![comp] + p3, comp);
    crate::split::lemma_split_on_prepend(p2, p3, comp);
    crate::split::lemma_split_on_no_sep(p3, comp);
    assert(split_on(body, comp) =~= seq![p1, p2, p3]);
}

/// Three parts free of both separators, joined by the repetition separator,
/// decode to a repeating element with exactly three scalar occurrences.
pub proof fn lemma_repeating_occurrences(p1: Seq<u8>, p2: Seq<u8>, p3: Seq<u8>, comp: u8, rep: u8)
    requires
        !p1.contains(comp) && !p1.contains(rep),
        !p2.contains(comp) && !p2.contains(rep),
        !p3.contains(comp) && !p3.contains(rep),
        comp != rep,
    ensures
        element_view_of(p1 + seq![rep] + p2 + seq![rep] + p3, comp, rep)
            == ElementView::Repeating(
            seq![ItemView::Simple(p1), ItemView::Simple(p2), ItemView::Simple(p3)],
        ),
{
    let body = p1 + seq![rep] + p2 + seq![rep] + p3;
    lemma_joined_parts_free_of(body, p1, p2, p3, rep, comp);
    assert(body[p1.len() as int] == rep);
    assert(body.contains(rep));
    assert(body =~= p1 + seq![rep] + (p2 + seq![rep] + p3));
    crate::split::lemma_split_on_prepend(p1, p2 + seq![rep] + p3, rep);
    crate::split::lemma_split_on_prepend(p2, p3, rep);
    crate::split::lemma_split_on_no_sep(p3, rep);
    assert(split_on(body, rep) =~= seq![p1, p2, p3]);
    assert(split_on(body, rep).map_values(|p: Seq<u8>| item_view_of(p, comp))
        =~= seq![ItemView::Simple(p1), ItemView::Simple(p2), ItemView::Simple(p3)]);
}

/// Three parts free of `other`, joined by `joiner` with `joiner != other`,
/// make a sequence free of `other`.
proof fn lemma_joined_parts_free_of(
    body: Seq<u8>,
    p1: Seq<u8>,
    p2: Seq<u8>,
    p3: Seq<u8>,
    joiner: u8,
    other: u8,
)
    requires
        body == p1 + seq![joiner] + p2 + seq![joiner] + p3,
        !p1.contains(other),
        !p2.contains(other),
        !p3.contains(other),
        joiner != other,
    ensures
        !body.contains(other),
{
    if body.contains(other) {
        let i = choose|i: int| 0 <= i < body.len() && body[i] == other;
        let n1 = p1.len() as int;
        let n2 = p2.len() as int;
        if i < n1 {
            assert(body[i] == p1[i]);
            assert(p1.contains(other));
        } else if i == n1 {
            assert(body[i] == joiner);
        } else if i < n1 + 1 + n2 {
            assert(body[i] == p2[i - n1 - 1]);
            assert(p2.contains(other));
        } else if i == n1 + 1 + n2 {
            assert(body[i] == joiner);
        } else {
            assert(body[i] == p3[i - n1 - n2 - 2]);
            assert(p3.contains(other));
        }
    }
}

/// A repeating element holds exactly one occurrence per repetition
/// separator, plus one; a composite occurrence likewise one component per
/// component separator, plus one.
pub proof fn lemma_occurrence_and_component_counts(b: Seq<u8>, comp: u8, rep: u8)
    ensures
        element_view_of(b, comp, rep) matches ElementView::Repeating(occurrences)
            ==> occurrences.len() == crate::split::count_sep(b, rep) + 1,
        item_view_of(b, comp) matches ItemView::Composite(components) ==> components.len()
            == crate::split::count_sep(b, comp) + 1,
{
    crate::split::lemma_split_on_count(b, rep);
    crate::split::lemma_split_on_count(b, comp);
}

/// Deriving elements is a pure function of the span and the separator
/// bytes: any two derivations from the same span agree, structurally.
pub proof fn lemma_element_derivation_repeatable(
    b: Seq<u8>,
    comp: u8,
    rep: u8,
    v1: ElementView,
    v2: ElementView,
)
    requires
        v1 == element_view_of(b, comp, rep),
        v2 == element_view_of(b, comp, rep),
    ensures
        v1 == v2,
{
}

impl Element {
    /// Decode one element span.  Total: every byte span decodes, and the
    /// result is a function of the span and the two separator bytes alone.
    pub fn from_bytes(bytes: &[u8], config: &ElementConfig) -> (r: Result<Element, Error>)
        ensures
            r matches Ok(e) && e@ == element_view_of(
                bytes@,
                config.subelement_separator,
                config.repetition_separator,
            ),
    {
        if contains_byte(bytes, config.repetition_separator) {
            let parts = split_bytes(bytes, config.repetition_separator);
            let mut occurrences: Vec<ElementItem> = Vec::new();
            let n = parts.len();
            let mut k: usize = 0;
            while k < n
                invariant
                    k <= n,
                    n == parts@.len(),
                    views_of(parts@) == split_on(bytes@, config.repetition_separator),
                    occurrences@.map_values(|it: ElementItem| it@) =~= split_on(
                        bytes@,
                        config.repetition_separator,
                    ).subrange(0, k as int).map_values(
                        |p: Seq<u8>| item_view_of(p, config.subelement_separator),
                    ),
                decreases n - k,
            {
                let ghost prev = occurrences@;
                let item = Self::parse_item(parts[k].as_slice(), config);
                occurrences.push(item);
                proof {
                    let comp = config.subelement_separator;
                    let rep = config.repetition_separator;
                    assert(parts@[k as int]@ == split_on(bytes@, rep)[k as int]);
                    assert(occurrences@.map_values(|it: ElementItem| it@) =~= prev.map_values(
                        |it: ElementItem| it@,
                    ) + seq![item@]);
                    assert(split_on(bytes@, rep).subrange(0, k + 1) =~= split_on(
                        bytes@,
                        rep,
                    ).subrange(0, k as int) + seq![split_on(bytes@, rep)[k as int]]);
                    assert(occurrences@.map_values(|it: ElementItem| it@) =~= split_on(
                        bytes@,
                        rep,
                    ).subrange(0, k + 1).map_values(|p: Seq<u8>| item_view_of(p, comp)));
                }
                k += 1;
            }
            proof {
                let comp = config.subelement_separator;
                let rep = config.repetition_separator;
                assert(split_on(bytes@, rep).subrange(0, n as int) =~= split_on(bytes@, rep));
                assert(ElementView::Repeating(occurrences@.map_values(|it: ElementItem| it@))
                    =~~= element_view_of(bytes@, comp, rep));
            }
            Ok(Element::Repeating(occurrences))
        } else {
            Ok(Element::Single(Self::parse_item(bytes, config)))
        }
    }

    /// Decode one occurrence span into its components, or keep it whole.
    fn parse_item(bytes: &[u8], config: &ElementConfig) -> (r: ElementItem)
        ensures
            r@ == item_view_of(bytes@, config.subelement_separator),
    {
        if !contains_byte(bytes, config.subelement_separator) {
            return ElementItem::Simple(vstd::slice::slice_to_vec(bytes));
        }
        let components = split_bytes(bytes, config.subelement_separator);
        ElementItem::Composite(components)
    }
}

} // verus!
