use vstd::prelude::*;

verus! {

/// Index of the first occurrence of `sep` in `s`, or `s.len()` when `sep`
/// does not occur.
pub open spec fn find_sep(s: Seq<u8>, sep: u8) -> nat
    decreases s.len(),
{
    if s.len() == 0 {
        0
    } else if s[0] == sep {
        0
    } else {
        1 + find_sep(s.subrange(1, s.len() as int), sep)
    }
}

/// `find_sep` returns an index within bounds, pointing at the first
/// occurrence of `sep`, or `s.len()` exactly when `sep` does not occur.
pub proof fn lemma_find_sep_props(s: Seq<u8>, sep: u8)
    ensures
        find_sep(s, sep) <= s.len(),
        find_sep(s, sep) < s.len() ==> s[find_sep(s, sep) as int] == sep,
        forall|j: int| 0 <= j < find_sep(s, sep) ==> s[j] != sep,
        find_sep(s, sep) == s.len() ==> !s.contains(sep),
    decreases s.len(),
{
    if s.len() == 0 {
    } else if s[0] == sep {
    } else {
        let t = s.subrange(1, s.len() as int);
        lemma_find_sep_props(t, sep);
        assert forall|j: int| 0 <= j < find_sep(s, sep) implies s[j] != sep by {
            if j >= 1 {
                assert(t[j - 1] == s[j]);
            }
        }
        if find_sep(s, sep) == s.len() {
            if s.contains(sep) {
                let i = choose|i: int| 0 <= i < s.len() && s[i] == sep;
                assert(t[i - 1] == sep);
                assert(t.contains(sep));
            }
        }
    }
}

/// The index characterized by "no `sep` before it, `sep` at it or end of
/// sequence" is exactly `find_sep`.
pub proof fn lemma_find_sep_at(s: Seq<u8>, sep: u8, i: int)
    requires
        0 <= i <= s.len(),
        forall|j: int| 0 <= j < i ==> s[j] != sep,
        i < s.len() ==> s[i] == sep,
    ensures
        find_sep(s, sep) == i,
    decreases s.len(),
{
    if s.len() == 0 {
    } else if s[0] == sep {
        assert(i == 0);
    } else {
        assert(i >= 1);
        let t = s.subrange(1, s.len() as int);
        assert forall|j: int| 0 <= j < i - 1 implies t[j] != sep by {
            assert(t[j] == s[j + 1]);
        }
        assert(i - 1 < t.len() ==> t[i - 1] == sep);
        lemma_find_sep_at(t, sep, i - 1);
    }
}

/// `s` cut at every occurrence of `sep`: the parts between separators, in
/// order, separators not included.  There is always one part more than there
/// are separators, and adjacent separators contribute empty parts.
pub open spec fn split_on(s: Seq<u8>, sep: u8) -> Seq<Seq<u8>>
    decreases s.len(),
{
    let i = find_sep(s, sep) as int;
    if i < s.len() {
        seq![s.subrange(0, i)] + split_on(s.subrange(i + 1, s.len() as int), sep)
    } else {
        seq![s]
    }
}

/// Splitting yields at least one part, whatever the input.
pub proof fn lemma_split_on_nonempty(s: Seq<u8>, sep: u8)
    ensures
        split_on(s, sep).len() >= 1,
{
    let i = find_sep(s, sep) as int;
    if i < s.len() {
        assert(split_on(s, sep) == seq![s.subrange(0, i)] + split_on(
            s.subrange(i + 1, s.len() as int),
            sep,
        ));
    } else {
        assert(split_on(s, sep) == seq![s]);
    }
}

/// A sequence free of `sep` is one single part.
pub proof fn lemma_split_on_no_sep(s: Seq<u8>, sep: u8)
    requires
        !s.contains(sep),
    ensures
        split_on(s, sep) == seq![s],
{
    lemma_find_sep_props(s, sep);
    if find_sep(s, sep) < s.len() {
        assert(s[find_sep(s, sep) as int] == sep);
        assert(s.contains(sep));
    }
}

/// Splitting `part + [sep] + rest` peels off `part` whole, when `part` itself
/// is free of `sep`.
pub proof fn lemma_split_on_prepend(part: Seq<u8>, rest: Seq<u8>, sep: u8)
    requires
        !part.contains(sep),
    ensures
        split_on(part + seq![sep] + rest, sep) == seq![part] + split_on(rest, sep),
{
    let s = part + seq![sep] + rest;
    assert forall|j: int| 0 <= j < part.len() implies s[j] != sep by {
        assert(s[j] == part[j]);
        if s[j] == sep {
            assert(part.contains(sep));
        }
    }
    assert(s[part.len() as int] == sep);
    lemma_find_sep_at(s, sep, part.len() as int);
    assert(s.subrange(0, part.len() as int) =~= part);
    assert(s.subrange(part.len() as int + 1, s.len() as int) =~= rest);
}

/// Number of occurrences of `sep` in `s`.
pub open spec fn count_sep(s: Seq<u8>, sep: u8) -> nat
    decreases s.len(),
{
    if s.len() == 0 {
        0
    } else if s[0] == sep {
        1 + count_sep(s.subrange(1, s.len() as int), sep)
    } else {
        count_sep(s.subrange(1, s.len() as int), sep)
    }
}

/// A sequence free of `sep` has none of them.
proof fn lemma_count_sep_zero(s: Seq<u8>, sep: u8)
    requires
        !s.contains(sep),
    ensures
        count_sep(s, sep) == 0,
    decreases s.len(),
{
    if s.len() > 0 {
        let t = s.subrange(1, s.len() as int);
        assert forall|j: int| 0 <= j < t.len() implies t[j] != sep by {
            assert(t[j] == s[j + 1]);
            if s[j + 1] == sep {
                assert(s.contains(sep));
            }
        }
        lemma_count_sep_zero(t, sep);
    }
}

/// Cutting off everything through the first separator takes exactly one
/// separator away.
proof fn lemma_count_sep_skip(s: Seq<u8>, sep: u8, i: int)
    requires
        0 <= i < s.len(),
        s[i] == sep,
        forall|j: int| 0 <= j < i ==> s[j] != sep,
    ensures
        count_sep(s, sep) == count_sep(s.subrange(i + 1, s.len() as int), sep) + 1,
    decreases s.len(),
{
    let t = s.subrange(1, s.len() as int);
    if i == 0 {
        assert(s.subrange(1, s.len() as int) =~= s.subrange(i + 1, s.len() as int));
    } else {
        assert forall|j: int| 0 <= j < i - 1 implies t[j] != sep by {
            assert(t[j] == s[j + 1]);
        }
        assert(t[i - 1] == sep);
        lemma_count_sep_skip(t, sep, i - 1);
        assert(t.subrange(i, t.len() as int) =~= s.subrange(i + 1, s.len() as int));
    }
}

/// Splitting always yields exactly one part more than there are separators,
/// empty parts between adjacent separators included.
pub proof fn lemma_split_on_count(s: Seq<u8>, sep: u8)
    ensures
        split_on(s, sep).len() == count_sep(s, sep) + 1,
    decreases s.len(),
{
    lemma_find_sep_props(s, sep);
    let i = find_sep(s, sep) as int;
    if i < s.len() {
        lemma_count_sep_skip(s, sep, i);
        lemma_split_on_count(s.subrange(i + 1, s.len() as int), sep);
    } else {
        lemma_count_sep_zero(s, sep);
    }
}

/// The views of a sequence of owned byte vectors.
pub open spec fn views_of(parts: Seq<Vec<u8>>) -> Seq<Seq<u8>> {
    parts.map_values(|p: Vec<u8>| p@)
}

/// True exactly when `b` occurs in `bytes`.
pub fn contains_byte(bytes: &[u8], b: u8) -> (r: bool)
    ensures
        r == bytes@.contains(b),
{
    let n = bytes.len();
    let mut i: usize = 0;
    while i < n
        invariant
            i <= n,
            n == bytes@.len(),
            forall|j: int| 0 <= j < i ==> bytes@[j] != b,
        decreases n - i,
    {
        if bytes[i] == b {
            return true;
        }
        i += 1;
    }
    false
}

/// Index of the first occurrence of `sep` in `bytes[start..end]`, or `end`
/// when it does not occur there.
pub fn find_byte_from(bytes: &[u8], sep: u8, start: usize, end: usize) -> (r: usize)
    requires
        start <= end <= bytes@.len(),
    ensures
        start <= r <= end,
        r - start == find_sep(bytes@.subrange(start as int, end as int), sep),
        forall|j: int| start <= j < r ==> bytes@[j] != sep,
        r < end ==> bytes@[r as int] == sep,
{
    let mut i: usize = start;
    while i < end && bytes[i] != sep
        invariant
            start <= i <= end,
            end <= bytes@.len(),
            forall|j: int| start <= j < i ==> bytes@[j] != sep,
        decreases end - i,
    {
        i += 1;
    }
    proof {
        let sub = bytes@.subrange(start as int, end as int);
        assert forall|j: int| 0 <= j < i - start implies sub[j] != sep by {
            assert(sub[j] == bytes@[start + j]);
        }
        if i < end {
            assert(sub[i - start] == bytes@[i as int]);
        }
        lemma_find_sep_at(sub, sep, i as int - start as int);
    }
    i
}

/// Cut `bytes` at every occurrence of `sep` into owned parts, exactly as
/// `split_on` describes.
pub fn split_bytes(bytes: &[u8], sep: u8) -> (r: Vec<Vec<u8>>)
    ensures
        views_of(r@) == split_on(bytes@, sep),
{
    let n = bytes.len();
    let mut parts: Vec<Vec<u8>> = Vec::new();
    let mut start: usize = 0;
    proof {
        assert(bytes@.subrange(0, n as int) =~= bytes@);
        assert(views_of(parts@) + split_on(bytes@, sep) =~= split_on(bytes@, sep));
    }
    loop
        invariant
            start <= n,
            n == bytes@.len(),
            split_on(bytes@, sep) == views_of(parts@) + split_on(
                bytes@.subrange(start as int, n as int),
                sep,
            ),
        decreases n - start,
    {
        let ghost suffix = bytes@.subrange(start as int, n as int);
        let ghost prev_parts = parts@;
        let i = find_byte_from(bytes, sep, start, n);
        let piece = vstd::slice::slice_to_vec(vstd::slice::slice_subrange(bytes, start, i));
        parts.push(piece);
        proof {
            assert(views_of(parts@) =~= views_of(prev_parts) + seq![bytes@.subrange(
                start as int,
                i as int,
            )]);
        }
        if i < n {
            proof {
                assert(find_sep(suffix, sep) == i - start);
                assert(suffix.subrange(0, i - start) =~= bytes@.subrange(start as int, i as int));
                assert(suffix.subrange(i - start + 1, suffix.len() as int) =~= bytes@.subrange(
                    i as int + 1,
                    n as int,
                ));
                assert(split_on(suffix, sep) == seq![bytes@.subrange(start as int, i as int)]
                    + split_on(bytes@.subrange(i as int + 1, n as int), sep));
                assert(views_of(parts@) + split_on(bytes@.subrange(i as int + 1, n as int), sep)
                    =~= views_of(prev_parts) + split_on(suffix, sep));
            }
            start = i + 1;
        } else {
            proof {
                assert(find_sep(suffix, sep) == suffix.len());
                assert(split_on(suffix, sep) == seq![suffix]);
                assert(suffix =~= bytes@.subrange(start as int, i as int));
                assert(views_of(parts@) =~= views_of(prev_parts) + seq![suffix]);
                assert(views_of(parts@) =~= split_on(bytes@, sep));
            }
            return parts;
        }
    }
}

} // verus!
