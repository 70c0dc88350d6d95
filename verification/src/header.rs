use vstd::prelude::*;

use crate::bytes::{byte_is_space, is_space};

verus! {

/// Length of the longest all-whitespace prefix of `s`.
pub open spec fn space_prefix_len(s: Seq<u8>) -> int
    decreases s.len(),
{
    if s.len() > 0 && is_space(s[0]) {
        1 + space_prefix_len(s.drop_first())
    } else {
        0
    }
}

/// A comment closer `*/` begins at position `p` of `s`.
pub open spec fn close_at(s: Seq<u8>, p: int) -> bool {
    &&& 0 <= p
    &&& p + 2 <= s.len()
    &&& s[p] == 42
    &&& s[p + 1] == 47
}

/// Position of the first `*/` at or after `from`, if any.
pub open spec fn first_close_from(s: Seq<u8>, from: int) -> Option<int>
    decreases s.len() - from,
{
    if from < 0 || from + 2 > s.len() {
        None
    } else if close_at(s, from) {
        Some(from)
    } else {
        first_close_from(s, from + 1)
    }
}

/// Length of the leading header match of `s`: optional whitespace, then
/// `/*`, then everything up to and including the first `*/`. `None` when no
/// such header starts the sequence.
pub open spec fn header_match_len(s: Seq<u8>) -> Option<int> {
    let w = space_prefix_len(s);
    if w + 2 <= s.len() && s[w] == 47 && s[w + 1] == 42 {
        match first_close_from(s, w + 2) {
            Some(p) => Some(p + 2),
            None => None,
        }
    } else {
        None
    }
}

/// The leading header of `s`: the matched text (whitespace included), or the
/// empty sequence when nothing matches.
pub open spec fn existing_header(s: Seq<u8>) -> Seq<u8> {
    match header_match_len(s) {
        Some(n) => s.subrange(0, n),
        None => Seq::empty(),
    }
}

/// `space_prefix_len` counts whitespace up to the first non-space byte.
pub proof fn lemma_space_prefix_len(s: Seq<u8>)
    ensures
        0 <= space_prefix_len(s) <= s.len(),
        forall|k: int| 0 <= k < space_prefix_len(s) ==> is_space(s[k]),
        space_prefix_len(s) < s.len() ==> !is_space(s[space_prefix_len(s)]),
    decreases s.len(),
{
    if s.len() > 0 && is_space(s[0]) {
        lemma_space_prefix_len(s.drop_first());
        assert forall|k: int| 0 <= k < space_prefix_len(s) implies is_space(s[k]) by {
            if k > 0 {
                assert(s.drop_first()[k - 1] == s[k]);
            }
        }
    }
}

/// A position before which every byte is whitespace and at which (if inside
/// `s`) a non-space byte stands is exactly `space_prefix_len`.
pub proof fn lemma_space_prefix_len_is(s: Seq<u8>, i: int)
    requires
        0 <= i <= s.len(),
        forall|k: int| 0 <= k < i ==> is_space(s[k]),
        i < s.len() ==> !is_space(s[i]),
    ensures
        space_prefix_len(s) == i,
    decreases s.len(),
{
    if s.len() > 0 && is_space(s[0]) {
        assert(i > 0);
        lemma_space_prefix_len_is(s.drop_first(), i - 1);
    }
}

/// A close found at `p` with none before it pins `first_close_from`.
pub proof fn lemma_first_close_some(s: Seq<u8>, from: int, p: int)
    requires
        0 <= from <= p,
        close_at(s, p),
        forall|q: int| from <= q < p ==> !close_at(s, q),
    ensures
        first_close_from(s, from) == Some(p),
    decreases p - from,
{
    if from < p {
        lemma_first_close_some(s, from + 1, p);
    }
}

/// No close at or after `from` pins `first_close_from` to `None`.
pub proof fn lemma_first_close_none(s: Seq<u8>, from: int)
    requires
        0 <= from,
        forall|q: int| from <= q ==> !close_at(s, q),
    ensures
        first_close_from(s, from) is None,
    decreases s.len() - from,
{
    if from + 2 <= s.len() {
        lemma_first_close_none(s, from + 1);
    }
}

/// What a `first_close_from` result means for the bytes of `s`.
pub proof fn lemma_first_close_props(s: Seq<u8>, from: int)
    requires
        0 <= from,
    ensures
        first_close_from(s, from) matches Some(p) ==> from <= p && close_at(s, p) && (forall|
            q: int,
        |
            from <= q < p ==> !close_at(s, q)),
        first_close_from(s, from) is None ==> (forall|q: int| from <= q ==> !close_at(s, q)),
    decreases s.len() - from,
{
    if from + 2 > s.len() {
        assert forall|q: int| from <= q implies !close_at(s, q) by {}
    } else if close_at(s, from) {
    } else {
        lemma_first_close_props(s, from + 1);
        if first_close_from(s, from) is None {
            assert forall|q: int| from <= q implies !close_at(s, q) by {}
        }
    }
}

/// Index of the first non-space byte of `content` (its length when all of it
/// is whitespace).
fn leading_space_end(content: &Vec<u8>) -> (i: usize)
    ensures
        i <= content.len(),
        i as int == space_prefix_len(content@),
{
    let mut i: usize = 0;
    while i < content.len()
        invariant
            i <= content.len(),
            forall|k: int| 0 <= k < i ==> is_space(content@[k]),
        ensures
            i <= content.len(),
            forall|k: int| 0 <= k < i ==> is_space(content@[k]),
            i < content.len() ==> !is_space(content@[i as int]),
        decreases content.len() - i,
    {
        if !byte_is_space(content[i]) {
            break ;
        }
        i += 1;
    }
    proof {
        lemma_space_prefix_len_is(content@, i as int);
    }
    i
}

/// Position of the first `*/` of `content` at or after `from`, if any.
fn find_close_from(content: &Vec<u8>, from: usize) -> (r: Option<usize>)
    requires
        from <= content.len(),
    ensures
        match r {
            Some(p) => first_close_from(content@, from as int) == Some(p as int) && p + 2
                <= content.len(),
            None => first_close_from(content@, from as int) is None,
        },
{
    let mut q: usize = from;
    while content.len() - q >= 2
        invariant
            from <= q <= content.len(),
            forall|j: int| from <= j < q ==> !close_at(content@, j),
        ensures
            from <= q <= content.len(),
            forall|j: int| from <= j < q ==> !close_at(content@, j),
            content.len() - q >= 2 ==> close_at(content@, q as int),
        decreases content.len() - q,
    {
        if content[q] == 42 && content[q + 1] == 47 {
            break ;
        }
        q += 1;
    }
    if content.len() - q >= 2 {
        proof {
            lemma_first_close_some(content@, from as int, q as int);
        }
        Some(q)
    } else {
        proof {
            assert forall|j: int| from as int <= j implies !close_at(content@, j) by {
                if j < q {
                } else {
                    assert(j + 2 > content@.len());
                }
            }
            lemma_first_close_none(content@, from as int);
        }
        None
    }
}

/// Finds the end of the leading block-comment header of `content`: optional
/// whitespace, `/*`, through the first `*/`.
pub fn find_header_end(content: &Vec<u8>) -> (r: Option<usize>)
    ensures
        match r {
            Some(n) => header_match_len(content@) == Some(n as int) && n <= content.len(),
            None => header_match_len(content@) is None,
        },
{
    let w = leading_space_end(content);
    if content.len() - w >= 2 && content[w] == 47 && content[w + 1] == 42 {
        match find_close_from(content, w + 2) {
            Some(p) => Some(p + 2),
            None => None,
        }
    } else {
        None
    }
}

} // verus!
