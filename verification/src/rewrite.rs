use vstd::prelude::*;

use crate::bytes::{prefix_equals, push_range};
use crate::header::{
    close_at, existing_header, find_header_end, first_close_from, header_match_len,
    lemma_first_close_props, lemma_first_close_some, lemma_space_prefix_len,
    lemma_space_prefix_len_is, space_prefix_len,
};

verus! {

/// What the rewriter decides for one file: leave it alone, replace its
/// leading header, or insert the canonical header in front.
pub enum RewriteOutcome {
    /// The leading header already equals the canonical one; the file is not
    /// written.
    Skip,
    /// A leading header was found but differs; the payload is the whole new
    /// file content.
    Replace(Vec<u8>),
    /// No leading header was found; the payload is the whole new file
    /// content: the canonical header, a line feed, then the old content.
    Add(Vec<u8>),
}

/// The file content after one rewrite of `c` against the canonical header
/// `h`: unchanged when the leading header (or, with no match, the empty
/// sequence) already equals `h`; otherwise the matched header is replaced by
/// `h`, or `h` and a line feed are put in front.
pub open spec fn rewritten(c: Seq<u8>, h: Seq<u8>) -> Seq<u8> {
    if existing_header(c) == h {
        c
    } else {
        match header_match_len(c) {
            Some(n) => h + c.subrange(n, c.len() as int),
            None => h + seq![10u8] + c,
        }
    }
}

/// Decides the rewrite of one file's content against the canonical header.
pub fn rewrite_content(content: &Vec<u8>, header: &Vec<u8>) -> (r: RewriteOutcome)
    ensures
        match r {
            RewriteOutcome::Skip => existing_header(content@) == header@ && rewritten(
                content@,
                header@,
            ) == content@,
            RewriteOutcome::Replace(nc) => existing_header(content@) != header@
                && header_match_len(content@) is Some && nc@ == rewritten(content@, header@),
            RewriteOutcome::Add(nc) => existing_header(content@) != header@ && header_match_len(
                content@,
            ) is None && nc@ == rewritten(content@, header@),
        },
{
    match find_header_end(content) {
        Some(n) => {
            if prefix_equals(content, n, header) {
                RewriteOutcome::Skip
            } else {
                let mut nc: Vec<u8> = Vec::new();
                push_range(&mut nc, header, 0, header.len());
                push_range(&mut nc, content, n, content.len());
                proof {
                    assert(header@.subrange(0, header@.len() as int) =~= header@);
                    assert(nc@ =~= header@ + content@.subrange(n as int, content@.len() as int));
                }
                RewriteOutcome::Replace(nc)
            }
        },
        None => {
            if header.len() == 0 {
                proof {
                    assert(existing_header(content@) =~= header@);
                }
                RewriteOutcome::Skip
            } else {
                let mut nc: Vec<u8> = Vec::new();
                push_range(&mut nc, header, 0, header.len());
                nc.push(10);
                push_range(&mut nc, content, 0, content.len());
                proof {
                    assert(existing_header(content@).len() == 0);
                    assert(nc@ =~= header@ + seq![10u8] + content@);
                }
                RewriteOutcome::Add(nc)
            }
        },
    }
}

/// The header grammar matches `h` exactly: optional whitespace, `/*`, and
/// the first `*/` of `h` ends it. A canonical header of this shape is what
/// the rewriter can keep stable across runs.
pub open spec fn self_delimiting(h: Seq<u8>) -> bool {
    header_match_len(h) == Some(h.len() as int)
}

/// Putting anything after a self-delimiting header leaves the leading match
/// exactly at the header.
pub proof fn lemma_header_prefix(h: Seq<u8>, t: Seq<u8>)
    requires
        self_delimiting(h),
    ensures
        header_match_len(h + t) == Some(h.len() as int),
        existing_header(h + t) == h,
{
    let s = h + t;
    let w = space_prefix_len(h);
    lemma_space_prefix_len(h);
    assert(w + 2 <= h.len() && h[w] == 47 && h[w + 1] == 42);
    assert forall|k: int| 0 <= k < w implies crate::bytes::is_space(s[k]) by {
        assert(s[k] == h[k]);
    }
    lemma_space_prefix_len_is(s, w);
    let p = h.len() - 2;
    assert(first_close_from(h, w + 2) == Some(p));
    lemma_first_close_props(h, w + 2);
    assert forall|q: int| w + 2 <= q < p implies !close_at(s, q) by {
        assert(!close_at(h, q));
        assert(s[q] == h[q] && s[q + 1] == h[q + 1]);
    }
    assert(close_at(s, p)) by {
        assert(s[p] == h[p] && s[p + 1] == h[p + 1]);
    }
    lemma_first_close_some(s, w + 2, p);
    assert(header_match_len(s) == Some(h.len() as int));
    assert(existing_header(s) =~= h);
}

/// Law: one rewrite settles a file. When the canonical header is
/// self-delimiting, the rewritten content carries it as its leading header,
/// so a second rewrite against the same header changes nothing (the file is
/// skipped).
pub proof fn lemma_rewrite_idempotent(c: Seq<u8>, h: Seq<u8>)
    requires
        self_delimiting(h),
    ensures
        existing_header(rewritten(c, h)) == h,
        rewritten(rewritten(c, h), h) == rewritten(c, h),
{
    if existing_header(c) == h {
    } else {
        match header_match_len(c) {
            Some(n) => {
                lemma_header_prefix(h, c.subrange(n, c.len() as int));
            },
            None => {
                lemma_header_prefix(h, seq![10u8] + c);
                assert(h + (seq![10u8] + c) =~= h + seq![10u8] + c);
            },
        }
    }
}

} // verus!
