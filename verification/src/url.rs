use vstd::prelude::*;

use crate::bytes::{byte_is_space, is_space, push_range};

verus! {

/// `s` without its leading whitespace.
pub open spec fn trim_front(s: Seq<u8>) -> Seq<u8>
    decreases s.len(),
{
    if s.len() > 0 && is_space(s[0]) {
        trim_front(s.drop_first())
    } else {
        s
    }
}

/// `s` without its trailing whitespace.
pub open spec fn trim_end(s: Seq<u8>) -> Seq<u8>
    decreases s.len(),
{
    if s.len() > 0 && is_space(s.last()) {
        trim_end(s.drop_last())
    } else {
        s
    }
}

/// `s` without its surrounding whitespace.
pub open spec fn trimmed(s: Seq<u8>) -> Seq<u8> {
    trim_front(trim_end(s))
}

/// The suffix `.git` as bytes.
pub open spec fn git_suffix() -> Seq<u8> {
    seq![46u8, 103u8, 105u8, 116u8]
}

/// `s` with exactly one trailing `.git` removed, when present.
pub open spec fn strip_git_suffix(s: Seq<u8>) -> Seq<u8> {
    if s.len() >= 4 && s.subrange(s.len() - 4, s.len() as int) == git_suffix() {
        s.subrange(0, s.len() - 4)
    } else {
        s
    }
}

/// What the raw output of the remote-URL lookup becomes: surrounding
/// whitespace trimmed, then one trailing `.git` stripped.
pub open spec fn normalized_url(raw: Seq<u8>) -> Seq<u8> {
    strip_git_suffix(trimmed(raw))
}

/// Bytes from `hi` on all whitespace, and a non-space byte just before `hi`
/// (when any byte is), pin `trim_end` to the prefix up to `hi`.
proof fn lemma_trim_end_range(s: Seq<u8>, hi: int)
    requires
        0 <= hi <= s.len(),
        forall|k: int| hi <= k < s.len() ==> is_space(s[k]),
        hi > 0 ==> !is_space(s[hi - 1]),
    ensures
        trim_end(s) == s.subrange(0, hi),
    decreases s.len(),
{
    if s.len() > 0 && is_space(s.last()) {
        assert(hi < s.len());
        lemma_trim_end_range(s.drop_last(), hi);
        assert(s.drop_last().subrange(0, hi) =~= s.subrange(0, hi));
    } else {
        assert(hi == s.len());
        assert(s.subrange(0, hi) =~= s);
    }
}

/// Whitespace before `lo` and a non-space byte at `lo` (when inside `s`) pin
/// `trim_front` to the suffix from `lo`.
proof fn lemma_trim_front_range(s: Seq<u8>, lo: int)
    requires
        0 <= lo <= s.len(),
        forall|k: int| 0 <= k < lo ==> is_space(s[k]),
        lo < s.len() ==> !is_space(s[lo]),
    ensures
        trim_front(s) == s.subrange(lo, s.len() as int),
    decreases s.len(),
{
    if s.len() > 0 && is_space(s[0]) {
        assert(lo > 0);
        lemma_trim_front_range(s.drop_first(), lo - 1);
        assert(s.drop_first().subrange(lo - 1, s.len() - 1) =~= s.subrange(lo, s.len() as int));
    } else {
        assert(lo == 0);
        assert(s.subrange(0, s.len() as int) =~= s);
    }
}

/// Normalizes the raw output of the remote-URL lookup: trims surrounding
/// whitespace, then strips exactly one trailing `.git` if present.
pub fn normalize_remote_url(raw: &Vec<u8>) -> (r: Vec<u8>)
    ensures
        r@ == normalized_url(raw@),
{
    let ghost s = raw@;
    let mut hi: usize = raw.len();
    while hi > 0
        invariant
            hi <= raw.len(),
            forall|k: int| hi <= k < raw@.len() ==> is_space(raw@[k]),
        ensures
            hi <= raw.len(),
            forall|k: int| hi <= k < raw@.len() ==> is_space(raw@[k]),
            hi > 0 ==> !is_space(raw@[hi - 1]),
        decreases hi,
    {
        if !byte_is_space(raw[hi - 1]) {
            break ;
        }
        hi -= 1;
    }
    proof {
        lemma_trim_end_range(s, hi as int);
    }
    let ghost cut = s.subrange(0, hi as int);
    let mut lo: usize = 0;
    while lo < hi
        invariant
            lo <= hi <= raw.len(),
            forall|k: int| 0 <= k < lo ==> is_space(raw@[k]),
        ensures
            lo <= hi <= raw.len(),
            forall|k: int| 0 <= k < lo ==> is_space(raw@[k]),
            lo < hi ==> !is_space(raw@[lo as int]),
        decreases hi - lo,
    {
        if !byte_is_space(raw[lo]) {
            break ;
        }
        lo += 1;
    }
    proof {
        assert forall|k: int| 0 <= k < lo implies is_space(cut[k]) by {
            assert(cut[k] == s[k]);
        }
        lemma_trim_front_range(cut, lo as int);
        assert(trimmed(s) =~= s.subrange(lo as int, hi as int));
    }
    let ghost tr = trimmed(s);
    let end: usize = if hi - lo >= 4 && raw[hi - 4] == 46 && raw[hi - 3] == 103 && raw[hi - 2]
        == 105 && raw[hi - 1] == 116 {
        proof {
            assert(tr.subrange(tr.len() - 4, tr.len() as int) =~= git_suffix());
        }
        hi - 4
    } else {
        proof {
            if tr.len() >= 4 && tr.subrange(tr.len() - 4, tr.len() as int) == git_suffix() {
                let g = git_suffix();
                assert(g[0] == 46 && g[1] == 103 && g[2] == 105 && g[3] == 116);
                assert(tr[tr.len() - 4] == s[hi - 4] && tr[tr.len() - 3] == s[hi - 3] && tr[tr.len()
                    - 2] == s[hi - 2] && tr[tr.len() - 1] == s[hi - 1]);
            }
        }
        hi
    };
    let mut out: Vec<u8> = Vec::new();
    push_range(&mut out, raw, lo, end);
    proof {
        assert(out@ =~= normalized_url(s));
    }
    out
}

} // verus!
