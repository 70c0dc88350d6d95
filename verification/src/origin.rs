use vstd::prelude::*;

use crate::bytes::push_range;

verus! {

/// The placeholder token `$origin` as bytes.
pub open spec fn origin_token() -> Seq<u8> {
    seq![36u8, 111u8, 114u8, 105u8, 103u8, 105u8, 110u8]
}

/// The token `$origin` begins at position `i` of `s`.
pub open spec fn token_at(s: Seq<u8>, i: int) -> bool {
    &&& 0 <= i
    &&& i + 7 <= s.len()
    &&& s.subrange(i, i + 7) == origin_token()
}

/// `s` with every occurrence of `$origin` replaced by `origin`, scanning
/// left to right; the replacement itself is not rescanned.
pub open spec fn subst_origin(s: Seq<u8>, origin: Seq<u8>) -> Seq<u8>
    decreases s.len(),
{
    if token_at(s, 0) {
        origin + subst_origin(s.subrange(7, s.len() as int), origin)
    } else if s.len() > 0 {
        seq![s[0]] + subst_origin(s.drop_first(), origin)
    } else {
        Seq::empty()
    }
}

/// Tests whether the literal token `$origin` starts at position `i`.
fn origin_token_at(s: &Vec<u8>, i: usize) -> (r: bool)
    requires
        i <= s.len(),
    ensures
        r == token_at(s@, i as int),
{
    if s.len() - i < 7 {
        proof {
            assert(!token_at(s@, i as int));
        }
        return false;
    }
    let r = s[i] == 36 && s[i + 1] == 111 && s[i + 2] == 114 && s[i + 3] == 105 && s[i + 4] == 103
        && s[i + 5] == 105 && s[i + 6] == 110;
    proof {
        let t = origin_token();
        let sub = s@.subrange(i as int, i as int + 7);
        assert(t[0] == 36 && t[1] == 111 && t[2] == 114 && t[3] == 105 && t[4] == 103 && t[5]
            == 105 && t[6] == 110);
        if r {
            assert(sub =~= t);
        } else {
            let j = i as int;
            assert(sub[0] == s@[j] && sub[1] == s@[j + 1] && sub[2] == s@[j + 2] && sub[3] == s@[j
                + 3] && sub[4] == s@[j + 4] && sub[5] == s@[j + 5] && sub[6] == s@[j + 6]);
        }
    }
    r
}

/// Replaces every occurrence of the literal token `$origin` in `header`
/// with the resolved remote URL `origin`.
pub fn replace_origin_in_header(header: &Vec<u8>, origin: &Vec<u8>) -> (r: Vec<u8>)
    ensures
        r@ == subst_origin(header@, origin@),
{
    let mut out: Vec<u8> = Vec::new();
    let mut i: usize = 0;
    proof {
        assert(header@.subrange(0, header@.len() as int) =~= header@);
        assert(Seq::<u8>::empty() + subst_origin(header@, origin@) =~= subst_origin(
            header@,
            origin@,
        ));
    }
    while i < header.len()
        invariant
            i <= header.len(),
            out@ + subst_origin(header@.subrange(i as int, header@.len() as int), origin@)
                == subst_origin(header@, origin@),
        decreases header.len() - i,
    {
        let ghost rest = header@.subrange(i as int, header@.len() as int);
        let ghost done = out@;
        if origin_token_at(header, i) {
            proof {
                assert(rest.subrange(0, 7) =~= header@.subrange(i as int, i as int + 7));
                assert(token_at(rest, 0));
                assert(rest.subrange(7, rest.len() as int) =~= header@.subrange(
                    i as int + 7,
                    header@.len() as int,
                ));
            }
            push_range(&mut out, origin, 0, origin.len());
            proof {
                assert(origin@.subrange(0, origin@.len() as int) =~= origin@);
                assert(done + origin@ + subst_origin(
                    header@.subrange(i as int + 7, header@.len() as int),
                    origin@,
                ) =~= done + (origin@ + subst_origin(
                    rest.subrange(7, rest.len() as int),
                    origin@,
                )));
            }
            i += 7;
        } else {
            proof {
                if i + 7 <= header@.len() {
                    assert(rest.subrange(0, 7) =~= header@.subrange(i as int, i as int + 7));
                }
                assert(!token_at(rest, 0));
                assert(rest.drop_first() =~= header@.subrange(i as int + 1, header@.len() as int));
                assert(rest[0] == header@[i as int]);
            }
            out.push(header[i]);
            proof {
                assert(done + seq![header@[i as int]] + subst_origin(
                    header@.subrange(i as int + 1, header@.len() as int),
                    origin@,
                ) =~= done + (seq![rest[0]] + subst_origin(rest.drop_first(), origin@)));
            }
            i += 1;
        }
    }
    proof {
        assert(header@.subrange(i as int, header@.len() as int) =~= Seq::<u8>::empty());
        assert(out@ + Seq::<u8>::empty() =~= out@);
    }
    out
}

} // verus!
