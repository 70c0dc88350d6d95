use vstd::prelude::*;

verus! {

/// The suffix `.rs` as bytes.
pub open spec fn rs_suffix() -> Seq<u8> {
    seq![46u8, 114u8, 115u8]
}

/// The suffix `.cs` as bytes.
pub open spec fn cs_suffix() -> Seq<u8> {
    seq![46u8, 99u8, 115u8]
}

/// The extension filter: the path ends in `.rs` or `.cs`.
pub open spec fn has_source_extension(path: Seq<u8>) -> bool {
    &&& path.len() >= 3
    &&& (path.subrange(path.len() - 3, path.len() as int) == rs_suffix() || path.subrange(
        path.len() - 3,
        path.len() as int,
    ) == cs_suffix())
}

/// Tests whether a path passes the extension filter (ends in `.rs` or
/// `.cs`); only such files are read or rewritten.
pub fn is_source_path(path: &Vec<u8>) -> (r: bool)
    ensures
        r == has_source_extension(path@),
{
    if path.len() < 3 {
        return false;
    }
    let n = path.len();
    let r = path[n - 3] == 46 && ((path[n - 2] == 114 && path[n - 1] == 115) || (path[n - 2] == 99
        && path[n - 1] == 115));
    proof {
        let tail = path@.subrange(path@.len() - 3, path@.len() as int);
        assert(rs_suffix()[0] == 46 && rs_suffix()[1] == 114 && rs_suffix()[2] == 115);
        assert(cs_suffix()[0] == 46 && cs_suffix()[1] == 99 && cs_suffix()[2] == 115);
        assert(tail[0] == path@[n - 3] && tail[1] == path@[n - 2] && tail[2] == path@[n - 1]);
        if r {
            if path@[n - 2] == 114 {
                assert(tail =~= rs_suffix());
            } else {
                assert(tail =~= cs_suffix());
            }
        }
    }
    r
}

} // verus!
