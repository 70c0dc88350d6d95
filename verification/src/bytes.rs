use vstd::prelude::*;

verus! {

/// Bytes counted as whitespace throughout the library: the ASCII whitespace
/// characters (tab, line feed, vertical tab, form feed, carriage return,
/// space).
pub open spec fn is_space(b: u8) -> bool {
    b == 9 || b == 10 || b == 11 || b == 12 || b == 13 || b == 32
}

/// Executable counterpart of `is_space`.
pub fn byte_is_space(b: u8) -> (r: bool)
    ensures
        r == is_space(b),
{
    b == 9 || b == 10 || b == 11 || b == 12 || b == 13 || b == 32
}

/// Appends `src[from..to]` to `out`.
pub fn push_range(out: &mut Vec<u8>, src: &Vec<u8>, from: usize, to: usize)
    requires
        from <= to <= src.len(),
    ensures
        final(out)@ == old(out)@ + src@.subrange(from as int, to as int),
{
    let mut j: usize = from;
    while j < to
        invariant
            from <= j <= to <= src.len(),
            out@ == old(out)@ + src@.subrange(from as int, j as int),
        decreases to - j,
    {
        out.push(src[j]);
        proof {
            assert(old(out)@ + src@.subrange(from as int, j + 1 as int) =~= old(
                out,
            )@ + src@.subrange(from as int, j as int) + seq![src@[j as int]]);
        }
        j += 1;
    }
    proof {
        assert(out@ =~= old(out)@ + src@.subrange(from as int, to as int));
    }
}

/// Compares the prefix `a[0..n]` with the whole of `b`.
pub fn prefix_equals(a: &Vec<u8>, n: usize, b: &Vec<u8>) -> (r: bool)
    requires
        n <= a.len(),
    ensures
        r == (a@.subrange(0, n as int) == b@),
{
    if n != b.len() {
        proof {
            assert(a@.subrange(0, n as int).len() == n as int);
        }
        return false;
    }
    let mut k: usize = 0;
    while k < n
        invariant
            k <= n <= a.len(),
            n == b.len(),
            forall|j: int| 0 <= j < k ==> a@[j] == b@[j],
        decreases n - k,
    {
        if a[k] != b[k] {
            proof {
                assert(a@.subrange(0, n as int)[k as int] == a@[k as int]);
            }
            return false;
        }
        k += 1;
    }
    proof {
        assert(a@.subrange(0, n as int) =~= b@);
    }
    true
}

} // verus!
