//! The decision at the heart of the kernel statistics switch: whether the
//! text read back from the statistics control file says that statistics
//! collection is on. Reading and writing the file itself is I/O and stays
//! with the caller; this module judges the bytes.
use vstd::prelude::*;

verus! {

/// An ASCII whitespace byte: space, tab, newline or carriage return.
pub open spec fn is_ws(b: u8) -> bool {
    b == 32 || b == 9 || b == 10 || b == 13
}

/// `s` without its leading whitespace.
pub open spec fn trim_front(s: Seq<u8>) -> Seq<u8>
    decreases s.len(),
{
    if s.len() == 0 {
        s
    } else if is_ws(s[0]) {
        trim_front(s.skip(1))
    } else {
        s
    }
}

/// `s` without its trailing whitespace.
pub open spec fn trim_back(s: Seq<u8>) -> Seq<u8>
    decreases s.len(),
{
    if s.len() == 0 {
        s
    } else if is_ws(s.last()) {
        trim_back(s.drop_last())
    } else {
        s
    }
}

/// `s` without leading and trailing whitespace.
pub open spec fn trimmed(s: Seq<u8>) -> Seq<u8> {
    trim_back(trim_front(s))
}

/// Whether the control file's contents say that statistics collection is
/// enabled: the text, stripped of surrounding whitespace, is exactly `"1"`.
pub fn stats_flag_enabled(contents: &[u8]) -> (r: bool)
    ensures
        r == (trimmed(contents@) == seq![49u8]),
{
    let n = contents.len();
    let mut lo: usize = 0;
    proof {
        assert(contents@.skip(0) =~= contents@);
    }
    while lo < n && (contents[lo] == 32 || contents[lo] == 9 || contents[lo] == 10 || contents[lo]
        == 13)
        invariant
            n == contents@.len(),
            lo <= n,
            trim_front(contents@) == trim_front(contents@.skip(lo as int)),
        decreases n - lo,
    {
        proof {
            assert(contents@.skip(lo as int)[0] == contents@[lo as int]);
            assert(contents@.skip(lo as int).skip(1) =~= contents@.skip(lo + 1));
        }
        lo = lo + 1;
    }
    proof {
        if lo < n {
            assert(contents@.skip(lo as int)[0] == contents@[lo as int]);
        }
        assert(trim_front(contents@) == contents@.skip(lo as int));
    }
    let mut hi: usize = n;
    proof {
        assert(contents@.skip(lo as int).take(n - lo) =~= contents@.skip(lo as int));
    }
    while hi > lo && (contents[hi - 1] == 32 || contents[hi - 1] == 9 || contents[hi - 1] == 10
        || contents[hi - 1] == 13)
        invariant
            n == contents@.len(),
            lo <= hi <= n,
            trim_front(contents@) == contents@.skip(lo as int),
            trim_back(contents@.skip(lo as int)) == trim_back(
                contents@.skip(lo as int).take(hi - lo),
            ),
        decreases hi,
    {
        proof {
            let cur = contents@.skip(lo as int).take(hi - lo);
            assert(cur.last() == contents@[hi - 1]);
            assert(cur.drop_last() =~= contents@.skip(lo as int).take(hi - 1 - lo));
        }
        hi = hi - 1;
    }
    proof {
        let cur = contents@.skip(lo as int).take(hi - lo);
        if hi > lo {
            assert(cur.last() == contents@[hi - 1]);
        }
        assert(trim_back(cur) == cur);
        assert(trimmed(contents@) == cur);
    }
    if hi - lo != 1 {
        proof {
            assert(trimmed(contents@).len() != 1);
        }
        return false;
    }
    let b = contents[lo];
    proof {
        assert(contents@.skip(lo as int).take(1)[0] == contents@[lo as int]);
        if b == 49 {
            assert(trimmed(contents@) =~= seq![49u8]);
        } else {
            assert(trimmed(contents@)[0] != 49);
        }
    }
    b == 49
}

} // verus!
