//! Byte-level building blocks shared by the exposition encoder and decoder:
//! ASCII text as byte sequences, decimal rendering and reading of integers,
//! and escaping of label values.
use vstd::prelude::*;
use vstd::slice::{slice_subrange, slice_to_vec};
use vstd::string::is_ascii_spec_bytes;
use vstd::string::StringSliceAdditionalSpecFns;

verus! {

/// The bytes of an ASCII character sequence, one byte per character.
pub open spec fn ascii_bytes(cs: Seq<char>) -> Seq<u8> {
    Seq::new(cs.len(), |i: int| cs[i] as u8)
}

/// Copies the bytes of an ASCII string literal into a fresh byte vector.
pub fn lit_bytes(s: &str) -> (r: Vec<u8>)
    requires
        s.is_ascii(),
    ensures
        r@ == ascii_bytes(s@),
{
    broadcast use is_ascii_spec_bytes;

    slice_to_vec(s.as_bytes())
}

/// A copy of a byte vector.
pub fn copy_bytes(v: &Vec<u8>) -> (r: Vec<u8>)
    ensures
        r@ == v@,
{
    slice_to_vec(v.as_slice())
}

/// Appends all of `s` to `out`.
pub fn push_bytes(out: &mut Vec<u8>, s: &[u8])
    ensures
        final(out)@ == old(out)@ + s@,
{
    out.extend_from_slice(s);
    proof {
        assert(out@ =~= old(out)@ + s@);
    }
}

/// A decimal digit byte, `'0'` through `'9'`.
pub open spec fn is_digit(b: u8) -> bool {
    48 <= b <= 57
}

/// The decimal rendering of `n`, most significant digit first, no sign and
/// no leading zero (`0` renders as the single byte `'0'`).
pub open spec fn dec_digits(n: nat) -> Seq<u8>
    decreases n,
{
    if n < 10 {
        seq![(48 + n) as u8]
    } else {
        dec_digits(n / 10).push((48 + n % 10) as u8)
    }
}

/// The value of a sequence of decimal digit bytes, most significant first.
pub open spec fn digits_val(s: Seq<u8>) -> nat
    decreases s.len(),
{
    if s.len() == 0 {
        0
    } else {
        digits_val(s.drop_last()) * 10 + (s.last() - 48) as nat
    }
}

/// All bytes of `s` are decimal digits.
pub open spec fn all_digits(s: Seq<u8>) -> bool {
    forall|i: int| 0 <= i < s.len() ==> is_digit(#[trigger] s[i])
}

/// Reading back the decimal rendering of `n` gives `n` again.
pub proof fn lemma_dec_digits_val(n: nat)
    ensures
        digits_val(dec_digits(n)) == n,
        dec_digits(n).len() >= 1,
        all_digits(dec_digits(n)),
        dec_digits(n)[0] != 48 || n < 10,
    decreases n,
{
    if n < 10 {
        assert(dec_digits(n) =~= seq![(48 + n) as u8]);
        assert(dec_digits(n).drop_last() =~= Seq::<u8>::empty());
        assert(digits_val(dec_digits(n)) == digits_val(dec_digits(n).drop_last()) * 10 + (
        dec_digits(n).last() - 48) as nat);
        assert(digits_val(Seq::<u8>::empty()) == 0);
    } else {
        lemma_dec_digits_val(n / 10);
        let s = dec_digits(n);
        assert(s.drop_last() =~= dec_digits(n / 10));
        assert(s.last() == (48 + n % 10) as u8);
        assert(n / 10 * 10 + n % 10 == n) by (nonlinear_arith);
        assert(digits_val(s) == digits_val(s.drop_last()) * 10 + (s.last() - 48) as nat);
        assert(s[0] == dec_digits(n / 10)[0]);
    }
}

/// Appends the decimal rendering of `n` to `out`.
pub fn push_u64_dec(out: &mut Vec<u8>, n: u64)
    ensures
        final(out)@ == old(out)@ + dec_digits(n as nat),
    decreases n,
{
    if n >= 10 {
        push_u64_dec(out, n / 10);
    }
    out.push((48 + (n % 10) as u8));
    proof {
        if n < 10 {
            assert(out@ =~= old(out)@ + dec_digits(n as nat));
        } else {
            assert(out@ =~= old(out)@ + dec_digits(n as nat));
        }
    }
}

/// A byte that the label-value escaping must prefix with a backslash:
/// the double quote and the backslash itself.
pub open spec fn needs_escape(b: u8) -> bool {
    b == 34 || b == 92
}

/// The escaped form of one byte.
pub open spec fn esc_byte(b: u8) -> Seq<u8> {
    if needs_escape(b) {
        seq![92u8, b]
    } else {
        seq![b]
    }
}

/// The escaped form of a label value: quotes and backslashes get a
/// backslash prefix, every other byte stands unchanged.
pub open spec fn esc_bytes(s: Seq<u8>) -> Seq<u8>
    decreases s.len(),
{
    if s.len() == 0 {
        Seq::empty()
    } else {
        esc_byte(s[0]) + esc_bytes(s.skip(1))
    }
}

pub proof fn lemma_esc_snoc(s: Seq<u8>, b: u8)
    ensures
        esc_bytes(s.push(b)) == esc_bytes(s) + esc_byte(b),
    decreases s.len(),
{
    if s.len() == 0 {
        assert(s.push(b).skip(1) =~= Seq::<u8>::empty());
        assert(s.push(b)[0] == b);
        assert(esc_bytes(s.push(b)) == esc_byte(b) + esc_bytes(Seq::<u8>::empty()));
        assert(esc_byte(b) + Seq::<u8>::empty() =~= esc_byte(b));
        assert(esc_bytes(s) + esc_byte(b) =~= esc_byte(b));
    } else {
        lemma_esc_snoc(s.skip(1), b);
        assert(s.push(b).skip(1) =~= s.skip(1).push(b));
        assert(s.push(b)[0] == s[0]);
        assert(esc_bytes(s.push(b)) == esc_byte(s[0]) + (esc_bytes(s.skip(1)) + esc_byte(b)));
        assert(esc_byte(s[0]) + (esc_bytes(s.skip(1)) + esc_byte(b)) =~= (esc_byte(s[0])
            + esc_bytes(s.skip(1))) + esc_byte(b));
    }
}

/// Appends the escaped form of `s` to `out`.
pub fn push_escaped(out: &mut Vec<u8>, s: &[u8])
    ensures
        final(out)@ == old(out)@ + esc_bytes(s@),
{
    let mut i: usize = 0;
    proof {
        assert(s@.take(0) =~= Seq::<u8>::empty());
        assert(out@ =~= old(out)@ + esc_bytes(s@.take(0)));
    }
    while i < s.len()
        invariant
            i <= s@.len(),
            out@ == old(out)@ + esc_bytes(s@.take(i as int)),
        decreases s@.len() - i,
    {
        let b = s[i];
        if b == 34 || b == 92 {
            out.push(92);
        }
        out.push(b);
        proof {
            lemma_esc_snoc(s@.take(i as int), b);
            assert(s@.take(i + 1) =~= s@.take(i as int).push(b));
            assert(out@ =~= old(out)@ + esc_bytes(s@.take(i + 1)));
        }
        i = i + 1;
    }
    proof {
        assert(s@.take(s@.len() as int) =~= s@);
    }
}

/// Whether `s` begins with `p`.
pub open spec fn starts_with(s: Seq<u8>, p: Seq<u8>) -> bool {
    s.len() >= p.len() && s.take(p.len() as int) == p
}

/// The position of the first occurrence of `b` in `s`, or `-1`.
pub open spec fn find_byte(s: Seq<u8>, b: u8) -> int
    decreases s.len(),
{
    if s.len() == 0 {
        -1
    } else if s[0] == b {
        0
    } else {
        let r = find_byte(s.skip(1), b);
        if r < 0 {
            -1
        } else {
            r + 1
        }
    }
}

/// What a found or missing first occurrence means.
pub proof fn lemma_find_byte_bounds(s: Seq<u8>, b: u8)
    ensures
        find_byte(s, b) == -1 ==> (forall|j: int| 0 <= j < s.len() ==> s[j] != b),
        find_byte(s, b) != -1 ==> 0 <= find_byte(s, b) < s.len() && s[find_byte(s, b)] == b && (
        forall|j: int| 0 <= j < find_byte(s, b) ==> s[j] != b),
    decreases s.len(),
{
    if s.len() > 0 && s[0] != b {
        lemma_find_byte_bounds(s.skip(1), b);
        let r = find_byte(s.skip(1), b);
        if r == -1 {
            assert forall|j: int| 0 <= j < s.len() implies s[j] != b by {
                if j > 0 {
                    assert(s.skip(1)[j - 1] != b);
                }
            }
        } else {
            assert(s[r + 1] == s.skip(1)[r]);
            assert forall|j: int| 0 <= j < r + 1 implies s[j] != b by {
                if j > 0 {
                    assert(s.skip(1)[j - 1] != b);
                }
            }
        }
    }
}

/// The first occurrence is where a witness says it is.
pub proof fn lemma_find_byte_at(s: Seq<u8>, b: u8, k: int)
    requires
        0 <= k < s.len(),
        s[k] == b,
        forall|j: int| 0 <= j < k ==> s[j] != b,
    ensures
        find_byte(s, b) == k,
    decreases k,
{
    if k > 0 {
        assert(s[0] != b);
        assert(s.skip(1)[k - 1] == b);
        assert forall|j: int| 0 <= j < k - 1 implies s.skip(1)[j] != b by {
            assert(s[j + 1] != b);
        }
        lemma_find_byte_at(s.skip(1), b, k - 1);
    }
}

/// Without an occurrence, nothing is found.
pub proof fn lemma_find_byte_none(s: Seq<u8>, b: u8)
    requires
        forall|j: int| 0 <= j < s.len() ==> s[j] != b,
    ensures
        find_byte(s, b) == -1,
    decreases s.len(),
{
    if s.len() > 0 {
        assert forall|j: int| 0 <= j < s.skip(1).len() implies s.skip(1)[j] != b by {
            assert(s[j + 1] != b);
        }
        lemma_find_byte_none(s.skip(1), b);
    }
}

/// Finds the first occurrence of `b` in `v` at or after `from`.
pub fn find_byte_in(v: &[u8], from: usize, b: u8) -> (r: Option<usize>)
    requires
        from <= v@.len(),
    ensures
        match r {
            Option::Some(i) => from <= i < v@.len() && find_byte(v@.skip(from as int), b) == i
                - from,
            Option::None => find_byte(v@.skip(from as int), b) == -1,
        },
{
    let mut i: usize = from;
    while i < v.len()
        invariant
            from <= i <= v@.len(),
            forall|j: int| from <= j < i ==> v@[j] != b,
        decreases v@.len() - i,
    {
        if v[i] == b {
            proof {
                let s = v@.skip(from as int);
                assert(s[i - from] == b);
                assert forall|j: int| 0 <= j < i - from implies s[j] != b by {
                    assert(v@[from + j] != b);
                }
                lemma_find_byte_at(s, b, i - from);
            }
            return Option::Some(i);
        }
        i = i + 1;
    }
    proof {
        let s = v@.skip(from as int);
        assert forall|j: int| 0 <= j < s.len() implies s[j] != b by {
            assert(v@[from + j] != b);
        }
        lemma_find_byte_none(s, b);
    }
    Option::None
}

/// How many decimal digit bytes `s` begins with.
pub open spec fn digits_prefix_len(s: Seq<u8>) -> int
    decreases s.len(),
{
    if s.len() == 0 {
        0
    } else if !is_digit(s[0]) {
        0
    } else {
        1 + digits_prefix_len(s.skip(1))
    }
}

/// Where the leading digits end.
pub proof fn lemma_digits_prefix_len_bounds(s: Seq<u8>)
    ensures
        0 <= digits_prefix_len(s) <= s.len(),
        forall|j: int| 0 <= j < digits_prefix_len(s) ==> is_digit(#[trigger] s[j]),
        digits_prefix_len(s) < s.len() ==> !is_digit(s[digits_prefix_len(s)]),
    decreases s.len(),
{
    if s.len() > 0 && is_digit(s[0]) {
        lemma_digits_prefix_len_bounds(s.skip(1));
        let d = digits_prefix_len(s.skip(1));
        assert forall|j: int| 0 <= j < d + 1 implies is_digit(#[trigger] s[j]) by {
            if j > 0 {
                assert(is_digit(s.skip(1)[j - 1]));
            }
        }
        if d + 1 < s.len() {
            assert(s[d + 1] == s.skip(1)[d]);
        }
    }
}

/// The leading digits end where a witness says they do.
pub proof fn lemma_digits_prefix_len_at(s: Seq<u8>, k: int)
    requires
        0 <= k <= s.len(),
        forall|j: int| 0 <= j < k ==> is_digit(#[trigger] s[j]),
        k < s.len() ==> !is_digit(s[k]),
    ensures
        digits_prefix_len(s) == k,
    decreases k,
{
    if k == 0 {
    } else {
        assert forall|j: int| 0 <= j < k - 1 implies is_digit(#[trigger] s.skip(1)[j]) by {
            assert(is_digit(s[j + 1]));
        }
        if k - 1 < s.skip(1).len() {
            assert(s.skip(1)[k - 1] == s[k]);
        }
        lemma_digits_prefix_len_at(s.skip(1), k - 1);
    }
}

/// A digit string's value only grows as digits are appended.
pub proof fn lemma_digits_val_mono(s: Seq<u8>, k: int)
    requires
        0 <= k <= s.len(),
    ensures
        digits_val(s.take(k)) <= digits_val(s),
    decreases s.len(),
{
    if k < s.len() {
        lemma_digits_val_mono(s.drop_last(), k);
        assert(s.drop_last().take(k) =~= s.take(k));
        assert(digits_val(s) == digits_val(s.drop_last()) * 10 + (s.last() - 48) as nat);
        assert(digits_val(s.drop_last()) * 10 >= digits_val(s.drop_last())) by (nonlinear_arith);
    } else {
        assert(s.take(k) =~= s);
    }
}

/// Scans the digit prefix of `v` starting at `from`. Returns its length, a
/// flag saying whether its value fits a `u64`, and, when it fits, the value.
pub fn scan_u64_digits(v: &[u8], from: usize) -> (r: (usize, bool, u64))
    requires
        from <= v@.len(),
    ensures
        ({
            let s = v@.skip(from as int);
            let dl = digits_prefix_len(s);
            &&& r.0 == dl
            &&& from + r.0 <= v@.len()
            &&& r.1 == (digits_val(s.take(dl)) <= u64::MAX)
            &&& (r.1 ==> r.2 == digits_val(s.take(dl)))
        }),
{
    let ghost s = v@.skip(from as int);
    let mut i: usize = from;
    let mut acc: u64 = 0;
    let mut fits: bool = true;
    proof {
        assert(s.take(0) =~= Seq::<u8>::empty());
    }
    while i < v.len() && v[i] >= 48 && v[i] <= 57
        invariant
            from <= i <= v@.len(),
            s == v@.skip(from as int),
            forall|j: int| 0 <= j < i - from ==> is_digit(#[trigger] s[j]),
            fits == (digits_val(s.take(i - from)) <= u64::MAX),
            fits ==> acc == digits_val(s.take(i - from)),
        decreases v@.len() - i,
    {
        let d = v[i] - 48;
        proof {
            assert(s[i - from] == v@[i as int]);
            assert(s.take(i - from + 1).drop_last() =~= s.take(i - from));
            assert(s.take(i - from + 1).last() == s[i - from]);
            assert(digits_val(s.take(i - from + 1)) == digits_val(s.take(i - from)) * 10 + (s[i
                - from] - 48) as nat);
        }
        if fits {
            if acc > (u64::MAX - (d as u64)) / 10 {
                fits = false;
                proof {
                    assert(digits_val(s.take(i - from + 1)) > u64::MAX) by (nonlinear_arith)
                        requires
                            digits_val(s.take(i - from + 1)) == digits_val(s.take(i - from)) * 10
                                + (s[i - from] - 48) as nat,
                            digits_val(s.take(i - from)) == acc,
                            acc > (u64::MAX - (d as u64)) / 10,
                            d == s[i - from] - 48,
                            0 <= d <= 9,
                    ;
                }
            } else {
                proof {
                    assert(acc * 10 + d <= u64::MAX) by (nonlinear_arith)
                        requires
                            acc <= (u64::MAX - (d as u64)) / 10,
                            0 <= d <= 9,
                    ;
                }
                acc = acc * 10 + (d as u64);
            }
        } else {
            proof {
                lemma_digits_val_mono(s.take(i - from + 1), i - from);
                assert(s.take(i - from + 1).take(i - from) =~= s.take(i - from));
            }
        }
        i = i + 1;
    }
    proof {
        if i < v@.len() {
            assert(s[i - from] == v@[i as int]);
            assert(!is_digit(s[i - from]));
        }
        lemma_digits_prefix_len_at(s, i - from);
    }
    ((i - from), fits, acc)
}

/// Reads a quoted label value: the bytes up to the next unescaped closing
/// quote, with backslash escapes of quotes and backslashes resolved.
/// Returns the resolved value and how many bytes were consumed, the closing
/// quote included; nothing when the quote never closes or an escape is
/// invalid.
pub open spec fn scan_quoted(s: Seq<u8>) -> Option<(Seq<u8>, int)>
    decreases s.len(),
{
    if s.len() == 0 {
        Option::None
    } else if s[0] == 34 {
        Option::Some((Seq::empty(), 1))
    } else if s[0] == 92 {
        if s.len() >= 2 && (s[1] == 34 || s[1] == 92) {
            match scan_quoted(s.skip(2)) {
                Option::None => Option::None,
                Option::Some((t, c)) => Option::Some((seq![s[1]] + t, c + 2)),
            }
        } else {
            Option::None
        }
    } else {
        match scan_quoted(s.skip(1)) {
            Option::None => Option::None,
            Option::Some((t, c)) => Option::Some((seq![s[0]] + t, c + 1)),
        }
    }
}

/// What a successful quoted scan consumed stays within the input.
pub proof fn lemma_scan_quoted_bounds(s: Seq<u8>)
    ensures
        match scan_quoted(s) {
            Option::Some((t, c)) => 1 <= c <= s.len() && t.len() < c,
            Option::None => true,
        },
    decreases s.len(),
{
    if s.len() == 0 {
    } else if s[0] == 34 {
    } else if s[0] == 92 {
        if s.len() >= 2 && (s[1] == 34 || s[1] == 92) {
            lemma_scan_quoted_bounds(s.skip(2));
        }
    } else {
        lemma_scan_quoted_bounds(s.skip(1));
    }
}

/// Lifts a quoted-scan result over a prefix already resolved.
pub open spec fn scan_lift(pre: Seq<u8>, off: int, r: Option<(Seq<u8>, int)>) -> Option<
    (Seq<u8>, int),
> {
    match r {
        Option::None => Option::None,
        Option::Some((t, c)) => Option::Some((pre + t, off + c)),
    }
}

/// Reads a quoted label value from `v` starting at `from`.
pub fn scan_quoted_in(v: &[u8], from: usize) -> (r: Option<(Vec<u8>, usize)>)
    requires
        from <= v@.len(),
    ensures
        match r {
            Option::Some((t, c)) => scan_quoted(v@.skip(from as int)) == Option::Some(
                (t@, c as int),
            ) && from + c <= v@.len(),
            Option::None => scan_quoted(v@.skip(from as int)) is None,
        },
{
    let ghost s0 = v@.skip(from as int);
    let mut p: usize = from;
    let mut built: Vec<u8> = Vec::new();
    proof {
        assert(built@ + Seq::<u8>::empty() =~= built@);
        assert(scan_quoted(s0) == scan_lift(built@, p - from, scan_quoted(v@.skip(p as int))));
    }
    while p < v.len()
        invariant
            from <= p <= v@.len(),
            s0 == v@.skip(from as int),
            scan_quoted(s0) == scan_lift(built@, p - from, scan_quoted(v@.skip(p as int))),
        decreases v@.len() - p,
    {
        let ghost sp = v@.skip(p as int);
        proof {
            assert(sp[0] == v@[p as int]);
        }
        let b = v[p];
        if b == 34 {
            proof {
                assert(scan_quoted(sp) == Option::Some((Seq::<u8>::empty(), 1int)));
                assert(built@ + Seq::<u8>::empty() =~= built@);
            }
            return Option::Some((built, p - from + 1));
        } else if b == 92 {
            if p + 1 < v.len() {
                let e = v[p + 1];
                proof {
                    assert(sp[1] == v@[p + 1]);
                }
                if e == 34 || e == 92 {
                    let ghost prev = built@;
                    built.push(e);
                    proof {
                        assert(built@.drop_last() =~= prev);
                        assert(v@.skip(p + 2) =~= sp.skip(2));
                        lemma_scan_step_esc(s0, built@, p - from, sp);
                    }
                    p = p + 2;
                } else {
                    proof {
                        assert(scan_quoted(sp) is None);
                    }
                    return Option::None;
                }
            } else {
                proof {
                    assert(sp.len() == 1);
                    assert(scan_quoted(sp) is None);
                }
                return Option::None;
            }
        } else {
            let ghost prev = built@;
            built.push(b);
            proof {
                assert(built@.drop_last() =~= prev);
                assert(v@.skip(p + 1) =~= sp.skip(1));
                lemma_scan_step_plain(s0, built@, p - from, sp);
            }
            p = p + 1;
        }
    }
    proof {
        assert(v@.skip(p as int).len() == 0);
        assert(scan_quoted(v@.skip(p as int)) is None);
    }
    Option::None
}

proof fn lemma_scan_step_esc(s0: Seq<u8>, built: Seq<u8>, off: int, sp: Seq<u8>)
    requires
        sp.len() >= 2,
        sp[0] == 92,
        sp[1] == 34 || sp[1] == 92,
        built.len() >= 1,
        built.last() == sp[1],
        scan_quoted(s0) == scan_lift(built.drop_last(), off, scan_quoted(sp)),
    ensures
        scan_quoted(s0) == scan_lift(built, off + 2, scan_quoted(sp.skip(2))),
{
    match scan_quoted(sp.skip(2)) {
        Option::None => {
            assert(scan_quoted(sp) is None);
        },
        Option::Some((t, c)) => {
            assert(scan_quoted(sp) == Option::Some((seq![sp[1]] + t, c + 2)));
            assert(built.drop_last() + (seq![sp[1]] + t) =~= built + t);
        },
    }
}

proof fn lemma_scan_step_plain(s0: Seq<u8>, built: Seq<u8>, off: int, sp: Seq<u8>)
    requires
        sp.len() >= 1,
        sp[0] != 34,
        sp[0] != 92,
        built.len() >= 1,
        built.last() == sp[0],
        scan_quoted(s0) == scan_lift(built.drop_last(), off, scan_quoted(sp)),
    ensures
        scan_quoted(s0) == scan_lift(built, off + 1, scan_quoted(sp.skip(1))),
{
    match scan_quoted(sp.skip(1)) {
        Option::None => {
            assert(scan_quoted(sp) is None);
        },
        Option::Some((t, c)) => {
            assert(scan_quoted(sp) == Option::Some((seq![sp[0]] + t, c + 1)));
            assert(built.drop_last() + (seq![sp[0]] + t) =~= built + t);
        },
    }
}

/// Whether two byte slices hold the same bytes.
pub fn bytes_eq(a: &[u8], b: &[u8]) -> (r: bool)
    ensures
        r == (a@ == b@),
{
    if a.len() != b.len() {
        proof {
            assert(a@ != b@);
        }
        return false;
    }
    let mut i: usize = 0;
    while i < a.len()
        invariant
            i <= a@.len(),
            a@.len() == b@.len(),
            forall|j: int| 0 <= j < i ==> a@[j] == b@[j],
        decreases a@.len() - i,
    {
        if a[i] != b[i] {
            proof {
                assert(a@ != b@);
            }
            return false;
        }
        i = i + 1;
    }
    proof {
        assert(a@ =~= b@);
    }
    true
}

} // verus!
