//! Byte-sequence primitives shared by the header table, the parser and the
//! serializer: ASCII case folding, separator search and splitting, line
//! terminator stripping, and decimal numerals.

use vstd::prelude::*;

verus! {

// ---------------------------------------------------------------------------
// ASCII case folding
// ---------------------------------------------------------------------------

/// ASCII lowercasing of one byte; bytes outside `A..=Z` are unchanged.
pub open spec fn lower_byte_spec(b: u8) -> u8 {
    if 65 <= b && b <= 90 {
        (b + 32) as u8
    } else {
        b
    }
}

/// ASCII lowercasing of a byte sequence.
pub open spec fn lower_spec(s: Seq<u8>) -> Seq<u8> {
    s.map_values(|b: u8| lower_byte_spec(b))
}

pub fn lower_byte(b: u8) -> (r: u8)
    ensures
        r == lower_byte_spec(b),
{
    if 65 <= b && b <= 90 {
        b + 32
    } else {
        b
    }
}

pub fn lower_bytes(s: &Vec<u8>) -> (r: Vec<u8>)
    ensures
        r@ == lower_spec(s@),
{
    let mut r: Vec<u8> = Vec::new();
    proof {
        assert(r@ =~= lower_spec(s@.take(0)));
    }
    let mut i: usize = 0;
    while i < s.len()
        invariant
            i <= s.len(),
            r@ == lower_spec(s@.take(i as int)),
        decreases s.len() - i,
    {
        r.push(lower_byte(s[i]));
        i = i + 1;
        proof {
            assert(r@ =~= lower_spec(s@.take(i as int)));
        }
    }
    proof {
        assert(s@.take(s.len() as int) =~= s@);
    }
    r
}

// ---------------------------------------------------------------------------
// Equality and copying
// ---------------------------------------------------------------------------

pub fn bytes_eq(a: &Vec<u8>, b: &Vec<u8>) -> (r: bool)
    ensures
        r == (a@ == b@),
{
    if a.len() != b.len() {
        return false;
    }
    let mut i: usize = 0;
    while i < a.len()
        invariant
            i <= a.len(),
            a.len() == b.len(),
            forall|j: int| 0 <= j < i ==> a@[j] == b@[j],
        decreases a.len() - i,
    {
        if a[i] != b[i] {
            return false;
        }
        i = i + 1;
    }
    proof {
        assert(a@ =~= b@);
    }
    true
}

/// Copies `s[a..b]` into a fresh vector.
pub fn subvec(s: &Vec<u8>, a: usize, b: usize) -> (r: Vec<u8>)
    requires
        a <= b <= s.len(),
    ensures
        r@ == s@.subrange(a as int, b as int),
{
    let mut r: Vec<u8> = Vec::new();
    proof {
        assert(r@ =~= s@.subrange(a as int, a as int));
    }
    let mut i: usize = a;
    while i < b
        invariant
            a <= i <= b,
            b <= s.len(),
            r@ == s@.subrange(a as int, i as int),
        decreases b - i,
    {
        r.push(s[i]);
        i = i + 1;
        proof {
            assert(r@ =~= s@.subrange(a as int, i as int));
        }
    }
    r
}

pub fn append_bytes(dst: &mut Vec<u8>, src: &Vec<u8>)
    ensures
        final(dst)@ == old(dst)@ + src@,
{
    proof {
        assert(dst@ =~= old(dst)@ + src@.take(0));
    }
    let mut i: usize = 0;
    while i < src.len()
        invariant
            i <= src.len(),
            dst@ == old(dst)@ + src@.take(i as int),
        decreases src.len() - i,
    {
        dst.push(src[i]);
        i = i + 1;
        proof {
            assert(dst@ =~= old(dst)@ + src@.take(i as int));
        }
    }
    proof {
        assert(old(dst)@ + src@.take(src.len() as int) =~= old(dst)@ + src@);
    }
}

// ---------------------------------------------------------------------------
// Separator search and splitting
// ---------------------------------------------------------------------------

/// `sep` occurs in `s` starting at index `i`.
pub open spec fn is_match_at(s: Seq<u8>, sep: Seq<u8>, i: int) -> bool {
    0 <= i && i + sep.len() <= s.len() && s.subrange(i, i + sep.len() as int) == sep
}

/// Index of the leftmost occurrence of `sep` in `s`, or `-1` if none.
pub open spec fn find_spec(s: Seq<u8>, sep: Seq<u8>) -> int
    decreases s.len(),
{
    if s.len() < sep.len() {
        -1
    } else if s.subrange(0, sep.len() as int) == sep {
        0
    } else if s.len() == 0 {
        -1
    } else {
        let r = find_spec(s.subrange(1, s.len() as int), sep);
        if r < 0 {
            -1
        } else {
            r + 1
        }
    }
}

pub proof fn lemma_find_spec(s: Seq<u8>, sep: Seq<u8>)
    ensures
        find_spec(s, sep) >= -1,
        find_spec(s, sep) >= 0 ==> is_match_at(s, sep, find_spec(s, sep)),
        forall|j: int| 0 <= j < find_spec(s, sep) ==> !is_match_at(s, sep, j),
        find_spec(s, sep) == -1 ==> forall|j: int| !is_match_at(s, sep, j),
    decreases s.len(),
{
    if s.len() < sep.len() {
        assert forall|j: int| !is_match_at(s, sep, j) by {}
    } else if s.subrange(0, sep.len() as int) == sep {
    } else if s.len() == 0 {
        assert(s.subrange(0, sep.len() as int) =~= sep);
    } else {
        let t = s.subrange(1, s.len() as int);
        lemma_find_spec(t, sep);
        assert forall|j: int| 1 <= j implies is_match_at(s, sep, j) == is_match_at(
            t,
            sep,
            j - 1,
        ) by {
            if 0 <= j - 1 && j - 1 + sep.len() <= t.len() {
                assert(s.subrange(j, j + sep.len() as int) =~= t.subrange(
                    j - 1,
                    j - 1 + sep.len() as int,
                ));
            }
        }
        assert(!is_match_at(s, sep, 0));
        let r = find_spec(t, sep);
        if r < 0 {
            assert forall|j: int| !is_match_at(s, sep, j) by {
                if j >= 1 {
                    assert(!is_match_at(t, sep, j - 1));
                }
            }
        } else {
            assert(is_match_at(s, sep, r + 1));
            assert forall|j: int| 0 <= j < r + 1 implies !is_match_at(s, sep, j) by {
                if j >= 1 {
                    assert(!is_match_at(t, sep, j - 1));
                }
            }
        }
    }
}

pub proof fn lemma_find_spec_none(s: Seq<u8>, sep: Seq<u8>)
    requires
        forall|j: int| !is_match_at(s, sep, j),
    ensures
        find_spec(s, sep) == -1,
{
    lemma_find_spec(s, sep);
    if find_spec(s, sep) >= 0 {
        assert(is_match_at(s, sep, find_spec(s, sep)));
    }
}

pub proof fn lemma_find_spec_at(s: Seq<u8>, sep: Seq<u8>, k: int)
    requires
        is_match_at(s, sep, k),
        forall|j: int| 0 <= j < k ==> !is_match_at(s, sep, j),
    ensures
        find_spec(s, sep) == k,
{
    lemma_find_spec(s, sep);
    let f = find_spec(s, sep);
    if f == -1 {
        assert(!is_match_at(s, sep, k));
    } else if f < k {
        assert(!is_match_at(s, sep, f));
    } else if f > k {
        assert(!is_match_at(s, sep, k));
    }
}

/// Splitting on the leftmost occurrence of `sep`, repeated left to right.
/// A sequence with no occurrence (in particular when `sep` is empty) is one
/// single part.
pub open spec fn split_spec(s: Seq<u8>, sep: Seq<u8>) -> Seq<Seq<u8>>
    decreases s.len(),
{
    let k = find_spec(s, sep);
    if sep.len() == 0 || k < 0 || k + sep.len() > s.len() {
        seq![s]
    } else {
        seq![s.subrange(0, k)] + split_spec(s.subrange(k + sep.len() as int, s.len() as int), sep)
    }
}

/// `s[i..i + sep.len()] == sep`, decided byte by byte.
fn matches_at(s: &Vec<u8>, sep: &Vec<u8>, i: usize) -> (r: bool)
    requires
        i + sep@.len() <= s@.len(),
    ensures
        r == (s@.subrange(i as int, i as int + sep@.len() as int) == sep@),
{
    let slen = s.len();
    let mut m: usize = 0;
    let mut mismatch: bool = false;
    while m < sep.len() && !mismatch
        invariant
            m <= sep@.len(),
            slen == s@.len(),
            i + sep@.len() <= s@.len(),
            !mismatch ==> forall|k: int| 0 <= k < m ==> s@[i + k] == sep@[k],
            mismatch ==> s@.subrange(i as int, i as int + sep@.len() as int) != sep@,
        decreases sep@.len() - m + (if mismatch { 0int } else { 1 }),
    {
        proof {
            assert(i + m < s@.len());
        }
        if s[i + m] != sep[m] {
            proof {
                let sub = s@.subrange(i as int, i as int + sep@.len() as int);
                assert(sub[m as int] == s@[i + m]);
            }
            mismatch = true;
        } else {
            m = m + 1;
        }
    }
    if mismatch {
        false
    } else {
        proof {
            assert(s@.subrange(i as int, i as int + sep@.len() as int) =~= sep@);
        }
        true
    }
}

/// Index of the leftmost occurrence of `sep` in `s` at or after `from`.
pub fn find_from(s: &Vec<u8>, sep: &Vec<u8>, from: usize) -> (r: Option<usize>)
    requires
        sep@.len() >= 1,
        from <= s@.len(),
    ensures
        ({
            let suf = s@.subrange(from as int, s@.len() as int);
            match r {
                Some(i) => from <= i && i + sep@.len() <= s@.len() && find_spec(suf, sep@) == i
                    - from,
                None => find_spec(suf, sep@) == -1,
            }
        }),
{
    let ghost suf = s@.subrange(from as int, s@.len() as int);
    if sep.len() > s.len() - from {
        proof {
            assert forall|j: int| !is_match_at(suf, sep@, j) by {}
            lemma_find_spec_none(suf, sep@);
        }
        return None;
    }
    let last = s.len() - sep.len();
    let mut i: usize = from;
    while i <= last
        invariant
            sep@.len() >= 1,
            from <= i,
            i <= last + 1,
            last == s@.len() - sep@.len(),
            s@.len() <= usize::MAX,
            from <= last,
            suf == s@.subrange(from as int, s@.len() as int),
            forall|j: int| 0 <= j < i - from ==> !is_match_at(suf, sep@, j),
        decreases last + 1 - i,
    {
        if matches_at(s, sep, i) {
            proof {
                assert(suf.subrange(i - from, i - from + sep@.len() as int) =~= s@.subrange(
                    i as int,
                    i as int + sep@.len() as int,
                ));
                assert(is_match_at(suf, sep@, i - from));
                lemma_find_spec_at(suf, sep@, i - from);
            }
            return Some(i);
        }
        proof {
            assert(suf.subrange(i - from, i - from + sep@.len() as int) =~= s@.subrange(
                i as int,
                i as int + sep@.len() as int,
            ));
            assert(!is_match_at(suf, sep@, i - from));
        }
        i = i + 1;
    }
    proof {
        assert forall|j: int| !is_match_at(suf, sep@, j) by {
            if 0 <= j && j + sep@.len() <= suf.len() {
                assert(j + from + sep@.len() <= s@.len());
                assert(j < i - from);
            }
        }
        lemma_find_spec_none(suf, sep@);
    }
    None
}

/// Splits `s` on every (leftmost-first) occurrence of `sep`.
pub fn split_bytes(s: &Vec<u8>, sep: &Vec<u8>) -> (r: Vec<Vec<u8>>)
    requires
        sep@.len() >= 1,
    ensures
        r@.map_values(|t: Vec<u8>| t@) == split_spec(s@, sep@),
{
    let mut parts: Vec<Vec<u8>> = Vec::new();
    let mut start: usize = 0;
    proof {
        assert(parts@.map_values(|t: Vec<u8>| t@) =~= Seq::<Seq<u8>>::empty());
        assert(s@.subrange(0, s@.len() as int) =~= s@);
    }
    loop
        invariant
            sep@.len() >= 1,
            start <= s@.len(),
            split_spec(s@, sep@) == parts@.map_values(|t: Vec<u8>| t@) + split_spec(
                s@.subrange(start as int, s@.len() as int),
                sep@,
            ),
        decreases s@.len() - start,
    {
        let ghost suf = s@.subrange(start as int, s@.len() as int);
        let ghost done = parts@.map_values(|t: Vec<u8>| t@);
        match find_from(s, sep, start) {
            None => {
                let tail = subvec(s, start, s.len());
                parts.push(tail);
                proof {
                    assert(split_spec(suf, sep@) =~= seq![suf]);
                    assert(parts@.map_values(|t: Vec<u8>| t@) =~= done + seq![suf]);
                    assert(done + seq![suf] =~= done + split_spec(suf, sep@));
                }
                return parts;
            },
            Some(i) => {
                let piece = subvec(s, start, i);
                parts.push(piece);
                proof {
                    let k = i - start;
                    lemma_find_spec(suf, sep@);
                    assert(is_match_at(suf, sep@, k));
                    assert(split_spec(suf, sep@) == seq![suf.subrange(0, k)] + split_spec(
                        suf.subrange(k + sep@.len() as int, suf.len() as int),
                        sep@,
                    ));
                    assert(suf.subrange(0, k) =~= s@.subrange(start as int, i as int));
                    assert(suf.subrange(k + sep@.len() as int, suf.len() as int) =~= s@.subrange(
                        i + sep@.len(),
                        s@.len() as int,
                    ));
                    assert(parts@.map_values(|t: Vec<u8>| t@) =~= done + seq![piece@]);
                    assert((done + seq![piece@]) + split_spec(
                        s@.subrange(i + sep@.len(), s@.len() as int),
                        sep@,
                    ) =~= done + (seq![piece@] + split_spec(
                        s@.subrange(i + sep@.len(), s@.len() as int),
                        sep@,
                    )));
                }
                start = i + sep.len();
            },
        }
    }
}

// ---------------------------------------------------------------------------
// Line terminator stripping
// ---------------------------------------------------------------------------

/// Removes one trailing carriage-return/line-feed pair, if present.
pub open spec fn strip_crlf_spec(s: Seq<u8>) -> Seq<u8> {
    if s.len() >= 2 && s[s.len() - 2] == 13 && s[s.len() - 1] == 10 {
        s.take(s.len() - 2)
    } else {
        s
    }
}

pub fn strip_crlf(s: &Vec<u8>) -> (r: Vec<u8>)
    ensures
        r@ == strip_crlf_spec(s@),
{
    if s.len() >= 2 && s[s.len() - 2] == 13 && s[s.len() - 1] == 10 {
        let r = subvec(s, 0, s.len() - 2);
        proof {
            assert(s@.subrange(0, s@.len() - 2) =~= s@.take(s@.len() - 2));
        }
        r
    } else {
        let r = subvec(s, 0, s.len());
        proof {
            assert(s@.subrange(0, s@.len() as int) =~= s@);
        }
        r
    }
}

// ---------------------------------------------------------------------------
// Decimal numerals
// ---------------------------------------------------------------------------

/// A non-empty run of ASCII decimal digits.
pub open spec fn is_dec_digits(s: Seq<u8>) -> bool {
    s.len() > 0 && forall|i: int| 0 <= i < s.len() ==> 48 <= #[trigger] s[i] <= 57
}

/// The number a digit run denotes, read most significant digit first.
pub open spec fn dec_value_spec(s: Seq<u8>) -> nat
    decreases s.len(),
{
    if s.len() == 0 {
        0
    } else {
        dec_value_spec(s.drop_last()) * 10 + (if s.last() >= 48 {
            (s.last() - 48) as nat
        } else {
            0
        })
    }
}

/// A longer digit run never denotes a smaller number than its prefix.
pub proof fn lemma_dec_value_prefix(s: Seq<u8>, i: int)
    requires
        0 <= i <= s.len(),
    ensures
        dec_value_spec(s.take(i)) <= dec_value_spec(s),
    decreases s.len() - i,
{
    if i == s.len() {
        assert(s.take(i) =~= s);
    } else {
        lemma_dec_value_prefix(s, i + 1);
        assert(s.take(i + 1).drop_last() =~= s.take(i));
        assert(s.take(i + 1).last() == s[i]);
        assert(dec_value_spec(s.take(i)) <= dec_value_spec(s.take(i)) * 10);
    }
}

/// Parses a run of ASCII digits as a machine-sized non-negative integer.
/// Returns the denoted value exactly when the input is a non-empty digit run
/// whose value fits.
pub fn parse_dec(s: &Vec<u8>) -> (r: Option<usize>)
    ensures
        match r {
            Some(l) => is_dec_digits(s@) && dec_value_spec(s@) == l as nat,
            None => !(is_dec_digits(s@) && dec_value_spec(s@) <= usize::MAX),
        },
{
    if s.len() == 0 {
        return None;
    }
    let mut acc: usize = 0;
    let mut i: usize = 0;
    proof {
        assert(s@.take(0).drop_last() == s@.take(0).drop_last());
    }
    while i < s.len()
        invariant
            0 < s@.len(),
            i <= s@.len(),
            forall|j: int| 0 <= j < i ==> 48 <= #[trigger] s@[j] <= 57,
            acc as nat == dec_value_spec(s@.take(i as int)),
        decreases s@.len() - i,
    {
        let b = s[i];
        if b < 48 || b > 57 {
            proof {
                assert(!is_dec_digits(s@)) by {
                    assert(0 <= i < s@.len() && !(48 <= s@[i as int] <= 57));
                }
            }
            return None;
        }
        let d = (b - 48) as usize;
        let wide: u128 = acc as u128 * 10 + d as u128;
        proof {
            assert(s@.take(i + 1).drop_last() =~= s@.take(i as int));
            assert(s@.take(i + 1).last() == s@[i as int]);
            assert(dec_value_spec(s@.take(i + 1)) == acc as nat * 10 + d as nat);
        }
        if wide > usize::MAX as u128 {
            proof {
                lemma_dec_value_prefix(s@, i + 1);
                assert(dec_value_spec(s@) > usize::MAX);
            }
            return None;
        }
        acc = wide as usize;
        i = i + 1;
    }
    proof {
        assert(s@.take(s@.len() as int) =~= s@);
    }
    Some(acc)
}

/// The canonical decimal numeral of `n`: no sign, no leading zero except for
/// zero itself.
pub open spec fn dec_repr_spec(n: nat) -> Seq<u8>
    decreases n,
{
    if n < 10 {
        seq![(48 + n) as u8]
    } else {
        dec_repr_spec(n / 10) + seq![(48 + n % 10) as u8]
    }
}

pub fn dec_bytes(n: usize) -> (r: Vec<u8>)
    ensures
        r@ == dec_repr_spec(n as nat),
    decreases n,
{
    if n < 10 {
        let mut v: Vec<u8> = Vec::new();
        v.push(48 + (n as u8));
        proof {
            assert(v@ =~= dec_repr_spec(n as nat));
        }
        v
    } else {
        let mut r = dec_bytes(n / 10);
        r.push(48 + ((n % 10) as u8));
        proof {
            assert(r@ =~= dec_repr_spec(n as nat));
        }
        r
    }
}

/// The canonical numeral reads back as the number it was made from.
pub proof fn lemma_dec_repr(n: nat)
    ensures
        is_dec_digits(dec_repr_spec(n)),
        dec_value_spec(dec_repr_spec(n)) == n,
    decreases n,
{
    if n < 10 {
        let s = dec_repr_spec(n);
        assert(s.drop_last() =~= Seq::<u8>::empty());
        assert(dec_value_spec(Seq::<u8>::empty()) == 0);
        assert(dec_value_spec(s) == n);
    } else {
        lemma_dec_repr(n / 10);
        let p = dec_repr_spec(n / 10);
        let s = dec_repr_spec(n);
        assert(s.drop_last() =~= p);
        assert(s.last() == (48 + n % 10) as u8);
        vstd::arithmetic::div_mod::lemma_fundamental_div_mod(n as int, 10);
        assert(dec_value_spec(s) == n);
        assert forall|i: int| 0 <= i < s.len() implies 48 <= #[trigger] s[i] <= 57 by {
            if i < p.len() {
                assert(s[i] == p[i]);
            }
        }
    }
}

} // verus!
