//! Byte-level helpers shared by the parser and the handlers: character
//! classes, first-occurrence searches, trimming, and decimal numerals.

use vstd::prelude::*;

verus! {

/// A byte that renders as text: visible ASCII, space, or horizontal tab.
pub open spec fn is_visible_byte(b: u8) -> bool {
    (32 <= b && b <= 126) || b == 9
}

/// Every byte of `s` renders as text.
pub open spec fn all_visible(s: Seq<u8>) -> bool {
    forall|i: int| 0 <= i < s.len() ==> is_visible_byte(#[trigger] s[i])
}

/// Optional whitespace inside header and cookie text: space or tab.
pub open spec fn is_ows_byte(b: u8) -> bool {
    b == 32 || b == 9
}

/// An ASCII decimal digit.
pub open spec fn is_digit(b: u8) -> bool {
    48 <= b && b <= 57
}

/// Every byte of `s` is an ASCII decimal digit.
pub open spec fn all_digits(s: Seq<u8>) -> bool {
    forall|i: int| 0 <= i < s.len() ==> is_digit(#[trigger] s[i])
}

/// ASCII lower-casing of one byte.
pub open spec fn ascii_lower(b: u8) -> u8 {
    if 65 <= b && b <= 90 {
        (b + 32) as u8
    } else {
        b
    }
}

/// Equality of two byte strings up to ASCII case.
pub open spec fn eq_ignore_ascii_case(a: Seq<u8>, b: Seq<u8>) -> bool {
    a.len() == b.len() && forall|i: int|
        0 <= i < a.len() ==> ascii_lower(#[trigger] a[i]) == ascii_lower(#[trigger] b[i])
}

/// Index of the first occurrence of `b` in `s`, if any.
pub open spec fn find_byte(s: Seq<u8>, b: u8) -> Option<int>
    decreases s.len(),
{
    if s.len() == 0 {
        None
    } else if s[0] == b {
        Some(0int)
    } else {
        match find_byte(s.subrange(1, s.len() as int), b) {
            None => None,
            Some(i) => Some(i + 1),
        }
    }
}

/// What `find_byte` returns: the first index holding `b`, or a witness that
/// no index does.
pub proof fn lemma_find_byte(s: Seq<u8>, b: u8)
    ensures
        match find_byte(s, b) {
            Some(i) => 0 <= i < s.len() && s[i] == b && forall|j: int| 0 <= j < i ==> s[j] != b,
            None => forall|j: int| 0 <= j < s.len() ==> s[j] != b,
        },
    decreases s.len(),
{
    if s.len() == 0 {
    } else if s[0] == b {
    } else {
        let t = s.subrange(1, s.len() as int);
        lemma_find_byte(t, b);
        assert forall|j: int| 0 <= j < s.len() && find_byte(s, b) is None implies s[j] != b by {
            if j > 0 {
                assert(t[j - 1] == s[j]);
            }
        }
        if find_byte(t, b) is Some {
            let i = find_byte(t, b)->Some_0;
            assert forall|j: int| 0 <= j < i + 1 implies s[j] != b by {
                if j > 0 {
                    assert(t[j - 1] == s[j]);
                }
            }
        }
    }
}

/// `find_byte` returns exactly the index at which `b` first occurs.
pub proof fn lemma_find_byte_at(s: Seq<u8>, b: u8, i: int)
    requires
        0 <= i < s.len(),
        s[i] == b,
        forall|j: int| 0 <= j < i ==> s[j] != b,
    ensures
        find_byte(s, b) == Some(i),
{
    lemma_find_byte(s, b);
    match find_byte(s, b) {
        None => {
            assert(s[i] != b);
        },
        Some(k) => {
            if k < i {
                assert(s[k] != b);
            } else if k > i {
                assert(s[i] != b);
            }
        },
    }
}

/// `find_byte` returns `None` exactly when `b` never occurs.
pub proof fn lemma_find_byte_none(s: Seq<u8>, b: u8)
    requires
        forall|j: int| 0 <= j < s.len() ==> s[j] != b,
    ensures
        find_byte(s, b) is None,
{
    lemma_find_byte(s, b);
    if find_byte(s, b) is Some {
        let i = find_byte(s, b)->Some_0;
        assert(s[i] != b);
    }
}

/// First occurrence of `b` within `v[from..to]`, as an absolute index.
pub fn find_byte_in(v: &Vec<u8>, from: usize, to: usize, b: u8) -> (r: Option<usize>)
    requires
        from <= to <= v@.len(),
    ensures
        match r {
            Some(i) => from <= i < to && v@[i as int] == b && (forall|j: int|
                from <= j < i ==> v@[j] != b) && find_byte(
                v@.subrange(from as int, to as int),
                b,
            ) == Some(i - from),
            None => (forall|j: int| from <= j < to ==> v@[j] != b) && find_byte(
                v@.subrange(from as int, to as int),
                b,
            ) is None,
        },
{
    let ghost s = v@.subrange(from as int, to as int);
    let mut i: usize = from;
    while i < to
        invariant
            from <= i <= to <= v@.len(),
            s == v@.subrange(from as int, to as int),
            forall|j: int| from <= j < i ==> v@[j] != b,
        decreases to - i,
    {
        if v[i] == b {
            proof {
                assert(s[i - from] == b);
                assert forall|j: int| 0 <= j < i - from implies s[j] != b by {
                    assert(s[j] == v@[from + j]);
                }
                lemma_find_byte_at(s, b, i - from);
            }
            return Some(i);
        }
        i = i + 1;
    }
    proof {
        assert forall|j: int| 0 <= j < s.len() implies s[j] != b by {
            assert(s[j] == v@[from + j]);
        }
        lemma_find_byte_none(s, b);
    }
    None
}

/// The bytes `v[from..to]` as a fresh vector.
pub fn subvec(v: &Vec<u8>, from: usize, to: usize) -> (r: Vec<u8>)
    requires
        from <= to <= v@.len(),
    ensures
        r@ == v@.subrange(from as int, to as int),
{
    let mut r: Vec<u8> = Vec::new();
    let mut i: usize = from;
    while i < to
        invariant
            from <= i <= to <= v@.len(),
            r@ == v@.subrange(from as int, i as int),
        decreases to - i,
    {
        r.push(v[i]);
        proof {
            assert(r@ =~= v@.subrange(from as int, i + 1));
        }
        i = i + 1;
    }
    r
}

/// Whether the byte strings `a` and `b` are equal.
pub fn bytes_eq(a: &Vec<u8>, b: &Vec<u8>) -> (r: bool)
    ensures
        r == (a@ == b@),
{
    if a.len() != b.len() {
        return false;
    }
    let mut i: usize = 0;
    while i < a.len()
        invariant
            i <= a@.len(),
            a@.len() == b@.len(),
            forall|j: int| 0 <= j < i ==> a@[j] == b@[j],
        decreases a@.len() - i,
    {
        if a[i] != b[i] {
            return false;
        }
        i = i + 1;
    }
    proof {
        assert(a@ =~= b@);
    }
    true
}

/// Whether every byte of `v` renders as text.
pub fn check_visible(v: &Vec<u8>) -> (r: bool)
    ensures
        r == all_visible(v@),
{
    let mut i: usize = 0;
    while i < v.len()
        invariant
            i <= v@.len(),
            forall|j: int| 0 <= j < i ==> is_visible_byte(#[trigger] v@[j]),
        decreases v@.len() - i,
    {
        let b = v[i];
        if !((32 <= b && b <= 126) || b == 9) {
            return false;
        }
        i = i + 1;
    }
    true
}

/// `s` with leading spaces and tabs removed.
pub open spec fn trim_start_ows(s: Seq<u8>) -> Seq<u8>
    decreases s.len(),
{
    if s.len() > 0 && is_ows_byte(s[0]) {
        trim_start_ows(s.subrange(1, s.len() as int))
    } else {
        s
    }
}

/// `s` with trailing spaces and tabs removed.
pub open spec fn trim_end_ows(s: Seq<u8>) -> Seq<u8>
    decreases s.len(),
{
    if s.len() > 0 && is_ows_byte(s[s.len() - 1]) {
        trim_end_ows(s.drop_last())
    } else {
        s
    }
}

/// `s` with leading and trailing spaces and tabs removed.
pub open spec fn trim_ows(s: Seq<u8>) -> Seq<u8> {
    trim_end_ows(trim_start_ows(s))
}

/// Trimming the start keeps exactly the suffix from the first non-blank byte.
pub proof fn lemma_trim_start_ows(s: Seq<u8>, k: int)
    requires
        0 <= k <= s.len(),
        forall|j: int| 0 <= j < k ==> is_ows_byte(#[trigger] s[j]),
        k < s.len() ==> !is_ows_byte(s[k]),
    ensures
        trim_start_ows(s) == s.subrange(k, s.len() as int),
    decreases k,
{
    if k == 0 {
        assert(s.subrange(0, s.len() as int) =~= s);
    } else {
        let t = s.subrange(1, s.len() as int);
        assert(is_ows_byte(s[0]));
        assert forall|j: int| 0 <= j < k - 1 implies is_ows_byte(#[trigger] t[j]) by {
            assert(t[j] == s[j + 1]);
        }
        lemma_trim_start_ows(t, k - 1);
        assert(t.subrange(k - 1, t.len() as int) =~= s.subrange(k, s.len() as int));
    }
}

/// Trimming the end keeps exactly the prefix up to the last non-blank byte.
pub proof fn lemma_trim_end_ows(s: Seq<u8>, k: int)
    requires
        0 <= k <= s.len(),
        forall|j: int| k <= j < s.len() ==> is_ows_byte(#[trigger] s[j]),
        k > 0 ==> !is_ows_byte(s[k - 1]),
    ensures
        trim_end_ows(s) == s.subrange(0, k),
    decreases s.len() - k,
{
    if k == s.len() {
        assert(s.subrange(0, k) =~= s);
    } else {
        let t = s.drop_last();
        assert(is_ows_byte(s[s.len() - 1]));
        assert forall|j: int| k <= j < t.len() implies is_ows_byte(#[trigger] t[j]) by {
            assert(t[j] == s[j]);
        }
        lemma_trim_end_ows(t, k);
        assert(t.subrange(0, k) =~= s.subrange(0, k));
    }
}

/// The bytes `v[from..to]` with surrounding spaces and tabs removed.
pub fn trim_ows_vec(v: &Vec<u8>, from: usize, to: usize) -> (r: Vec<u8>)
    requires
        from <= to <= v@.len(),
    ensures
        r@ == trim_ows(v@.subrange(from as int, to as int)),
{
    let ghost s = v@.subrange(from as int, to as int);
    let mut a: usize = from;
    while a < to && (v[a] == 32 || v[a] == 9)
        invariant
            from <= a <= to <= v@.len(),
            forall|j: int| from <= j < a ==> is_ows_byte(#[trigger] v@[j]),
        decreases to - a,
    {
        a = a + 1;
    }
    let mut b: usize = to;
    while b > a && (v[b - 1] == 32 || v[b - 1] == 9)
        invariant
            from <= a <= b <= to <= v@.len(),
            forall|j: int| b <= j < to ==> is_ows_byte(#[trigger] v@[j]),
        decreases b - a,
    {
        b = b - 1;
    }
    proof {
        assert forall|j: int| 0 <= j < a - from implies is_ows_byte(#[trigger] s[j]) by {
            assert(s[j] == v@[from + j]);
        }
        if a < to {
            assert(s[a - from] == v@[a as int]);
        }
        lemma_trim_start_ows(s, a - from);
        let t = s.subrange(a - from, s.len() as int);
        assert forall|j: int| b - a <= j < t.len() implies is_ows_byte(#[trigger] t[j]) by {
            assert(t[j] == v@[a + j]);
        }
        if b > a {
            assert(t[b - a - 1] == v@[b - 1]);
        }
        lemma_trim_end_ows(t, b - a);
        assert(t.subrange(0, b - a) =~= v@.subrange(a as int, b as int));
    }
    subvec(v, a, b)
}

/// Index of the first CRLF pair in `s`, if any.
pub open spec fn find_crlf(s: Seq<u8>) -> Option<int>
    decreases s.len(),
{
    if s.len() < 2 {
        None
    } else if s[0] == 13 && s[1] == 10 {
        Some(0int)
    } else {
        match find_crlf(s.subrange(1, s.len() as int)) {
            None => None,
            Some(i) => Some(i + 1),
        }
    }
}

/// What `find_crlf` returns: the first index of a CRLF pair, or a witness
/// that there is none.
pub proof fn lemma_find_crlf(s: Seq<u8>)
    ensures
        match find_crlf(s) {
            Some(i) => 0 <= i && i + 2 <= s.len() && s[i] == 13 && s[i + 1] == 10 && forall|j: int|
                0 <= j < i ==> !(#[trigger] s[j] == 13 && s[j + 1] == 10),
            None => forall|j: int|
                0 <= j && j + 2 <= s.len() ==> !(#[trigger] s[j] == 13 && s[j + 1] == 10),
        },
    decreases s.len(),
{
    if s.len() < 2 {
    } else if s[0] == 13 && s[1] == 10 {
    } else {
        let t = s.subrange(1, s.len() as int);
        lemma_find_crlf(t);
        match find_crlf(t) {
            None => {
                assert forall|j: int|
                    0 <= j && j + 2 <= s.len() implies !(#[trigger] s[j] == 13 && s[j + 1]
                    == 10) by {
                    if j > 0 {
                        assert(t[j - 1] == s[j] && t[j] == s[j + 1]);
                    }
                }
            },
            Some(i) => {
                assert(t[i] == s[i + 1] && t[i + 1] == s[i + 2]);
                assert forall|j: int| 0 <= j < i + 1 implies !(#[trigger] s[j] == 13 && s[j + 1]
                    == 10) by {
                    if j > 0 {
                        assert(t[j - 1] == s[j] && t[j] == s[j + 1]);
                    }
                }
            },
        }
    }
}

/// `find_crlf` returns exactly the index of the first CRLF pair.
pub proof fn lemma_find_crlf_at(s: Seq<u8>, i: int)
    requires
        0 <= i,
        i + 2 <= s.len(),
        s[i] == 13,
        s[i + 1] == 10,
        forall|j: int| 0 <= j < i ==> !(#[trigger] s[j] == 13 && s[j + 1] == 10),
    ensures
        find_crlf(s) == Some(i),
{
    lemma_find_crlf(s);
    match find_crlf(s) {
        None => {
            assert(!(s[i] == 13 && s[i + 1] == 10));
        },
        Some(k) => {
            if k < i {
                assert(!(s[k] == 13 && s[k + 1] == 10));
            } else if k > i {
                assert(!(s[i] == 13 && s[i + 1] == 10));
            }
        },
    }
}

/// `find_crlf` returns `None` exactly when no CRLF pair occurs.
pub proof fn lemma_find_crlf_none(s: Seq<u8>)
    requires
        forall|j: int| 0 <= j && j + 2 <= s.len() ==> !(#[trigger] s[j] == 13 && s[j + 1] == 10),
    ensures
        find_crlf(s) is None,
{
    lemma_find_crlf(s);
    if find_crlf(s) is Some {
        let i = find_crlf(s)->Some_0;
        assert(!(s[i] == 13 && s[i + 1] == 10));
    }
}

/// First CRLF pair at or after `from` in `v`, as an absolute index.
pub fn find_crlf_in(v: &Vec<u8>, from: usize) -> (r: Option<usize>)
    requires
        from <= v@.len(),
    ensures
        match r {
            Some(i) => from <= i && i + 2 <= v@.len() && v@[i as int] == 13 && v@[i + 1] == 10
                && find_crlf(v@.subrange(from as int, v@.len() as int)) == Some(i - from),
            None => find_crlf(v@.subrange(from as int, v@.len() as int)) is None,
        },
{
    let ghost s = v@.subrange(from as int, v@.len() as int);
    if v.len() < 2 || from > v.len() - 2 {
        proof {
            assert forall|j: int|
                0 <= j && j + 2 <= s.len() implies !(#[trigger] s[j] == 13 && s[j + 1] == 10) by {}
            lemma_find_crlf_none(s);
        }
        return None;
    }
    let mut i: usize = from;
    while i <= v.len() - 2
        invariant
            from <= i,
            i <= v@.len(),
            v@.len() >= 2,
            s == v@.subrange(from as int, v@.len() as int),
            forall|j: int| from <= j < i ==> !(#[trigger] v@[j] == 13 && v@[j + 1] == 10),
        decreases v@.len() - i,
    {
        if v[i] == 13 && v[i + 1] == 10 {
            proof {
                assert(s[i - from] == 13 && s[i - from + 1] == 10);
                assert forall|j: int| 0 <= j < i - from implies !(#[trigger] s[j] == 13 && s[j + 1]
                    == 10) by {
                    assert(s[j] == v@[from + j] && s[j + 1] == v@[from + j + 1]);
                }
                lemma_find_crlf_at(s, i - from);
            }
            return Some(i);
        }
        i = i + 1;
    }
    proof {
        assert forall|j: int|
            0 <= j && j + 2 <= s.len() implies !(#[trigger] s[j] == 13 && s[j + 1] == 10) by {
            assert(s[j] == v@[from + j] && s[j + 1] == v@[from + j + 1]);
        }
        lemma_find_crlf_none(s);
    }
    None
}

/// The number a string of decimal digits denotes, most significant first.
pub open spec fn dec_value(s: Seq<u8>) -> int
    decreases s.len(),
{
    if s.len() == 0 {
        0
    } else {
        dec_value(s.drop_last()) * 10 + (s.last() - 48)
    }
}

/// Powers of ten.
pub open spec fn pow10(n: nat) -> int
    decreases n,
{
    if n == 0 {
        1
    } else {
        10 * pow10((n - 1) as nat)
    }
}

/// An ASCII hexadecimal digit, either case.
pub open spec fn is_hex_digit(b: u8) -> bool {
    (48 <= b && b <= 57) || (97 <= b && b <= 102) || (65 <= b && b <= 70)
}

/// Every byte of `s` is an ASCII hexadecimal digit.
pub open spec fn all_hex_digits(s: Seq<u8>) -> bool {
    forall|i: int| 0 <= i < s.len() ==> is_hex_digit(#[trigger] s[i])
}

/// The value of one hexadecimal digit byte; any other byte counts zero.
pub open spec fn hex_digit_value(b: u8) -> int {
    if 48 <= b && b <= 57 {
        b - 48
    } else if 97 <= b && b <= 102 {
        b - 87
    } else if 65 <= b && b <= 70 {
        b - 55
    } else {
        0
    }
}

/// The number a string of hexadecimal digits denotes, most significant
/// first.
pub open spec fn hex_value(s: Seq<u8>) -> int
    decreases s.len(),
{
    if s.len() == 0 {
        0
    } else {
        hex_value(s.drop_last()) * 16 + hex_digit_value(s.last())
    }
}

/// Powers of sixteen.
pub open spec fn pow16(n: nat) -> int
    decreases n,
{
    if n == 0 {
        1
    } else {
        16 * pow16((n - 1) as nat)
    }
}

/// Powers of sixteen are positive.
pub proof fn lemma_pow16_pos(n: nat)
    ensures
        pow16(n) >= 1,
    decreases n,
{
    if n > 0 {
        lemma_pow16_pos((n - 1) as nat);
    }
}

/// Powers of sixteen grow with the exponent.
pub proof fn lemma_pow16_le(a: nat, b: nat)
    requires
        a <= b,
    ensures
        pow16(a) <= pow16(b),
    decreases b,
{
    if a < b {
        lemma_pow16_le(a, (b - 1) as nat);
        lemma_pow16_pos((b - 1) as nat);
    }
}

/// The value of the sixteenth power of sixteen.
pub proof fn lemma_pow16_16()
    ensures
        pow16(16) == 18_446_744_073_709_551_616,
{
    reveal_with_fuel(pow16, 17);
}

/// A hexadecimal string denotes a number in `0 .. 16^len`.
pub proof fn lemma_hex_value_bounds(s: Seq<u8>)
    ensures
        0 <= hex_value(s) < pow16(s.len()),
    decreases s.len(),
{
    if s.len() > 0 {
        lemma_hex_value_bounds(s.drop_last());
    }
}

/// Powers of ten are positive.
pub proof fn lemma_pow10_pos(n: nat)
    ensures
        pow10(n) >= 1,
    decreases n,
{
    if n > 0 {
        lemma_pow10_pos((n - 1) as nat);
    }
}

/// Powers of ten grow with the exponent.
pub proof fn lemma_pow10_le(a: nat, b: nat)
    requires
        a <= b,
    ensures
        pow10(a) <= pow10(b),
    decreases b,
{
    if a < b {
        lemma_pow10_le(a, (b - 1) as nat);
        lemma_pow10_pos((b - 1) as nat);
    }
}

/// The value of the nineteenth power of ten.
pub proof fn lemma_pow10_19()
    ensures
        pow10(19) == 10_000_000_000_000_000_000,
{
    reveal_with_fuel(pow10, 20);
}

/// A digit string denotes a number in `0 .. 10^len`.
pub proof fn lemma_dec_value_bounds(s: Seq<u8>)
    requires
        all_digits(s),
    ensures
        0 <= dec_value(s) < pow10(s.len()),
    decreases s.len(),
{
    if s.len() > 0 {
        let t = s.drop_last();
        assert forall|j: int| 0 <= j < t.len() implies is_digit(#[trigger] t[j]) by {
            assert(t[j] == s[j]);
        }
        lemma_dec_value_bounds(t);
        assert(is_digit(s[s.len() - 1]));
    }
}

} // verus!
