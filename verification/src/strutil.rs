//! String utilities the canonical model is built on: the byte-wise
//! lexicographic order used as the final event tie-breaker, equality and
//! affix tests, and zero-padded decimal / hexadecimal rendering of integers.

use vstd::prelude::*;

verus! {

use vstd::string::StringSliceAdditionalSpecFns;

/// Byte-wise lexicographic `<=`, the order Rust's `str` comparison uses.
pub open spec fn lex_le(a: Seq<u8>, b: Seq<u8>) -> bool
    decreases a.len(),
{
    if a.len() == 0 {
        true
    } else if b.len() == 0 {
        false
    } else if a[0] < b[0] {
        true
    } else if a[0] > b[0] {
        false
    } else {
        lex_le(a.drop_first(), b.drop_first())
    }
}

pub proof fn lemma_lex_le_total(a: Seq<u8>, b: Seq<u8>)
    ensures
        lex_le(a, b) || lex_le(b, a),
    decreases a.len(),
{
    if a.len() != 0 && b.len() != 0 && a[0] == b[0] {
        lemma_lex_le_total(a.drop_first(), b.drop_first());
    }
}

pub proof fn lemma_lex_le_antisymmetric(a: Seq<u8>, b: Seq<u8>)
    requires
        lex_le(a, b),
        lex_le(b, a),
    ensures
        a == b,
    decreases a.len(),
{
    if a.len() == 0 {
        assert(b.len() == 0);
        assert(a =~= b);
    } else {
        assert(b.len() != 0);
        assert(a[0] == b[0]);
        lemma_lex_le_antisymmetric(a.drop_first(), b.drop_first());
        assert(a =~= seq![a[0]] + a.drop_first());
        assert(b =~= seq![b[0]] + b.drop_first());
    }
}

pub proof fn lemma_lex_le_transitive(a: Seq<u8>, b: Seq<u8>, c: Seq<u8>)
    requires
        lex_le(a, b),
        lex_le(b, c),
    ensures
        lex_le(a, c),
    decreases a.len(),
{
    if a.len() != 0 && b.len() != 0 && c.len() != 0 && a[0] == b[0] && b[0] == c[0] {
        lemma_lex_le_transitive(a.drop_first(), b.drop_first(), c.drop_first());
    }
}

/// Compares two strings in byte-wise lexicographic order.
pub fn str_le(a: &str, b: &str) -> (r: bool)
    ensures
        r == lex_le(a.spec_bytes(), b.spec_bytes()),
{
    let ab = a.as_bytes();
    let bb = b.as_bytes();
    let mut i: usize = 0;
    proof {
        assert(ab@.skip(0) =~= ab@);
        assert(bb@.skip(0) =~= bb@);
    }
    loop
        invariant
            i <= ab@.len(),
            i <= bb@.len(),
            ab@ == a.spec_bytes(),
            bb@ == b.spec_bytes(),
            lex_le(a.spec_bytes(), b.spec_bytes()) == lex_le(
                ab@.skip(i as int),
                bb@.skip(i as int),
            ),
        decreases ab@.len() - i,
    {
        proof {
            if i < ab@.len() && i < bb@.len() && ab@[i as int] == bb@[i as int] {
                assert(ab@.skip(i as int).drop_first() =~= ab@.skip(i + 1));
                assert(bb@.skip(i as int).drop_first() =~= bb@.skip(i + 1));
            }
        }
        if i >= ab.len() {
            assert(ab@.skip(i as int).len() == 0);
            return true;
        }
        if i >= bb.len() {
            assert(bb@.skip(i as int).len() == 0);
            assert(ab@.skip(i as int).len() != 0);
            return false;
        }
        let x = ab[i];
        let y = bb[i];
        assert(x == ab@.skip(i as int)[0]);
        assert(y == bb@.skip(i as int)[0]);
        if x < y {
            return true;
        }
        if x > y {
            return false;
        }
        i = i + 1;
    }
}

/// String equality, specified over the character views.
pub fn str_eq(a: &str, b: &str) -> (r: bool)
    ensures
        r == (a@ == b@),
{
    let r = str_le(a, b) && str_le(b, a);
    proof {
        if r {
            lemma_lex_le_antisymmetric(a.spec_bytes(), b.spec_bytes());
            vstd::utf8::encode_utf8_decode_utf8(a@);
            vstd::utf8::encode_utf8_decode_utf8(b@);
        } else {
            lemma_lex_le_total(a.spec_bytes(), b.spec_bytes());
        }
    }
    r
}

/// True when `s` ends with `suffix` (by characters).
pub open spec fn ends_with_spec(s: Seq<char>, suffix: Seq<char>) -> bool {
    s.len() >= suffix.len() && s.skip(s.len() - suffix.len()) == suffix
}

/// True when `s` starts with `prefix` (by characters).
pub open spec fn starts_with_spec(s: Seq<char>, prefix: Seq<char>) -> bool {
    s.len() >= prefix.len() && s.take(prefix.len() as int) == prefix
}


/// Decimal digits of a natural number, most significant first.
pub open spec fn dec_spec(n: nat) -> Seq<char>
    decreases n,
{
    if n < 10 {
        seq![crate::ids::hex_digit_char(n as int)]
    } else {
        dec_spec(n / 10) + seq![crate::ids::hex_digit_char((n % 10) as int)]
    }
}

/// The digit characters of a little-endian digit list, reversed into
/// most-significant-first order.
pub open spec fn rev_digit_chars(ds: Seq<u64>) -> Seq<char> {
    Seq::new(ds.len(), |k: int| crate::ids::hex_digit_char(ds[ds.len() - 1 - k] as int))
}

/// Renders a number in decimal.
pub fn u64_to_dec(n: u64) -> (r: String)
    ensures
        r@ == dec_spec(n as nat),
{
    let mut digits: Vec<u64> = Vec::new();
    let mut rest: u64 = n;
    proof {
        assert(rev_digit_chars(digits@) =~= Seq::<char>::empty());
        assert(dec_spec(n as nat) =~= dec_spec(n as nat) + rev_digit_chars(digits@));
    }
    while rest >= 10
        invariant
            dec_spec(n as nat) == dec_spec(rest as nat) + rev_digit_chars(digits@),
            forall|i: int| 0 <= i < digits@.len() ==> #[trigger] digits@[i] < 10,
        decreases rest,
    {
        let d: u64 = rest % 10;
        let ghost before = digits@;
        digits.push(d);
        proof {
            assert(rev_digit_chars(digits@) =~= seq![crate::ids::hex_digit_char(d as int)]
                + rev_digit_chars(before));
            assert(dec_spec(rest as nat) == dec_spec((rest / 10) as nat) + seq![
                crate::ids::hex_digit_char((rest % 10) as int),
            ]);
            assert((dec_spec((rest / 10) as nat) + seq![crate::ids::hex_digit_char(d as int)])
                + rev_digit_chars(before) =~= dec_spec((rest / 10) as nat) + (seq![
                crate::ids::hex_digit_char(d as int),
            ] + rev_digit_chars(before)));
        }
        rest = rest / 10;
    }
    let ghost before_last = digits@;
    digits.push(rest);
    proof {
        assert(rev_digit_chars(digits@) =~= seq![crate::ids::hex_digit_char(rest as int)]
            + rev_digit_chars(before_last));
        assert(dec_spec(rest as nat) == seq![crate::ids::hex_digit_char(rest as int)]);
        assert((dec_spec(rest as nat)) + rev_digit_chars(before_last) =~= rev_digit_chars(
            digits@,
        ));
        assert(dec_spec(n as nat) == rev_digit_chars(digits@));
    }
    let total = digits.len();
    let mut out = String::new();
    let mut k: usize = 0;
    while k < total
        invariant
            total == digits@.len(),
            1 <= total,
            forall|i: int| 0 <= i < digits@.len() ==> #[trigger] digits@[i] < 10,
            dec_spec(n as nat) == rev_digit_chars(digits@),
            k <= total,
            out@.len() == k,
            forall|j: int| 0 <= j < k ==> #[trigger] out@[j] == rev_digit_chars(digits@)[j],
        decreases total - k,
    {
        let d = digits[total - 1 - k];
        out.append(crate::ids::hex_digit(d));
        k = k + 1;
    }
    proof {
        assert(out@ =~= rev_digit_chars(digits@));
    }
    out
}

/// The four ASCII whitespace characters a log line may consist of and still
/// be skipped.
pub open spec fn is_ws_char(c: char) -> bool {
    c == ' ' || c == '\t' || c == '\r' || c == '\n'
}

/// A line with nothing on it.
pub open spec fn is_blank_spec(s: Seq<char>) -> bool {
    forall|i: int| 0 <= i < s.len() ==> is_ws_char(#[trigger] s[i])
}

/// True when the line holds only whitespace.
pub fn is_blank(s: &str) -> (r: bool)
    ensures
        r == is_blank_spec(s@),
{
    let n = s.unicode_len();
    let mut i: usize = 0;
    while i < n
        invariant
            n == s@.len(),
            i <= n,
            forall|j: int| 0 <= j < i ==> is_ws_char(#[trigger] s@[j]),
        decreases n - i,
    {
        let c = s.get_char(i);
        if !(c == ' ' || c == '\t' || c == '\r' || c == '\n') {
            return false;
        }
        i = i + 1;
    }
    true
}

/// Index after the last path separator, the whole text when there is none.
pub open spec fn stem_start(s: Seq<char>) -> int
    decreases s.len(),
{
    if s.len() == 0 {
        0
    } else if s.last() == '/' || s.last() == '\\' {
        s.len() as int
    } else {
        stem_start(s.drop_last())
    }
}

/// Index of the last dot at or after `from`, the length when there is none.
pub open spec fn stem_end(s: Seq<char>, from: int) -> int
    decreases s.len(),
{
    if s.len() == 0 || s.len() <= from {
        s.len() as int
    } else if s.last() == '.' {
        (s.len() - 1) as int
    } else {
        stem_end(s.drop_last(), from)
    }
}

/// What a path's file stem is: the final component, extension removed.
pub open spec fn file_stem_spec(s: Seq<char>) -> Seq<char> {
    s.subrange(stem_start(s), stem_end(s, stem_start(s)))
}

/// The final path component without its extension.
pub fn file_stem_of(path: &str) -> (r: String)
    ensures
        r@ == file_stem_spec(path@),
{
    let n = path.unicode_len();
    let mut start: usize = n;
    proof {
        assert(path@.take(n as int) =~= path@);
    }
    while start > 0
        invariant_except_break
            stem_start(path@) == stem_start(path@.take(start as int)),
        invariant
            n == path@.len(),
            start <= n,
        ensures
            start <= n,
            stem_start(path@) == start as int,
        decreases start,
    {
        let c = path.get_char(start - 1);
        proof {
            assert(path@.take(start as int).last() == path@[start - 1]);
            assert(path@.take(start as int).drop_last() =~= path@.take(start - 1));
        }
        if c == '/' || c == '\\' {
            proof {
                assert(stem_start(path@.take(start as int)) == start as int);
            }
            break ;
        }
        start = start - 1;
        proof {
            if start == 0 {
                assert(path@.take(0) =~= Seq::<char>::empty());
                assert(stem_start(path@.take(0)) == 0);
            }
        }
    }
    let mut end: usize = n;
    let ghost from = start as int;
    proof {
        assert(path@.take(n as int) =~= path@);
    }
    while end > start
        invariant_except_break
            stem_end(path@, from) == stem_end(path@.take(end as int), from),
        invariant
            n == path@.len(),
            start <= end <= n,
            from == start as int,
        ensures
            start <= end <= n,
            stem_end(path@, from) == end as int,
        decreases end,
    {
        let c = path.get_char(end - 1);
        proof {
            assert(path@.take(end as int).last() == path@[end - 1]);
            assert(path@.take(end as int).drop_last() =~= path@.take(end - 1));
        }
        if c == '.' {
            proof {
                assert(stem_end(path@.take(end as int), from) == end - 1);
            }
            end = end - 1;
            break ;
        }
        end = end - 1;
        proof {
            if end == start {
                assert(stem_end(path@.take(end as int), from) == path@.take(end as int).len());
            }
        }
    }
    let stem = path.substring_char(start, end);
    stem.to_owned()
}



/// `n` in decimal, left-padded with zeros to at least `w` digits.
pub open spec fn padded_dec_spec(n: nat, w: int) -> Seq<char>
    decreases w,
{
    if dec_spec(n).len() >= w {
        dec_spec(n)
    } else {
        seq!['0'] + padded_dec_spec(n, w - 1)
    }
}

/// Renders a number in decimal, zero-padded to at least `width` digits.
pub fn u64_to_padded_dec(n: u64, width: usize) -> (r: String)
    ensures
        r@ == padded_dec_spec(n as nat, width as int),
{
    let dec = u64_to_dec(n);
    let len = dec.as_str().unicode_len();
    if len >= width {
        proof {
            assert(padded_dec_spec(n as nat, width as int) == dec_spec(n as nat));
        }
        return dec;
    }
    let mut out = String::new();
    let mut k: usize = width - len;
    proof {
        lemma_padded_peels(n as nat, width as int, len as int);
    }
    while k > 0
        invariant
            len == dec_spec(n as nat).len(),
            len < width,
            k <= width - len,
            out@.len() == width - len - k,
            forall|j: int| 0 <= j < out@.len() ==> #[trigger] out@[j] == '0',
        decreases k,
    {
        out.append("0");
        proof {
            reveal_strlit("0");
            assert("0"@ =~= seq!['0']);
        }
        k = k - 1;
    }
    out.append(dec.as_str());
    proof {
        assert(out@ =~= padded_dec_spec(n as nat, width as int));
    }
    out
}

/// The padded form is the zeros run followed by the digits.
proof fn lemma_padded_peels(n: nat, w: int, len: int)
    requires
        len == dec_spec(n).len(),
    ensures
        w > len ==> padded_dec_spec(n, w) =~= Seq::new((w - len) as nat, |j: int| '0') + dec_spec(
            n,
        ),
        w <= len ==> padded_dec_spec(n, w) == dec_spec(n),
    decreases w,
{
    if w > len {
        lemma_padded_peels(n, w - 1, len);
        if w - 1 > len {
            assert(padded_dec_spec(n, w) =~= seq!['0'] + (Seq::new(
                (w - 1 - len) as nat,
                |j: int| '0',
            ) + dec_spec(n)));
            assert(seq!['0'] + (Seq::new((w - 1 - len) as nat, |j: int| '0') + dec_spec(n)) =~= Seq::new(
                (w - len) as nat,
                |j: int| '0',
            ) + dec_spec(n));
        } else {
            assert(padded_dec_spec(n, w) =~= seq!['0'] + dec_spec(n));
            assert(seq!['0'] + dec_spec(n) =~= Seq::new((w - len) as nat, |j: int| '0') + dec_spec(
                n,
            ));
        }
    }
}

/// True when `s` ends with `suffix`.
pub fn ends_with_str(s: &str, suffix: &str) -> (r: bool)
    ensures
        r == ends_with_spec(s@, suffix@),
{
    let n = s.unicode_len();
    let m = suffix.unicode_len();
    if m > n {
        return false;
    }
    let start = n - m;
    let mut i: usize = 0;
    while i < m
        invariant
            n == s@.len(),
            m == suffix@.len(),
            m <= n,
            start == n - m,
            i <= m,
            forall|j: int| 0 <= j < i ==> #[trigger] s@[start + j] == suffix@[j],
        decreases m - i,
    {
        if s.get_char(start + i) != suffix.get_char(i) {
            proof {
                if ends_with_spec(s@, suffix@) {
                    assert(s@.skip(n - m)[i as int] == suffix@[i as int]);
                }
            }
            return false;
        }
        i = i + 1;
    }
    proof {
        assert forall|j: int| 0 <= j < m implies s@.skip(start as int)[j] == suffix@[j] by {
            assert(s@[start + j] == suffix@[j]);
        }
        assert(s@.skip(start as int) =~= suffix@);
    }
    true
}

/// ASCII lower-casing of one character.
pub open spec fn ascii_lower_char(c: char) -> char {
    if 'A' <= c && c <= 'Z' {
        ((c as u8) + 32) as char
    } else {
        c
    }
}

/// ASCII-case-insensitive equality.
pub open spec fn eq_ignore_ascii_case_spec(a: Seq<char>, b: Seq<char>) -> bool {
    a.map_values(|c: char| ascii_lower_char(c)) == b.map_values(|c: char| ascii_lower_char(c))
}

/// ASCII-case-insensitive string equality.
pub fn eq_ignore_ascii_case_str(a: &str, b: &str) -> (r: bool)
    ensures
        r == eq_ignore_ascii_case_spec(a@, b@),
{
    let n = a.unicode_len();
    let m = b.unicode_len();
    if n != m {
        proof {
            if eq_ignore_ascii_case_spec(a@, b@) {
                assert(a@.map_values(|c: char| ascii_lower_char(c)).len() == b@.map_values(
                    |c: char| ascii_lower_char(c),
                ).len());
            }
        }
        return false;
    }
    let mut i: usize = 0;
    while i < n
        invariant
            n == a@.len(),
            n == b@.len(),
            i <= n,
            forall|j: int|
                0 <= j < i ==> ascii_lower_char(#[trigger] a@[j]) == ascii_lower_char(b@[j]),
        decreases n - i,
    {
        let ca = a.get_char(i);
        let cb = b.get_char(i);
        let la = if ca >= 'A' && ca <= 'Z' {
            (((ca as u8) + 32) as char)
        } else {
            ca
        };
        let lb = if cb >= 'A' && cb <= 'Z' {
            (((cb as u8) + 32) as char)
        } else {
            cb
        };
        if la != lb {
            proof {
                if eq_ignore_ascii_case_spec(a@, b@) {
                    assert(a@.map_values(|c: char| ascii_lower_char(c))[i as int] == b@.map_values(
                        |c: char| ascii_lower_char(c),
                    )[i as int]);
                }
            }
            return false;
        }
        i = i + 1;
    }
    proof {
        assert(a@.map_values(|c: char| ascii_lower_char(c)) =~= b@.map_values(
            |c: char| ascii_lower_char(c),
        ));
    }
    true
}



/// A decimal digit.
pub open spec fn is_digit(c: char) -> bool {
    '0' <= c && c <= '9'
}

pub open spec fn all_digits(s: Seq<char>) -> bool {
    forall|i: int| 0 <= i < s.len() ==> is_digit(#[trigger] s[i])
}

/// The number a digit string denotes.
pub open spec fn dec_value(s: Seq<char>) -> int
    decreases s.len(),
{
    if s.len() == 0 {
        0
    } else {
        dec_value(s.drop_last()) * 10 + ((s.last() as u32) as int - ('0' as u32) as int)
    }
}

/// What a decimal field reads as: the denoted number when the text is a
/// plain digit string that fits, zero otherwise.
pub open spec fn dec_u64_or_zero(s: Seq<char>) -> int {
    if s.len() > 0 && all_digits(s) && dec_value(s) <= u64::MAX {
        dec_value(s)
    } else {
        0
    }
}

/// A digit string's value is not negative.
proof fn lemma_dec_value_nonneg(s: Seq<char>)
    requires
        all_digits(s),
    ensures
        dec_value(s) >= 0,
    decreases s.len(),
{
    if s.len() > 0 {
        assert(all_digits(s.drop_last()));
        lemma_dec_value_nonneg(s.drop_last());
        assert(dec_value(s.drop_last()) * 10 >= 0) by (nonlinear_arith)
            requires
                dec_value(s.drop_last()) >= 0,
        ;
    }
}

/// Longer digit prefixes denote no smaller numbers.
proof fn lemma_dec_value_prefix(s: Seq<char>, k: int)
    requires
        0 <= k <= s.len(),
        all_digits(s),
    ensures
        dec_value(s.take(k)) <= dec_value(s),
    decreases s.len() - k,
{
    if k < s.len() {
        lemma_dec_value_prefix(s, k + 1);
        assert(s.take(k + 1).drop_last() =~= s.take(k));
        assert(s.take(k + 1).last() == s[k]);
        assert(all_digits(s.take(k))) by {
            assert(forall|j: int| 0 <= j < k ==> s.take(k)[j] == s[j]);
        }
        lemma_dec_value_nonneg(s.take(k));
        assert(dec_value(s.take(k + 1)) >= dec_value(s.take(k))) by (nonlinear_arith)
            requires
                dec_value(s.take(k + 1)) == dec_value(s.take(k)) * 10 + ((s[k] as u32) as int - (
                '0' as u32) as int),
                dec_value(s.take(k)) >= 0,
                (s[k] as u32) as int - ('0' as u32) as int >= 0,
        ;
    } else {
        assert(s.take(k) =~= s);
    }
}

/// Reads a decimal digit string; zero on anything else or on overflow.
pub fn dec_to_u64(s: &str) -> (r: u64)
    ensures
        r as int == dec_u64_or_zero(s@),
{
    let n = s.unicode_len();
    let mut acc: u64 = 0;
    let mut i: usize = 0;
    proof {
        assert(s@.take(0) =~= Seq::<char>::empty());
    }
    while i < n
        invariant
            n == s@.len(),
            i <= n,
            forall|j: int| 0 <= j < i ==> is_digit(#[trigger] s@[j]),
            acc as nat == dec_value(s@.take(i as int)),
        decreases n - i,
    {
        let c = s.get_char(i);
        if c < '0' || c > '9' {
            return 0;
        }
        let d: u32 = (c as u32) - ('0' as u32);
        proof {
            assert(s@.take(i + 1).drop_last() =~= s@.take(i as int));
            assert(s@.take(i + 1).last() == s@[i as int]);
        }
        if acc > (u64::MAX - (d as u64)) / 10 {
            proof {
                assert(acc * 10 + d > u64::MAX) by (nonlinear_arith)
                    requires
                        acc > (u64::MAX - (d as u64)) / 10,
                        d < 10,
                ;
                assert(dec_value(s@.take(i + 1)) > u64::MAX);
                if all_digits(s@) {
                    lemma_dec_value_prefix(s@, i + 1);
                }
            }
            return 0;
        }
        proof {
            assert(acc * 10 + d <= u64::MAX) by (nonlinear_arith)
                requires
                    acc <= (u64::MAX - (d as u64)) / 10,
                    d < 10,
            ;
        }
        acc = acc * 10 + (d as u64);
        i = i + 1;
    }
    proof {
        assert(s@.take(n as int) =~= s@);
        if n > 0 {
            assert(all_digits(s@));
        } else {
            assert(dec_u64_or_zero(s@) == 0);
        }
    }
    acc
}


} // verus!
