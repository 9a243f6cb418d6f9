//! Text building blocks shared by the stored-hash and token formats:
//! conversion between strings and character vectors, canonical decimal
//! numbers, lower-case hexadecimal, and splitting on a delimiter.

use vstd::prelude::*;

verus! {

/// `String::push` appends one character to the end of the string.
pub assume_specification[ String::push ](s: &mut String, c: char)
    ensures
        final(s)@ == old(s)@.push(c),
;

/// The characters of `s`, in order.
pub fn chars_of(s: &str) -> (v: Vec<char>)
    ensures
        v@ == s@,
{
    let mut v: Vec<char> = Vec::new();
    let it = s.chars();
    for c in iter: it
        invariant
            v@ == iter.seq().take(iter.index() as int),
    {
        v.push(c);
    }
    v
}

/// The string made of the characters of `v`, in order.
pub fn string_of(v: &Vec<char>) -> (s: String)
    ensures
        s@ == v@,
{
    let mut s = String::new();
    let mut i: usize = 0;
    while i < v.len()
        invariant
            i <= v.len(),
            s@ == v@.take(i as int),
        decreases v.len() - i,
    {
        s.push(v[i]);
        i += 1;
    }
    s
}

/// Appends the characters of `more` to `out`.
pub fn append_chars(out: &mut Vec<char>, more: &Vec<char>)
    ensures
        final(out)@ == old(out)@ + more@,
{
    let mut i: usize = 0;
    while i < more.len()
        invariant
            i <= more.len(),
            out@ == old(out)@ + more@.take(i as int),
        decreases more.len() - i,
    {
        out.push(more[i]);
        i += 1;
    }
}

/// Appends the characters of `text` to `out`.
pub fn append_text(out: &mut Vec<char>, text: &str)
    ensures
        final(out)@ == old(out)@ + text@,
{
    let more = chars_of(text);
    append_chars(out, &more);
}

/// The characters of `v` from position `from` on.
pub fn tail_of(v: &Vec<char>, from: usize) -> (rest: Vec<char>)
    requires
        from <= v.len(),
    ensures
        rest@ == v@.skip(from as int),
{
    let mut rest: Vec<char> = Vec::new();
    let mut i: usize = from;
    while i < v.len()
        invariant
            from <= i <= v.len(),
            rest@ == v@.subrange(from as int, i as int),
        decreases v.len() - i,
    {
        rest.push(v[i]);
        i += 1;
    }
    rest
}

/// The first `count` characters of `v`.
pub fn head_of(v: &Vec<char>, count: usize) -> (front: Vec<char>)
    requires
        count <= v.len(),
    ensures
        front@ == v@.take(count as int),
{
    let mut front: Vec<char> = Vec::new();
    let mut i: usize = 0;
    while i < count
        invariant
            i <= count <= v.len(),
            front@ == v@.take(i as int),
        decreases count - i,
    {
        front.push(v[i]);
        i += 1;
    }
    front
}

/// A text in which `c` stands at no position does not contain `c`.
pub proof fn lemma_absent(s: Seq<char>, c: char)
    requires
        forall|i: int| 0 <= i < s.len() ==> #[trigger] s[i] != c,
    ensures
        !s.contains(c),
{
    if s.contains(c) {
        let k = choose|k: int| 0 <= k < s.len() && s[k] == c;
        assert(s[k] != c);
    }
}

/// Whether two character vectors hold the same text.
pub fn same_chars(a: &Vec<char>, b: &Vec<char>) -> (r: bool)
    ensures
        r == (a@ == b@),
{
    if a.len() != b.len() {
        return false;
    }
    let mut i: usize = 0;
    while i < a.len()
        invariant
            i <= a.len(),
            a.len() == b.len(),
            a@.take(i as int) == b@.take(i as int),
        decreases a.len() - i,
    {
        if a[i] != b[i] {
            return false;
        }
        assert(a@.take(i + 1) == a@.take(i as int).push(a@[i as int]));
        assert(b@.take(i + 1) == b@.take(i as int).push(b@[i as int]));
        i += 1;
    }
    assert(a@.take(a.len() as int) == a@);
    assert(b@.take(b.len() as int) == b@);
    true
}

/// Whether `a` holds exactly the characters of `text`.
pub fn same_text(a: &Vec<char>, text: &str) -> (r: bool)
    ensures
        r == (a@ == text@),
{
    let b = chars_of(text);
    same_chars(a, &b)
}

// ---------------------------------------------------------------------------
// Decimal numbers
// ---------------------------------------------------------------------------

pub open spec fn is_digit(c: char) -> bool {
    '0' <= c && c <= '9'
}

/// The character that writes the digit `d`, for `0 <= d < 10`.
pub open spec fn digit_char(d: int) -> char {
    (d + 48) as u8 as char
}

/// The number that a digit character stands for; 0 for any other character.
pub open spec fn digit_value(c: char) -> nat {
    if is_digit(c) {
        (c as int - 48) as nat
    } else {
        0
    }
}

/// The decimal writing of `n`: no sign, no leading zeros, `"0"` for zero.
pub open spec fn decimal(n: nat) -> Seq<char>
    decreases n,
{
    if n < 10 {
        seq![digit_char(n as int)]
    } else {
        decimal(n / 10).push(digit_char((n % 10) as int))
    }
}

/// The number that a run of digits writes, most significant digit first.
pub open spec fn digits_value(s: Seq<char>) -> nat
    decreases s.len(),
{
    if s.len() == 0 {
        0
    } else {
        digits_value(s.drop_last()) * 10 + digit_value(s.last())
    }
}

/// A non-empty run of digits without a superfluous leading zero.
pub open spec fn is_canonical_decimal(s: Seq<char>) -> bool {
    &&& s.len() > 0
    &&& forall|i: int| 0 <= i < s.len() ==> is_digit(#[trigger] s[i])
    &&& s.len() > 1 ==> s[0] != '0'
}

/// The number written by `s`, where `s` is a canonical decimal.
pub open spec fn parse_decimal(s: Seq<char>) -> Option<nat> {
    if is_canonical_decimal(s) {
        Some(digits_value(s))
    } else {
        None
    }
}

/// The number written by `s`, where `s` is a canonical decimal no greater than `max`.
pub open spec fn parse_decimal_up_to(s: Seq<char>, max: nat) -> Option<nat> {
    match parse_decimal(s) {
        Some(n) => if n <= max {
            Some(n)
        } else {
            None
        },
        None => None,
    }
}

/// The decimal writing of an integer: a minus sign before the magnitude of a negative one.
pub open spec fn signed_decimal(i: int) -> Seq<char> {
    if i < 0 {
        seq!['-'] + decimal((-i) as nat)
    } else {
        decimal(i as nat)
    }
}

/// The integer written by `s`; `"-0"` and a bare `"-"` write none.
pub open spec fn parse_signed_decimal(s: Seq<char>) -> Option<int> {
    if s.len() > 0 && s[0] == '-' {
        match parse_decimal(s.skip(1)) {
            Some(n) => if n > 0 {
                Some(-(n as int))
            } else {
                None
            },
            None => None,
        }
    } else {
        match parse_decimal(s) {
            Some(n) => Some(n as int),
            None => None,
        }
    }
}

/// Every character of `decimal(n)` is a digit.
pub proof fn lemma_decimal_digits(n: nat)
    ensures
        decimal(n).len() > 0,
        forall|i: int| 0 <= i < decimal(n).len() ==> is_digit(#[trigger] decimal(n)[i]),
    decreases n,
{
    if n >= 10 {
        lemma_decimal_digits(n / 10);
    }
}

/// Reading back what `decimal` wrote gives the number again.
pub proof fn lemma_decimal_round_trip(n: nat)
    ensures
        is_canonical_decimal(decimal(n)),
        digits_value(decimal(n)) == n,
        parse_decimal(decimal(n)) == Some(n),
        n > 0 ==> decimal(n)[0] != '0',
    decreases n,
{
    lemma_decimal_digits(n);
    if n < 10 {
        let s = decimal(n);
        assert(s.drop_last().len() == 0);
        assert(digits_value(s.drop_last()) == 0);
        assert(digits_value(s) == digit_value(s.last()));
    } else {
        let m = n / 10;
        lemma_decimal_round_trip(m);
        let s = decimal(n);
        assert(s.drop_last() == decimal(m));
        assert(s[0] == decimal(m)[0]);
    }
}

/// A run of digits that starts with a non-zero digit writes a positive number.
proof fn lemma_leading_digit_positive(s: Seq<char>)
    requires
        s.len() > 0,
        is_digit(s[0]),
        s[0] != '0',
    ensures
        digits_value(s) >= 1,
    decreases s.len(),
{
    if s.len() > 1 {
        lemma_leading_digit_positive(s.drop_last());
    } else {
        assert(s.last() == s[0]);
    }
}

/// `decimal` is the only canonical writing of a number.
pub proof fn lemma_canonical_decimal_unique(s: Seq<char>)
    requires
        is_canonical_decimal(s),
    ensures
        decimal(digits_value(s)) == s,
    decreases s.len(),
{
    let d = s.last();
    assert(is_digit(d));
    if s.len() == 1 {
        assert(digits_value(s.drop_last()) == 0);
        assert(decimal(digits_value(s)) =~= s);
    } else {
        let init = s.drop_last();
        assert(init[0] == s[0]);
        assert(is_canonical_decimal(init)) by {
            assert forall|i: int| 0 <= i < init.len() implies is_digit(#[trigger] init[i]) by {
                assert(init[i] == s[i]);
            }
        }
        lemma_canonical_decimal_unique(init);
        lemma_leading_digit_positive(init);
        let v = digits_value(s);
        assert(v == digits_value(init) * 10 + digit_value(d));
        assert(v / 10 == digits_value(init));
        assert(v % 10 == digit_value(d));
        assert(decimal(v) =~= s);
    }
}

/// A prefix of a run of digits writes no more than the whole run.
pub proof fn lemma_prefix_value(s: Seq<char>, k: int)
    requires
        0 <= k <= s.len(),
    ensures
        digits_value(s.take(k)) <= digits_value(s),
    decreases s.len() - k,
{
    if k == s.len() {
        assert(s.take(k) == s);
    } else {
        lemma_prefix_value(s.drop_last(), k);
        assert(s.drop_last().take(k) == s.take(k));
    }
}

/// Reading back what `signed_decimal` wrote gives the integer again.
pub proof fn lemma_signed_decimal_round_trip(i: int)
    ensures
        parse_signed_decimal(signed_decimal(i)) == Some(i),
{
    if i < 0 {
        let n = (-i) as nat;
        lemma_decimal_round_trip(n);
        let s = signed_decimal(i);
        assert(s.skip(1) == decimal(n));
    } else {
        lemma_decimal_round_trip(i as nat);
        lemma_decimal_digits(i as nat);
    }
}

/// A character that is no digit does not occur in a decimal.
pub proof fn lemma_decimal_free(n: nat, c: char)
    requires
        !is_digit(c),
    ensures
        !decimal(n).contains(c),
{
    lemma_decimal_digits(n);
    assert forall|i: int| 0 <= i < decimal(n).len() implies #[trigger] decimal(n)[i] != c by {
        assert(is_digit(decimal(n)[i]));
    }
    lemma_absent(decimal(n), c);
}

/// A character that is neither a digit nor the minus sign does not occur in a signed decimal.
pub proof fn lemma_signed_decimal_free(i: int, c: char)
    requires
        !is_digit(c),
        c != '-',
    ensures
        !signed_decimal(i).contains(c),
{
    let s = signed_decimal(i);
    if i < 0 {
        let digits = decimal((-i) as nat);
        lemma_decimal_digits((-i) as nat);
        assert forall|k: int| 0 <= k < s.len() implies #[trigger] s[k] != c by {
            if k >= 1 {
                assert(s[k] == digits[k - 1]);
                assert(is_digit(digits[k - 1]));
            }
        }
        lemma_absent(s, c);
    } else {
        lemma_decimal_free(i as nat, c);
    }
}

/// `signed_decimal` is the only writing of an integer that `parse_signed_decimal` reads.
pub proof fn lemma_signed_decimal_unique(s: Seq<char>)
    requires
        parse_signed_decimal(s) is Some,
    ensures
        signed_decimal(parse_signed_decimal(s)->0) == s,
{
    if s.len() > 0 && s[0] == '-' {
        let rest = s.skip(1);
        lemma_canonical_decimal_unique(rest);
        assert(s == seq!['-'] + rest);
    } else {
        lemma_canonical_decimal_unique(s);
    }
}

/// The character of one decimal digit.
pub fn digit_to_char(d: u8) -> (c: char)
    requires
        d < 10,
    ensures
        c == digit_char(d as int),
        is_digit(c),
        digit_value(c) == d,
{
    (d + 48u8) as char
}

/// The digit that a digit character stands for.
pub fn char_to_digit(c: char) -> (d: u8)
    requires
        is_digit(c),
    ensures
        d == digit_value(c),
        d < 10,
{
    (c as u32 - 48u32) as u8
}

/// Appends the decimal writing of `n` to `out`.
pub fn push_decimal(out: &mut Vec<char>, n: u64)
    ensures
        final(out)@ == old(out)@ + decimal(n as nat),
    decreases n,
{
    if n >= 10 {
        push_decimal(out, n / 10);
    }
    out.push(digit_to_char((n % 10) as u8));
}

/// Appends the decimal writing of `i` to `out`.
pub fn push_signed_decimal(out: &mut Vec<char>, i: i32)
    ensures
        final(out)@ == old(out)@ + signed_decimal(i as int),
{
    if i < 0 {
        out.push('-');
        let magnitude: u64 = (-(i as i64)) as u64;
        push_decimal(out, magnitude);
    } else {
        push_decimal(out, i as u64);
    }
}

/// Reads a canonical decimal that is no greater than `max`.
pub fn read_decimal(field: &Vec<char>, max: u64) -> (r: Option<u64>)
    ensures
        match r {
            Some(n) => parse_decimal_up_to(field@, max as nat) == Some(n as nat),
            None => parse_decimal_up_to(field@, max as nat) is None,
        },
{
    let len = field.len();
    if len == 0 {
        return None;
    }
    if len > 1 && field[0] == '0' {
        return None;
    }
    let mut acc: u64 = 0;
    let mut i: usize = 0;
    while i < len
        invariant
            i <= len,
            len == field.len(),
            forall|j: int| 0 <= j < i ==> is_digit(#[trigger] field@[j]),
            acc == digits_value(field@.take(i as int)),
            acc <= max,
        decreases len - i,
    {
        let c = field[i];
        if !('0' <= c && c <= '9') {
            return None;
        }
        let d: u64 = char_to_digit(c) as u64;
        proof {
            let next = field@.take(i + 1);
            assert(next.drop_last() == field@.take(i as int));
            assert(next.last() == c);
            assert(digits_value(next) == acc * 10 + d);
            lemma_prefix_value(field@, i + 1);
        }
        if d > max || acc > (max - d) / 10 {
            return None;
        }
        acc = acc * 10 + d;
        i += 1;
    }
    assert(field@.take(len as int) == field@);
    Some(acc)
}

/// Reads a canonical signed decimal that fits in an `i32`.
pub fn read_signed_decimal(field: &Vec<char>) -> (r: Option<i32>)
    ensures
        match r {
            Some(i) => parse_signed_decimal(field@) == Some(i as int),
            None => match parse_signed_decimal(field@) {
                Some(i) => i < i32::MIN || i > i32::MAX,
                None => true,
            },
        },
{
    if field.len() > 0 && field[0] == '-' {
        let rest = tail_of(field, 1);
        match read_decimal(&rest, 2147483648u64) {
            Some(n) => {
                if n == 0 {
                    None
                } else {
                    Some((-(n as i64)) as i32)
                }
            },
            None => None,
        }
    } else {
        match read_decimal(field, 2147483647u64) {
            Some(n) => Some(n as i32),
            None => None,
        }
    }
}

// ---------------------------------------------------------------------------
// Hexadecimal
// ---------------------------------------------------------------------------

/// The lower-case character that writes the hexadecimal digit `n`, for `0 <= n < 16`.
pub open spec fn hex_char(n: int) -> char {
    if n < 10 {
        (n + 48) as u8 as char
    } else {
        (n + 87) as u8 as char
    }
}

/// Two lower-case hexadecimal digits for each byte, high digit first.
pub open spec fn hex_text(bytes: Seq<u8>) -> Seq<char> {
    Seq::new(
        2 * bytes.len(),
        |i: int|
            hex_char(
                if i % 2 == 0 {
                    bytes[i / 2] as int / 16
                } else {
                    bytes[i / 2] as int % 16
                },
            ),
    )
}

/// Different byte strings have different hexadecimal writings.
pub proof fn lemma_hex_text_injective(a: Seq<u8>, b: Seq<u8>)
    requires
        hex_text(a) == hex_text(b),
    ensures
        a == b,
{
    assert(hex_text(a).len() == 2 * a.len());
    assert(hex_text(b).len() == 2 * b.len());
    assert(a.len() == b.len());
    assert forall|k: int| 0 <= k < a.len() implies a[k] == b[k] by {
        let hi_a = hex_text(a)[2 * k];
        let hi_b = hex_text(b)[2 * k];
        let lo_a = hex_text(a)[2 * k + 1];
        let lo_b = hex_text(b)[2 * k + 1];
        assert(hi_a == hex_char(a[k] as int / 16));
        assert(hi_b == hex_char(b[k] as int / 16));
        assert(lo_a == hex_char(a[k] as int % 16));
        assert(lo_b == hex_char(b[k] as int % 16));
        assert(a[k] as int / 16 == b[k] as int / 16);
        assert(a[k] as int % 16 == b[k] as int % 16);
    }
    assert(a =~= b);
}

/// A hexadecimal writing holds no `'.'`.
pub proof fn lemma_hex_text_has_no_dot(bytes: Seq<u8>)
    ensures
        !hex_text(bytes).contains('.'),
{
    assert forall|i: int| 0 <= i < hex_text(bytes).len() implies hex_text(bytes)[i] != '.' by {}
}

fn hex_digit(n: u8) -> (c: char)
    requires
        n < 16,
    ensures
        c == hex_char(n as int),
{
    if n < 10 {
        (n + 48u8) as char
    } else {
        (n + 87u8) as char
    }
}

/// The lower-case hexadecimal writing of `bytes`.
pub fn hex_encode(bytes: &Vec<u8>) -> (out: Vec<char>)
    ensures
        out@ == hex_text(bytes@),
{
    let mut out: Vec<char> = Vec::new();
    let mut i: usize = 0;
    while i < bytes.len()
        invariant
            i <= bytes.len(),
            out@ == hex_text(bytes@.take(i as int)),
        decreases bytes.len() - i,
    {
        let b = bytes[i];
        out.push(hex_digit(b / 16));
        out.push(hex_digit(b % 16));
        assert(out@ =~= hex_text(bytes@.take(i + 1))) by {
            let prev = bytes@.take(i as int);
            let next = bytes@.take(i + 1);
            assert forall|j: int| 0 <= j < 2 * (i + 1) implies out@[j] == hex_text(next)[j] by {
                if j < 2 * i {
                    assert(next[j / 2] == prev[j / 2]);
                    assert(out@[j] == hex_text(prev)[j]);
                }
            }
        }
        i += 1;
    }
    assert(bytes@.take(bytes.len() as int) == bytes@);
    out
}

// ---------------------------------------------------------------------------
// The alphabet of salts and digests
// ---------------------------------------------------------------------------

/// A letter, a digit, `'+'` or `'/'`.
pub open spec fn is_b64_char(c: char) -> bool {
    ('A' <= c && c <= 'Z') || ('a' <= c && c <= 'z') || ('0' <= c && c <= '9') || c == '+' || c
        == '/'
}

/// A non-empty text over the alphabet of `is_b64_char`.
pub open spec fn is_b64_text(s: Seq<char>) -> bool {
    s.len() > 0 && forall|i: int| 0 <= i < s.len() ==> is_b64_char(#[trigger] s[i])
}

/// Whether `v` is a non-empty text of letters, digits, `'+'` and `'/'`.
pub fn check_b64_text(v: &Vec<char>) -> (r: bool)
    ensures
        r == is_b64_text(v@),
{
    if v.len() == 0 {
        return false;
    }
    let mut i: usize = 0;
    while i < v.len()
        invariant
            i <= v.len(),
            forall|j: int| 0 <= j < i ==> is_b64_char(#[trigger] v@[j]),
        decreases v.len() - i,
    {
        let c = v[i];
        let ok = ('A' <= c && c <= 'Z') || ('a' <= c && c <= 'z') || ('0' <= c && c <= '9') || c
            == '+' || c == '/';
        if !ok {
            return false;
        }
        i += 1;
    }
    true
}

// ---------------------------------------------------------------------------
// Splitting on a delimiter
// ---------------------------------------------------------------------------

/// The fields of `s` between occurrences of `d`. There is always at least one
/// field; a text with `k` occurrences of `d` has `k + 1` fields, some of them
/// possibly empty.
pub open spec fn split(s: Seq<char>, d: char) -> Seq<Seq<char>>
    decreases s.len(),
{
    if s.len() == 0 {
        seq![Seq::<char>::empty()]
    } else {
        let init = split(s.drop_last(), d);
        if s.last() == d {
            init.push(Seq::<char>::empty())
        } else {
            init.drop_last().push(init.last().push(s.last()))
        }
    }
}

/// The texts held by a vector of character vectors.
pub open spec fn field_views(parts: Seq<Vec<char>>) -> Seq<Seq<char>> {
    Seq::new(parts.len(), |i: int| parts[i]@)
}

/// `split` gives at least one field, and no field holds the delimiter.
pub proof fn lemma_split_fields(s: Seq<char>, d: char)
    ensures
        split(s, d).len() >= 1,
        forall|i: int| 0 <= i < split(s, d).len() ==> !(#[trigger] split(s, d)[i]).contains(d),
    decreases s.len(),
{
    if s.len() > 0 {
        lemma_split_fields(s.drop_last(), d);
        let init = split(s.drop_last(), d);
        let parts = split(s, d);
        assert forall|i: int| 0 <= i < parts.len() implies !(#[trigger] parts[i]).contains(d) by {
            if s.last() == d {
                if i < init.len() {
                    assert(parts[i] == init[i]);
                }
            } else {
                if i < init.len() - 1 {
                    assert(parts[i] == init[i]);
                } else {
                    let grown = init.last().push(s.last());
                    assert(parts[i] == grown);
                    assert(!init.last().contains(d));
                    if grown.contains(d) {
                        let k = choose|k: int| 0 <= k < grown.len() && grown[k] == d;
                        if k < init.last().len() {
                            assert(init.last()[k] == d);
                        }
                    }
                }
            }
        }
    }
}

/// Appending a text without the delimiter lengthens the last field.
pub proof fn lemma_split_grow(s: Seq<char>, t: Seq<char>, d: char)
    requires
        !t.contains(d),
    ensures
        split(s + t, d) == split(s, d).drop_last().push(split(s, d).last() + t),
    decreases t.len(),
{
    lemma_split_fields(s, d);
    if t.len() == 0 {
        assert(s + t == s);
        assert(split(s, d).last() + t == split(s, d).last());
        assert(split(s, d).drop_last().push(split(s, d).last()) == split(s, d));
    } else {
        let t0 = t.drop_last();
        assert(!t0.contains(d)) by {
            if t0.contains(d) {
                let k = choose|k: int| 0 <= k < t0.len() && t0[k] == d;
                assert(t[k] == d);
            }
        }
        assert(t.last() != d) by {
            assert(t[t.len() - 1] == t.last());
        }
        lemma_split_grow(s, t0, d);
        assert((s + t).drop_last() == s + t0);
        assert((s + t).last() == t.last());
        let base = split(s, d);
        let init = split(s + t0, d);
        assert(init == base.drop_last().push(base.last() + t0));
        assert(init.drop_last() == base.drop_last());
        assert(init.last().push(t.last()) == base.last() + t);
    }
}

/// Appending the delimiter and a text without it adds that text as one more field.
pub proof fn lemma_split_extend(s: Seq<char>, t: Seq<char>, d: char)
    requires
        !t.contains(d),
    ensures
        split(s + seq![d] + t, d) == split(s, d).push(t),
{
    let sd = s + seq![d];
    assert(sd.drop_last() == s);
    assert(sd.last() == d);
    assert(split(sd, d) == split(s, d).push(Seq::<char>::empty()));
    lemma_split_grow(sd, t, d);
    assert(Seq::<char>::empty() + t == t);
    assert(split(sd, d).drop_last() == split(s, d));
}

/// A text without the delimiter is its own single field.
pub proof fn lemma_split_single(t: Seq<char>, d: char)
    requires
        !t.contains(d),
    ensures
        split(t, d) == seq![t],
{
    let e = Seq::<char>::empty();
    lemma_split_grow(e, t, d);
    assert(e + t == t);
    assert(split(e, d) == seq![e]);
    assert(seq![e].drop_last().push(seq![e].last() + t) == seq![t]);
}

/// Where a text has more than one field, it is what comes before the last
/// delimiter, the delimiter, and the last field; what comes before has the
/// other fields.
pub proof fn lemma_split_peel(s: Seq<char>, d: char)
    requires
        split(s, d).len() >= 2,
    ensures
        ({
            let last = split(s, d).last();
            let head = s.take(s.len() - last.len() - 1);
            &&& s.len() >= last.len() + 1
            &&& s == head + seq![d] + last
            &&& split(head, d) == split(s, d).drop_last()
        }),
    decreases s.len(),
{
    lemma_split_fields(s, d);
    if s.len() == 0 {
    } else {
        let s0 = s.drop_last();
        let init = split(s0, d);
        lemma_split_fields(s0, d);
        if s.last() == d {
            let last = split(s, d).last();
            assert(last.len() == 0);
            let head = s.take(s.len() - 1);
            assert(head == s0);
            assert(s == head + seq![d] + last);
            assert(split(s, d).drop_last() == init);
        } else {
            assert(init.len() >= 2);
            lemma_split_peel(s0, d);
            let last0 = init.last();
            let head0 = s0.take(s0.len() - last0.len() - 1);
            let last = split(s, d).last();
            assert(last == last0.push(s.last()));
            let head = s.take(s.len() - last.len() - 1);
            assert(head == head0);
            assert(s == s0.push(s.last()));
            assert(s == head + seq![d] + last);
            assert(split(s, d).drop_last() == init.drop_last());
        }
    }
}

/// The fields put together again, with `d` between one and the next.
pub open spec fn join(parts: Seq<Seq<char>>, d: char) -> Seq<char>
    decreases parts.len(),
{
    if parts.len() == 0 {
        Seq::<char>::empty()
    } else if parts.len() == 1 {
        parts[0]
    } else {
        join(parts.drop_last(), d) + seq![d] + parts.last()
    }
}

/// Joining one more field appends the delimiter and the field.
pub proof fn lemma_join_push(parts: Seq<Seq<char>>, last: Seq<char>, d: char)
    requires
        parts.len() >= 1,
    ensures
        join(parts.push(last), d) == join(parts, d) + seq![d] + last,
{
    assert(parts.push(last).drop_last() == parts);
}

/// A text is its fields joined: splitting loses nothing.
pub proof fn lemma_join_split(s: Seq<char>, d: char)
    ensures
        join(split(s, d), d) == s,
    decreases s.len(),
{
    if s.len() == 0 {
        assert(join(split(s, d), d) == s);
    } else {
        let s0 = s.drop_last();
        let c = s.last();
        let init = split(s0, d);
        lemma_join_split(s0, d);
        lemma_split_fields(s0, d);
        assert(s == s0.push(c));
        if c == d {
            lemma_join_push(init, Seq::<char>::empty(), d);
            assert(join(init, d) + seq![d] + Seq::<char>::empty() == s0.push(c));
        } else if init.len() == 1 {
            let parts = split(s, d);
            assert(parts.len() == 1);
            assert(parts[0] == init[0].push(c));
        } else {
            let parts = split(s, d);
            let front = init.drop_last();
            assert(parts == front.push(init.last().push(c)));
            lemma_join_push(front, init.last().push(c), d);
            lemma_join_push(front, init.last(), d);
            assert(front.push(init.last()) == init);
            assert(join(front, d) + seq![d] + init.last().push(c) == (join(front, d) + seq![d]
                + init.last()).push(c));
        }
    }
}

/// The fields of `s` between occurrences of `d`.
pub fn split_chars(s: &Vec<char>, d: char) -> (parts: Vec<Vec<char>>)
    ensures
        field_views(parts@) == split(s@, d),
        parts.len() >= 1,
{
    let mut parts: Vec<Vec<char>> = Vec::new();
    let mut cur: Vec<char> = Vec::new();
    let mut i: usize = 0;
    while i < s.len()
        invariant
            i <= s.len(),
            split(s@.take(i as int), d) == field_views(parts@).push(cur@),
        decreases s.len() - i,
    {
        let c = s[i];
        proof {
            assert(s@.take(i + 1).drop_last() == s@.take(i as int));
            assert(s@.take(i + 1).last() == c);
        }
        if c == d {
            let ghost before = field_views(parts@);
            let ghost done = cur@;
            parts.push(cur);
            cur = Vec::new();
            assert(field_views(parts@) == before.push(done));
        } else {
            cur.push(c);
        }
        i += 1;
    }
    let ghost before = field_views(parts@);
    let ghost done = cur@;
    parts.push(cur);
    assert(field_views(parts@) == before.push(done));
    assert(s@.take(s.len() as int) == s@);
    parts
}

} // verus!
