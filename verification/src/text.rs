//! Character and string helpers shared by the path, header and matcher parsers.
//!
//! Strings are modelled by their character sequences (`s@`). Unicode character
//! classes and case mapping are taken from the standard library and given names.
use vstd::prelude::*;

verus! {

/// Whether `char::is_alphabetic` holds of a character (Unicode `Alphabetic`).
pub uninterp spec fn unicode_alphabetic(c: char) -> bool;

/// Whether `char::is_numeric` holds of a character (Unicode numeric categories).
pub uninterp spec fn unicode_numeric(c: char) -> bool;

/// Whether `char::is_whitespace` holds of a character (Unicode `White_Space`).
pub uninterp spec fn unicode_whitespace(c: char) -> bool;

/// What `str::to_lowercase` returns for a string.
pub uninterp spec fn unicode_lowercase(s: Seq<char>) -> Seq<char>;

/// What `str::to_uppercase` returns for a string.
pub uninterp spec fn unicode_uppercase(s: Seq<char>) -> Seq<char>;

pub open spec fn is_ascii_letter(c: char) -> bool {
    ('a' <= c && c <= 'z') || ('A' <= c && c <= 'Z')
}

pub open spec fn is_ascii_digit(c: char) -> bool {
    '0' <= c && c <= '9'
}

pub open spec fn is_ascii_space(c: char) -> bool {
    c == ' ' || c == '\t' || c == '\n' || c == '\r' || c == '\x0B' || c == '\x0C'
}

/// The alphabetic test as the parsers see it: on ASCII characters it is
/// decided here, elsewhere it is the Unicode property.
pub open spec fn char_alphabetic(c: char) -> bool {
    if (c as u32) < 128 {
        is_ascii_letter(c)
    } else {
        unicode_alphabetic(c)
    }
}

/// The numeric test as the parsers see it: on ASCII characters it is decided
/// here, elsewhere it is the Unicode property.
pub open spec fn char_numeric(c: char) -> bool {
    if (c as u32) < 128 {
        is_ascii_digit(c)
    } else {
        unicode_numeric(c)
    }
}

/// `char::is_alphabetic`: the Unicode `Alphabetic` property, which on ASCII
/// characters holds of the letters exactly.
#[verifier::external_body]
pub(crate) fn char_is_alphabetic(c: char) -> (b: bool)
    ensures
        b == unicode_alphabetic(c),
        (c as u32) < 128 ==> (b <==> is_ascii_letter(c)),
{
    c.is_alphabetic()
}

/// `char::is_numeric`: the Unicode numeric general categories, which on ASCII
/// characters hold of the decimal digits exactly.
#[verifier::external_body]
pub(crate) fn char_is_numeric(c: char) -> (b: bool)
    ensures
        b == unicode_numeric(c),
        (c as u32) < 128 ==> (b <==> is_ascii_digit(c)),
{
    c.is_numeric()
}

/// `char::is_whitespace`: the Unicode `White_Space` property, which on ASCII
/// characters holds of space, tab, line feed, vertical tab, form feed and
/// carriage return exactly.
#[verifier::external_body]
pub(crate) fn char_is_whitespace(c: char) -> (b: bool)
    ensures
        b == unicode_whitespace(c),
        (c as u32) < 128 ==> (b <==> is_ascii_space(c)),
{
    c.is_whitespace()
}

/// Whether every character of a string is ASCII.
pub open spec fn all_ascii(s: Seq<char>) -> bool {
    forall|i: int| 0 <= i < s.len() ==> (#[trigger] s[i] as u32) < 128
}

/// The ASCII lower-case of a character: `A` to `Z` become `a` to `z`, any
/// other character is kept.
pub open spec fn ascii_lower(c: char) -> char {
    if 'A' <= c && c <= 'Z' {
        ((c as u32) + 32) as char
    } else {
        c
    }
}

/// The ASCII upper-case of a character: `a` to `z` become `A` to `Z`, any
/// other character is kept.
pub open spec fn ascii_upper(c: char) -> char {
    if 'a' <= c && c <= 'z' {
        ((c as u32) - 32) as char
    } else {
        c
    }
}

/// `str::to_lowercase`: the Unicode lower-case mapping of a string. The
/// mapping is only named, but for an ASCII string it is the ASCII lower-case
/// of each character (the Unicode lower-case of an ASCII character is its
/// ASCII lower-case, and no ASCII character is affected by context).
#[verifier::external_body]
pub(crate) fn str_to_lowercase(s: &str) -> (r: String)
    ensures
        r@ == unicode_lowercase(s@),
        all_ascii(s@) ==> r@ == s@.map_values(|c: char| ascii_lower(c)),
{
    s.to_lowercase()
}

/// `str::to_uppercase`: the Unicode upper-case mapping of a string. The
/// mapping is only named, but for an ASCII string it is the ASCII upper-case
/// of each character.
#[verifier::external_body]
pub(crate) fn str_to_uppercase(s: &str) -> (r: String)
    ensures
        r@ == unicode_uppercase(s@),
        all_ascii(s@) ==> r@ == s@.map_values(|c: char| ascii_upper(c)),
{
    s.to_uppercase()
}

/// `String::push`: appends one character.
#[verifier::external_body]
pub(crate) fn push_char(s: &mut String, c: char)
    ensures
        final(s)@ == old(s)@.push(c),
{
    s.push(c)
}

/// The characters of a string, in order.
pub fn chars_of(s: &str) -> (v: Vec<char>)
    ensures
        v@ == s@,
{
    let n = s.unicode_len();
    let mut v: Vec<char> = Vec::new();
    let mut i: usize = 0;
    while i < n
        invariant
            n == s@.len(),
            i <= n,
            v@ == s@.subrange(0, i as int),
        decreases n - i,
    {
        let c = s.get_char(i);
        v.push(c);
        i = i + 1;
        assert(v@ =~= s@.subrange(0, i as int));
    }
    assert(v@ =~= s@);
    v
}

/// Appends the characters `v[from..to]` to `out`.
pub fn push_chars(out: &mut String, v: &Vec<char>, from: usize, to: usize)
    requires
        from <= to <= v.len(),
    ensures
        final(out)@ == old(out)@ + v@.subrange(from as int, to as int),
{
    let mut i = from;
    while i < to
        invariant
            from <= i <= to <= v.len(),
            out@ == old(out)@ + v@.subrange(from as int, i as int),
        decreases to - i,
    {
        push_char(out, v[i]);
        i = i + 1;
        assert(out@ =~= old(out)@ + v@.subrange(from as int, i as int));
    }
}

/// Appends a string to another.
pub fn push_str(out: &mut String, s: &str)
    ensures
        final(out)@ == old(out)@ + s@,
{
    let v = chars_of(s);
    push_chars(out, &v, 0, v.len());
    assert(v@.subrange(0, v@.len() as int) =~= s@);
}

/// Whether two strings hold the same characters.
pub fn str_equal(a: &str, b: &str) -> (r: bool)
    ensures
        r == (a@ == b@),
{
    let va = chars_of(a);
    let vb = chars_of(b);
    chars_equal(&va, &vb)
}

/// Whether two character vectors are equal.
pub fn chars_equal(a: &Vec<char>, b: &Vec<char>) -> (r: bool)
    ensures
        r == (a@ == b@),
{
    if a.len() != b.len() {
        return false;
    }
    let mut i: usize = 0;
    while i < a.len()
        invariant
            a.len() == b.len(),
            i <= a.len(),
            a@.subrange(0, i as int) == b@.subrange(0, i as int),
        decreases a.len() - i,
    {
        if a[i] != b[i] {
            assert(a@[i as int] != b@[i as int]);
            return false;
        }
        i = i + 1;
        assert(a@.subrange(0, i as int) =~= a@.subrange(0, i - 1).push(a@[i - 1]));
        assert(b@.subrange(0, i as int) =~= b@.subrange(0, i - 1).push(b@[i - 1]));
    }
    assert(a@ =~= a@.subrange(0, i as int));
    assert(b@ =~= b@.subrange(0, i as int));
    true
}

/// The character for a decimal digit.
pub open spec fn digit_char(d: nat) -> char {
    if d == 0 { '0' }
    else if d == 1 { '1' }
    else if d == 2 { '2' }
    else if d == 3 { '3' }
    else if d == 4 { '4' }
    else if d == 5 { '5' }
    else if d == 6 { '6' }
    else if d == 7 { '7' }
    else if d == 8 { '8' }
    else { '9' }
}

/// The value of a decimal digit character.
pub open spec fn digit_value(c: char) -> nat {
    (c as u32 - '0' as u32) as nat
}

/// The decimal representation of a natural number, without leading zeros.
pub open spec fn decimal(n: nat) -> Seq<char>
    decreases n,
{
    if n < 10 {
        seq![digit_char(n)]
    } else {
        decimal(n / 10).push(digit_char(n % 10))
    }
}

/// The value of a sequence of decimal digits.
pub open spec fn digits_value(s: Seq<char>) -> nat
    decreases s.len(),
{
    if s.len() == 0 {
        0
    } else {
        digits_value(s.drop_last()) * 10 + digit_value(s.last())
    }
}

pub open spec fn all_ascii_digits(s: Seq<char>) -> bool {
    forall|i: int| 0 <= i < s.len() ==> is_ascii_digit(#[trigger] s[i])
}

/// What `usize::from_str` accepts: an optional `+` followed by one or more ASCII
/// digits whose value fits in a `usize`.
pub open spec fn usize_parse(s: Seq<char>) -> Option<usize> {
    let digits = if s.len() > 0 && s[0] == '+' { s.drop_first() } else { s };
    if digits.len() > 0 && all_ascii_digits(digits) && digits_value(digits) <= usize::MAX {
        Some(digits_value(digits) as usize)
    } else {
        None
    }
}

pub proof fn lemma_digit_char(d: nat)
    requires
        d < 10,
    ensures
        is_ascii_digit(digit_char(d)),
        digit_value(digit_char(d)) == d,
{
}

pub proof fn lemma_decimal_digits(n: nat)
    ensures
        decimal(n).len() > 0,
        all_ascii_digits(decimal(n)),
        digits_value(decimal(n)) == n,
    decreases n,
{
    if n < 10 {
        lemma_digit_char(n);
        assert(decimal(n).drop_last() =~= Seq::<char>::empty());
        assert(digits_value(decimal(n).drop_last()) == 0);
        assert(decimal(n).last() == digit_char(n));
    } else {
        lemma_decimal_digits(n / 10);
        lemma_digit_char(n % 10);
        let s = decimal(n);
        assert(s.drop_last() =~= decimal(n / 10));
        assert(s.last() == digit_char(n % 10));
        assert(n == (n / 10) * 10 + n % 10);
        assert forall|i: int| 0 <= i < s.len() implies is_ascii_digit(#[trigger] s[i]) by {
            if i < s.len() - 1 {
                assert(s[i] == decimal(n / 10)[i]);
            }
        }
    }
}

/// The decimal representation of a `usize`, as `usize::to_string` gives it.
pub fn usize_to_decimal(n: usize) -> (s: String)
    ensures
        s@ == decimal(n as nat),
    decreases n,
{
    if n < 10 {
        let mut s = String::new();
        push_char(&mut s, digit_to_char(n));
        assert(s@ =~= decimal(n as nat));
        s
    } else {
        let mut s = usize_to_decimal(n / 10);
        push_char(&mut s, digit_to_char(n % 10));
        s
    }
}

fn digit_to_char(d: usize) -> (c: char)
    requires
        d < 10,
    ensures
        c == digit_char(d as nat),
{
    if d == 0 { '0' }
    else if d == 1 { '1' }
    else if d == 2 { '2' }
    else if d == 3 { '3' }
    else if d == 4 { '4' }
    else if d == 5 { '5' }
    else if d == 6 { '6' }
    else if d == 7 { '7' }
    else if d == 8 { '8' }
    else { '9' }
}

/// Parses a `usize` as `usize::from_str` does.
pub fn parse_usize(s: &Vec<char>) -> (r: Option<usize>)
    ensures
        r == usize_parse(s@),
{
    let start: usize = if s.len() > 0 && s[0] == '+' { 1 } else { 0 };
    let ghost digits = if s@.len() > 0 && s@[0] == '+' { s@.drop_first() } else { s@ };
    assert(digits =~= s@.subrange(start as int, s@.len() as int));
    if start >= s.len() {
        return None;
    }
    let mut value: usize = 0;
    let mut i = start;
    while i < s.len()
        invariant
            start < s.len(),
            start <= i <= s.len(),
            digits == s@.subrange(start as int, s@.len() as int),
            digits == (if s@.len() > 0 && s@[0] == '+' { s@.drop_first() } else { s@ }),
            all_ascii_digits(s@.subrange(start as int, i as int)),
            value as nat == digits_value(s@.subrange(start as int, i as int)),
        decreases s.len() - i,
    {
        let c = s[i];
        let ghost prefix = s@.subrange(start as int, i as int);
        let ghost next = s@.subrange(start as int, i + 1);
        assert(next.drop_last() =~= prefix);
        if !('0' <= c && c <= '9') {
            assert(digits[i - start] == s@[i as int]);
            assert(!is_ascii_digit(digits[i - start]));
            assert(!all_ascii_digits(digits));
            assert(usize_parse(s@).is_none());
            return None;
        }
        let d = (c as u32 - '0' as u32) as usize;
        if value > (usize::MAX - d) / 10 {
            proof {
                assert(digits.subrange(0, (i - start + 1) as int) =~= next);
                assert(value * 10 + d > usize::MAX) by (nonlinear_arith)
                    requires value > (usize::MAX - d) / 10, d < 10;
                assert(c == next.last());
                assert(digits_value(next) == value * 10 + d);
                if all_ascii_digits(digits) {
                    lemma_digits_value_monotone(digits, (i - start + 1) as int);
                    assert(digits_value(digits) > usize::MAX);
                }
                assert(usize_parse(s@).is_none());
            }
            return None;
        }
        proof {
            assert(value * 10 + d <= usize::MAX) by (nonlinear_arith)
                requires value <= (usize::MAX - d) / 10, d < 10;
        }
        value = value * 10 + d;
        i = i + 1;
        assert forall|k: int| 0 <= k < next.len() implies is_ascii_digit(#[trigger] next[k]) by {
            if k < prefix.len() {
                assert(next[k] == prefix[k]);
            }
        }
    }
    assert(s@.subrange(start as int, i as int) =~= digits);
    Some(value)
}

/// Digit-sequence values only grow as digits are appended.
pub proof fn lemma_digits_value_monotone(s: Seq<char>, k: int)
    requires
        0 <= k <= s.len(),
        all_ascii_digits(s),
    ensures
        digits_value(s.subrange(0, k)) <= digits_value(s),
    decreases s.len() - k,
{
    if k < s.len() {
        lemma_digits_value_monotone(s, k + 1);
        assert(s.subrange(0, k + 1).drop_last() =~= s.subrange(0, k));
        assert(is_ascii_digit(s[k]));
        assert(s.subrange(0, k + 1).last() == s[k]);
        let a = digits_value(s.subrange(0, k));
        let b = digits_value(s.subrange(0, k + 1));
        assert(b == a * 10 + digit_value(s[k]));
        assert(a <= b) by (nonlinear_arith)
            requires b == a * 10 + digit_value(s[k]);
    } else {
        assert(s.subrange(0, k) =~= s);
    }
}

/// The whitespace test as the parsers see it: on ASCII characters it is
/// decided here, elsewhere it is the Unicode property.
pub open spec fn char_whitespace(c: char) -> bool {
    if (c as u32) < 128 {
        is_ascii_space(c)
    } else {
        unicode_whitespace(c)
    }
}

/// The string without its leading whitespace.
pub open spec fn trim_start_of(s: Seq<char>) -> Seq<char>
    decreases s.len(),
{
    if s.len() > 0 && char_whitespace(s[0]) {
        trim_start_of(s.drop_first())
    } else {
        s
    }
}

/// The string without its trailing whitespace.
pub open spec fn trim_end_of(s: Seq<char>) -> Seq<char>
    decreases s.len(),
{
    if s.len() > 0 && char_whitespace(s.last()) {
        trim_end_of(s.drop_last())
    } else {
        s
    }
}

/// The string without leading and trailing whitespace, as `str::trim` gives it.
pub open spec fn trim_of(s: Seq<char>) -> Seq<char> {
    trim_end_of(trim_start_of(s))
}

/// The pieces of a string between occurrences of a separator, as `str::split`
/// gives them (one more piece than there are separators).
pub open spec fn split_of(s: Seq<char>, sep: char) -> Seq<Seq<char>>
    decreases s.len(),
{
    if s.len() == 0 {
        seq![Seq::empty()]
    } else {
        let parts = split_of(s.drop_last(), sep);
        if s.last() == sep {
            parts.push(Seq::empty())
        } else {
            parts.update(parts.len() - 1, parts.last().push(s.last()))
        }
    }
}

/// The whitespace test as the parsers see it.
pub fn is_whitespace_exec(c: char) -> (r: bool)
    ensures
        r == char_whitespace(c),
{
    char_is_whitespace(c)
}

/// The characters `v[from..to]` without leading and trailing whitespace.
pub fn trim_chars(v: &Vec<char>, from: usize, to: usize) -> (r: String)
    requires
        from <= to <= v.len(),
    ensures
        r@ == trim_of(v@.subrange(from as int, to as int)),
{
    let mut lo = from;
    while lo < to && is_whitespace_exec(v[lo])
        invariant
            from <= lo <= to <= v.len(),
            trim_start_of(v@.subrange(from as int, to as int)) == trim_start_of(
                v@.subrange(lo as int, to as int),
            ),
        decreases to - lo,
    {
        assert(v@.subrange(lo as int, to as int).drop_first() =~= v@.subrange(lo + 1, to as int));
        lo = lo + 1;
    }
    assert(trim_start_of(v@.subrange(lo as int, to as int)) == v@.subrange(lo as int, to as int));
    let mut hi = to;
    while hi > lo && is_whitespace_exec(v[hi - 1])
        invariant
            from <= lo <= hi <= to <= v.len(),
            trim_of(v@.subrange(from as int, to as int)) == trim_end_of(
                v@.subrange(lo as int, hi as int),
            ),
        decreases hi - lo,
    {
        assert(v@.subrange(lo as int, hi as int).drop_last() =~= v@.subrange(lo as int, hi - 1));
        hi = hi - 1;
    }
    let mut r = String::new();
    push_chars(&mut r, v, lo, hi);
    assert(r@ =~= v@.subrange(lo as int, hi as int));
    r
}

/// `str::trim`: the string without leading and trailing whitespace.
pub fn trim_str(s: &str) -> (r: String)
    ensures
        r@ == trim_of(s@),
{
    let v = chars_of(s);
    assert(v@.subrange(0, v@.len() as int) =~= s@);
    trim_chars(&v, 0, v.len())
}


/// The number of bytes of a character in UTF-8.
pub open spec fn utf8_width(c: char) -> nat {
    vstd::utf8::encode_scalar(c as u32).len()
}

/// The number of UTF-8 bytes of the first `k` characters of a string: the byte
/// offset of character `k`.
pub open spec fn bytes_before(s: Seq<char>, k: int) -> nat {
    vstd::utf8::encode_utf8(s.subrange(0, k)).len()
}

/// The number of UTF-8 bytes of a string.
pub open spec fn byte_len(s: Seq<char>) -> nat {
    vstd::utf8::encode_utf8(s).len()
}

/// Encoding a string followed by one more character appends that character's bytes.
pub proof fn lemma_encode_push(s: Seq<char>, c: char)
    ensures
        vstd::utf8::encode_utf8(s.push(c)) == vstd::utf8::encode_utf8(s) + vstd::utf8::encode_scalar(c as u32),
    decreases s.len(),
{
    if s.len() == 0 {
        assert(s.push(c).drop_first() =~= Seq::<char>::empty());
        assert(vstd::utf8::encode_utf8(Seq::<char>::empty()) =~= Seq::<u8>::empty());
        assert(vstd::utf8::encode_scalar(c as u32) + Seq::<u8>::empty() =~= vstd::utf8::encode_scalar(c as u32));
        assert(vstd::utf8::encode_utf8(s) =~= Seq::<u8>::empty());
        assert(Seq::<u8>::empty() + vstd::utf8::encode_scalar(c as u32) =~= vstd::utf8::encode_scalar(c as u32));
    } else {
        lemma_encode_push(s.drop_first(), c);
        assert(s.push(c).drop_first() =~= s.drop_first().push(c));
        assert(s.push(c)[0] == s[0]);
        let a = vstd::utf8::encode_scalar(s[0] as u32);
        let b = vstd::utf8::encode_utf8(s.drop_first());
        let d = vstd::utf8::encode_scalar(c as u32);
        assert(a + (b + d) =~= (a + b) + d);
    }
}

/// The byte offset of character `k + 1` is that of character `k` plus the
/// width of character `k`.
pub proof fn lemma_bytes_before_step(s: Seq<char>, k: int)
    requires
        0 <= k < s.len(),
    ensures
        bytes_before(s, k + 1) == bytes_before(s, k) + utf8_width(s[k]),
{
    assert(s.subrange(0, k + 1) =~= s.subrange(0, k).push(s[k]));
    lemma_encode_push(s.subrange(0, k), s[k]);
}

/// Every character takes between one and four bytes.
pub proof fn lemma_utf8_width_bounds(c: char)
    ensures
        1 <= utf8_width(c) <= 4,
{
}

/// Byte offsets grow strictly with the character position.
pub proof fn lemma_bytes_before_monotone(s: Seq<char>, j: int, k: int)
    requires
        0 <= j <= k <= s.len(),
    ensures
        bytes_before(s, j) + (k - j) <= bytes_before(s, k),
    decreases k - j,
{
    if j < k {
        lemma_bytes_before_monotone(s, j, k - 1);
        lemma_bytes_before_step(s, k - 1);
        lemma_utf8_width_bounds(s[k - 1]);
    }
}

/// The byte offset of the end of a string is its byte length.
pub proof fn lemma_bytes_before_all(s: Seq<char>)
    ensures
        bytes_before(s, s.len() as int) == byte_len(s),
        bytes_before(s, 0) == 0,
{
    assert(s.subrange(0, s.len() as int) =~= s);
    assert(s.subrange(0, 0) =~= Seq::<char>::empty());
}

/// `char::len_utf8`: the number of bytes of a character in UTF-8.
pub fn char_width(c: char) -> (r: usize)
    ensures
        r == utf8_width(c),
        1 <= r <= 4,
{
    proof {
        vstd::utf8::char_is_scalar(c);
    }
    let u = c as u32;
    if u <= 0x7F {
        1
    } else if u <= 0x7FF {
        2
    } else if u <= 0xFFFF {
        3
    } else {
        4
    }
}

/// The byte offset of character `k` of a string.
pub fn byte_offset(chars: &Vec<char>, k: usize) -> (r: usize)
    requires
        k <= chars.len(),
        byte_len(chars@) <= usize::MAX,
    ensures
        r == bytes_before(chars@, k as int),
{
    let mut i: usize = 0;
    let mut b: usize = 0;
    proof {
        lemma_bytes_before_all(chars@);
    }
    while i < k
        invariant
            i <= k <= chars.len(),
            byte_len(chars@) <= usize::MAX,
            b == bytes_before(chars@, i as int),
            bytes_before(chars@, chars@.len() as int) == byte_len(chars@),
        decreases k - i,
    {
        proof {
            lemma_bytes_before_step(chars@, i as int);
            lemma_bytes_before_monotone(chars@, i + 1, chars@.len() as int);
        }
        b = b + char_width(chars[i]);
        i = i + 1;
    }
    b
}


/// The character position, from `k` on, whose byte offset is `b`, given that
/// `pos` is the byte offset of position `k`; none when `b` falls inside a
/// character or past the end.
pub open spec fn char_index_from(v: Seq<char>, k: int, pos: int, b: int) -> Option<int>
    decreases v.len() - k,
{
    if pos == b {
        Some(k)
    } else if k < 0 || k >= v.len() || pos > b {
        None
    } else {
        char_index_from(v, k + 1, pos + utf8_width(v[k]), b)
    }
}

/// The character position of a string whose byte offset is `b`, if `b` is a
/// character boundary of the string.
pub open spec fn char_index_at_byte(v: Seq<char>, b: int) -> Option<int> {
    char_index_from(v, 0, 0, b)
}

/// The byte offset of a character position maps back to that position.
pub proof fn lemma_char_index_of_own_offset(s: Seq<char>, k: int)
    requires
        0 <= k <= s.len(),
    ensures
        char_index_at_byte(s, bytes_before(s, k) as int) == Some(k),
{
    lemma_bytes_before_all(s);
    lemma_char_index_from_own(s, 0, k);
}

proof fn lemma_char_index_from_own(s: Seq<char>, j: int, k: int)
    requires
        0 <= j <= k <= s.len(),
    ensures
        char_index_from(s, j, bytes_before(s, j) as int, bytes_before(s, k) as int) == Some(k),
    decreases k - j,
{
    if j < k {
        lemma_bytes_before_monotone(s, j + 1, k);
        lemma_bytes_before_step(s, j);
        lemma_utf8_width_bounds(s[j]);
        lemma_char_index_from_own(s, j + 1, k);
    }
}

/// The character position of `chars` whose byte offset is `b`, if any.
pub fn char_index_for_byte(chars: &Vec<char>, b: usize) -> (r: Option<usize>)
    ensures
        match r {
            Some(k) => char_index_at_byte(chars@, b as int) == Some(k as int) && k <= chars.len(),
            None => char_index_at_byte(chars@, b as int) is None,
        },
{
    let mut k: usize = 0;
    let mut pos: usize = 0;
    while k < chars.len() && pos < b
        invariant
            k <= chars.len(),
            pos <= b,
            char_index_at_byte(chars@, b as int) == char_index_from(chars@, k as int, pos as int, b as int),
        decreases chars.len() - k,
    {
        let w = char_width(chars[k]);
        if w > b - pos {
            assert(char_index_from(chars@, k + 1, pos + w, b as int) is None);
            return None;
        }
        pos = pos + w;
        k = k + 1;
    }
    if pos == b {
        Some(k)
    } else {
        None
    }
}


/// The value of a hexadecimal digit (`0-9`, `a-f`, `A-F`).
pub open spec fn hex_digit(c: char) -> Option<nat> {
    if '0' <= c && c <= '9' {
        Some((c as u32 - '0' as u32) as nat)
    } else if 'a' <= c && c <= 'f' {
        Some((c as u32 - 'a' as u32 + 10) as nat)
    } else if 'A' <= c && c <= 'F' {
        Some((c as u32 - 'A' as u32 + 10) as nat)
    } else {
        None
    }
}

/// The value of a sequence of hexadecimal digits; none if a character is not one.
pub open spec fn hex_digits_value(s: Seq<char>) -> Option<nat>
    decreases s.len(),
{
    if s.len() == 0 {
        Some(0)
    } else {
        match (hex_digits_value(s.drop_last()), hex_digit(s.last())) {
            (Some(a), Some(d)) => Some(a * 16 + d),
            _ => None,
        }
    }
}

/// What `u32::from_str_radix(s, 16)` accepts: an optional `+` followed by one
/// or more hexadecimal digits whose value fits in a `u32`.
pub open spec fn hex_u32_value(s: Seq<char>) -> Option<u32> {
    let digits = if s.len() > 0 && s[0] == '+' {
        s.drop_first()
    } else {
        s
    };
    if digits.len() == 0 {
        None
    } else {
        match hex_digits_value(digits) {
            Some(n) => if n <= u32::MAX {
                Some(n as u32)
            } else {
                None
            },
            None => None,
        }
    }
}

/// The text of the error `u32::from_str_radix(s, 16)` gives for a string it rejects.
pub uninterp spec fn hex_parse_error(s: Seq<char>) -> Seq<char>;

/// `u32::from_str_radix` in base 16: the value when the text is an optional `+`
/// followed by hexadecimal digits that fit in a `u32` (as its documentation
/// says), the error's text otherwise. The wording of the error is only named.
#[verifier::external_body]
pub(crate) fn parse_hex_u32(text: &str) -> (r: Result<u32, String>)
    ensures
        match r {
            Ok(n) => hex_u32_value(text@) == Some(n),
            Err(e) => hex_u32_value(text@) is None && e@ == hex_parse_error(text@),
        },
{
    match u32::from_str_radix(text, 16) {
        Ok(n) => Ok(n),
        Err(e) => Err(e.to_string()),
    }
}

/// `char::from_u32`: the character with the given code when the code is a
/// Unicode scalar value, none otherwise.
#[verifier::external_body]
pub(crate) fn char_from_u32(code: u32) -> (r: Option<char>)
    ensures
        match r {
            Some(c) => vstd::utf8::is_scalar(code) && c as u32 == code,
            None => !vstd::utf8::is_scalar(code),
        },
{
    char::from_u32(code)
}

/// The character for a code, or the replacement character `U+FFFD` when the
/// code is not a Unicode scalar value.
pub open spec fn char_or_replacement(code: u32) -> char {
    if vstd::utf8::is_scalar(code) {
        code as char
    } else {
        '\u{FFFD}'
    }
}

/// `char::from_u32(code).unwrap_or(char::REPLACEMENT_CHARACTER)`.
pub fn code_to_char(code: u32) -> (c: char)
    ensures
        c == char_or_replacement(code),
{
    match char_from_u32(code) {
        Some(c) => {
            proof {
                vstd::utf8::char_u32_cast(c, code);
            }
            c
        },
        None => '\u{FFFD}',
    }
}

} // verus!
