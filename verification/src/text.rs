//! Byte- and character-level text predicates shared by every contract check.

use vstd::prelude::*;
use vstd::utf8::*;
use vstd::string::StrSliceExecFns;

verus! {

broadcast use vstd::utf8::encode_utf8_decode_utf8;

/// The UTF-8 encoding of a string's characters: what `str::as_bytes` returns.
pub open spec fn utf8(s: Seq<char>) -> Seq<u8> {
    encode_utf8(s)
}

/// Characters for which `char::is_whitespace` holds (the Unicode `White_Space` property).
pub open spec fn is_unicode_whitespace(c: char) -> bool {
    let v = c as u32;
    (0x09 <= v <= 0x0d) || v == 0x20 || v == 0x85 || v == 0xa0 || v == 0x1680
        || (0x2000 <= v <= 0x200a) || v == 0x2028 || v == 0x2029 || v == 0x202f
        || v == 0x205f || v == 0x3000
}

/// `s.trim().is_empty()`: the text holds nothing but whitespace.
pub open spec fn is_blank_spec(s: Seq<char>) -> bool {
    forall|i: int| 0 <= i < s.len() ==> is_unicode_whitespace(#[trigger] s[i])
}

fn char_is_whitespace(c: char) -> (r: bool)
    ensures
        r == is_unicode_whitespace(c),
{
    let v = c as u32;
    (0x09 <= v && v <= 0x0d) || v == 0x20 || v == 0x85 || v == 0xa0 || v == 0x1680
        || (0x2000 <= v && v <= 0x200a) || v == 0x2028 || v == 0x2029 || v == 0x202f
        || v == 0x205f || v == 0x3000
}

/// Whether the text is empty once surrounding whitespace is trimmed.
pub fn is_blank(s: &str) -> (r: bool)
    ensures
        r == is_blank_spec(s@),
{
    let mut all_blank = true;
    for c in it: s.chars()
        invariant
            all_blank <==> (forall|j: int| 0 <= j < it.index() ==> is_unicode_whitespace(#[trigger] it.seq()[j])),
    {
        if !char_is_whitespace(c) {
            all_blank = false;
        }
    }
    all_blank
}


/// `'0'..='9'` or `'a'..='f'`.
pub open spec fn is_lower_hex_byte(b: u8) -> bool {
    (48 <= b <= 57) || (97 <= b <= 102)
}

/// `u8::is_ascii_hexdigit`: a decimal digit or a letter `a`-`f` of either case.
pub open spec fn is_hex_byte(b: u8) -> bool {
    (48 <= b <= 57) || (97 <= b <= 102) || (65 <= b <= 70)
}

pub open spec fn all_lower_hex(b: Seq<u8>) -> bool {
    forall|i: int| 0 <= i < b.len() ==> is_lower_hex_byte(#[trigger] b[i])
}

pub open spec fn all_hex(b: Seq<u8>) -> bool {
    forall|i: int| 0 <= i < b.len() ==> is_hex_byte(#[trigger] b[i])
}

/// The bytes of `"sha256:"`.
pub open spec fn sha256_prefix() -> Seq<u8> {
    seq![115u8, 104u8, 97u8, 50u8, 53u8, 54u8, 58u8]
}

/// A canonical content address: `sha256:` followed by exactly 64 lowercase hex digits.
pub open spec fn is_sha256_digest_bytes(b: Seq<u8>) -> bool {
    &&& b.len() == 71
    &&& b.take(7) == sha256_prefix()
    &&& all_lower_hex(b.skip(7))
}

/// Byte-wise equality of two slices.
pub fn bytes_equal(a: &[u8], b: &[u8]) -> (r: bool)
    ensures
        r == (a@ == b@),
{
    if a.len() != b.len() {
        return false;
    }
    let mut i: usize = 0;
    while i < a.len()
        invariant
            a@.len() == b@.len(),
            i <= a@.len(),
            forall|j: int| 0 <= j < i ==> a@[j] == b@[j],
        decreases a@.len() - i,
    {
        if a[i] != b[i] {
            return false;
        }
        i = i + 1;
    }
    assert(a@ =~= b@);
    true
}

/// Equality of two strings, decided on their UTF-8 bytes.
pub fn text_eq(a: &str, b: &str) -> (r: bool)
    ensures
        r == (a@ == b@),
{
    let r = bytes_equal(a.as_bytes(), b.as_bytes());
    proof {
        if r {
            assert(decode_utf8(encode_utf8(a@)) == a@);
            assert(decode_utf8(encode_utf8(b@)) == b@);
        }
    }
    r
}

/// Whether every byte of the slice is a lowercase hex digit.
pub fn bytes_all_lower_hex(b: &[u8]) -> (r: bool)
    ensures
        r == all_lower_hex(b@),
{
    let mut i: usize = 0;
    while i < b.len()
        invariant
            i <= b@.len(),
            forall|j: int| 0 <= j < i ==> is_lower_hex_byte(#[trigger] b@[j]),
        decreases b@.len() - i,
    {
        let c = b[i];
        if !((48 <= c && c <= 57) || (97 <= c && c <= 102)) {
            return false;
        }
        i = i + 1;
    }
    true
}

/// Whether every byte of the slice is a hex digit of either case.
pub fn bytes_all_hex(b: &[u8]) -> (r: bool)
    ensures
        r == all_hex(b@),
{
    let mut i: usize = 0;
    while i < b.len()
        invariant
            i <= b@.len(),
            forall|j: int| 0 <= j < i ==> is_hex_byte(#[trigger] b@[j]),
        decreases b@.len() - i,
    {
        let c = b[i];
        if !((48 <= c && c <= 57) || (97 <= c && c <= 102) || (65 <= c && c <= 70)) {
            return false;
        }
        i = i + 1;
    }
    true
}

/// Whether the text is exactly `len` hex digits of either case.
pub fn is_hex_of_len(s: &str, len: usize) -> (r: bool)
    ensures
        r == (utf8(s@).len() == len && all_hex(utf8(s@))),
{
    let b = s.as_bytes();
    b.len() == len && bytes_all_hex(b)
}

/// Whether the text is a canonical `sha256:` content address.
pub fn is_sha256_digest(value: &str) -> (r: bool)
    ensures
        r == is_sha256_digest_bytes(utf8(value@)),
{
    let b = value.as_bytes();
    if b.len() != 71 {
        return false;
    }
    if !(b[0] == 115 && b[1] == 104 && b[2] == 97 && b[3] == 50 && b[4] == 53 && b[5] == 54
        && b[6] == 58) {
        assert(b@.take(7)[0] == b@[0]);
        assert(b@.take(7)[1] == b@[1]);
        assert(b@.take(7)[2] == b@[2]);
        assert(b@.take(7)[3] == b@[3]);
        assert(b@.take(7)[4] == b@[4]);
        assert(b@.take(7)[5] == b@[5]);
        assert(b@.take(7)[6] == b@[6]);
        return false;
    }
    assert(b@.take(7) =~= sha256_prefix());
    let mut i: usize = 7;
    while i < 71
        invariant
            b@ == utf8(value@),
            b@.len() == 71,
            7 <= i <= 71,
            forall|j: int| 7 <= j < i ==> is_lower_hex_byte(#[trigger] b@[j]),
        decreases 71 - i,
    {
        let c = b[i];
        if !((48 <= c && c <= 57) || (97 <= c && c <= 102)) {
            assert(b@.skip(7)[i - 7] == c);
            assert(!is_lower_hex_byte(b@.skip(7)[i - 7]));
            assert(!all_lower_hex(b@.skip(7)));
            return false;
        }
        i = i + 1;
    }
    assert forall|j: int| 0 <= j < b@.skip(7).len() implies is_lower_hex_byte(#[trigger] b@.skip(7)[j]) by {
        assert(b@.skip(7)[j] == b@[j + 7]);
    }
    true
}

/// `s.len() <= max && s.is_ascii() && !s.is_empty()`, the bounded ASCII token shape.
pub open spec fn is_bounded_ascii(s: Seq<char>, max: nat) -> bool {
    &&& s.len() > 0
    &&& utf8(s).len() <= max
    &&& is_ascii_chars(s)
}

/// A non-empty ASCII text of at most `max` bytes.
pub fn bounded_ascii(s: &str, max: usize) -> (r: bool)
    ensures
        r == is_bounded_ascii(s@, max as nat),
{
    !s.is_empty() && s.as_bytes().len() <= max && s.is_ascii()
}

/// Whether the vector holds a string equal to `x`.
pub open spec fn contains_text(v: Seq<String>, x: Seq<char>) -> bool {
    exists|i: int| 0 <= i < v.len() && (#[trigger] v[i])@ == x
}

/// Membership of a string in a vector of strings.
pub fn vec_contains_text(v: &Vec<String>, x: &str) -> (r: bool)
    ensures
        r == contains_text(v@, x@),
{
    let mut i: usize = 0;
    while i < v.len()
        invariant
            i <= v@.len(),
            forall|j: int| 0 <= j < i ==> (#[trigger] v@[j])@ != x@,
        decreases v@.len() - i,
    {
        if text_eq(v[i].as_str(), x) {
            return true;
        }
        i = i + 1;
    }
    false
}


/// The UTF-8 length of a text, in bytes.
pub fn text_len(s: &str) -> (r: usize)
    ensures
        r == utf8(s@).len(),
{
    s.as_bytes().len()
}

/// Characters for which `char::is_control` holds (general category `Cc`).
pub open spec fn is_control_char(c: char) -> bool {
    let v = c as u32;
    v <= 0x1f || (0x7f <= v <= 0x9f)
}

/// Whether any character of the text is a control character.
pub fn has_control_char(s: &str) -> (r: bool)
    ensures
        r == exists|i: int| 0 <= i < s@.len() && is_control_char(#[trigger] s@[i]),
{
    let mut found = false;
    for c in it: s.chars()
        invariant
            found <==> (exists|j: int| 0 <= j < it.index() && is_control_char(#[trigger] it.seq()[j])),
    {
        let v = c as u32;
        if v <= 0x1f || (0x7f <= v && v <= 0x9f) {
            found = true;
        }
    }
    found
}

/// `/` or `\`, the two path separators a promotion path may use.
pub open spec fn is_path_separator(b: u8) -> bool {
    b == 47 || b == 92
}

/// A relative, normalised ASCII path: no leading separator, no `:`, and every `/`- or
/// `\`-separated segment non-empty and neither `.` nor `..`.
pub open spec fn relative_path_ok(b: Seq<u8>) -> bool {
    &&& b.len() > 0
    &&& b.len() <= 260
    &&& forall|i: int| 0 <= i < b.len() ==> (#[trigger] b[i]) < 128
    &&& forall|i: int| 0 <= i < b.len() ==> (#[trigger] b[i]) != 58
    &&& !is_path_separator(b[0])
    &&& !is_path_separator(b[b.len() - 1])
    &&& forall|i: int|
        0 <= i < b.len() - 1 ==> !(is_path_separator(#[trigger] b[i]) && is_path_separator(b[i + 1]))
    &&& forall|i: int|
        0 <= i < b.len() ==> !(#[trigger] b[i] == 46 && (i == 0 || is_path_separator(b[i - 1])) && (
        i == b.len() - 1 || is_path_separator(b[i + 1])))
    &&& forall|i: int|
        0 <= i < b.len() - 1 ==> !(#[trigger] b[i] == 46 && b[i + 1] == 46 && (i == 0
            || is_path_separator(b[i - 1])) && (i + 2 == b.len() || is_path_separator(b[i + 2])))
}

fn is_sep(b: u8) -> (r: bool)
    ensures
        r == is_path_separator(b),
{
    b == 47 || b == 92
}

/// Whether the bytes form a relative, normalised ASCII path.
pub fn is_relative_path(b: &[u8]) -> (r: bool)
    ensures
        r == relative_path_ok(b@),
{
    let n = b.len();
    if n == 0 || n > 260 || is_sep(b[0]) || is_sep(b[n - 1]) {
        return false;
    }
    let mut i: usize = 0;
    while i < n
        invariant
            n == b@.len(),
            0 < n <= 260,
            i <= n,
            forall|j: int| 0 <= j < i ==> (#[trigger] b@[j]) < 128,
            forall|j: int| 0 <= j < i ==> (#[trigger] b@[j]) != 58,
            forall|j: int| 0 <= j < i && j < n - 1 ==> !(is_path_separator(#[trigger] b@[j]) && is_path_separator(b@[j + 1])),
            forall|j: int|
                0 <= j < i ==> !(#[trigger] b@[j] == 46 && (j == 0 || is_path_separator(b@[j - 1])) && (
                j == n - 1 || is_path_separator(b@[j + 1]))),
            forall|j: int|
                0 <= j < i && j < n - 1 ==> !(#[trigger] b@[j] == 46 && b@[j + 1] == 46 && (j == 0
                    || is_path_separator(b@[j - 1])) && (j + 2 == n || is_path_separator(b@[j + 2]))),
        decreases n - i,
    {
        let c = b[i];
        if c >= 128 || c == 58 {
            return false;
        }
        if i + 1 < n && is_sep(c) && is_sep(b[i + 1]) {
            return false;
        }
        let starts = i == 0 || is_sep(b[i - 1]);
        if c == 46 && starts && (i + 1 == n || is_sep(b[i + 1])) {
            return false;
        }
        if c == 46 && i + 1 < n && b[i + 1] == 46 && starts && (i + 2 == n || is_sep(b[i + 2])) {
            return false;
        }
        i = i + 1;
    }
    true
}


/// `prefix` is a prefix of `s`.
pub open spec fn has_prefix(s: Seq<u8>, prefix: Seq<u8>) -> bool {
    prefix.len() <= s.len() && s.take(prefix.len() as int) == prefix
}

/// `suffix` is a suffix of `s`.
pub open spec fn has_suffix(s: Seq<u8>, suffix: Seq<u8>) -> bool {
    suffix.len() <= s.len() && s.skip(s.len() - suffix.len()) == suffix
}

/// `needle` occurs contiguously in `s`.
pub open spec fn has_infix(s: Seq<u8>, needle: Seq<u8>) -> bool {
    exists|k: int| 0 <= k && k + needle.len() <= s.len() && #[trigger] s.subrange(k, k + needle.len()) == needle
}

fn bytes_match_at(s: &[u8], k: usize, needle: &[u8]) -> (r: bool)
    requires
        k + needle@.len() <= s@.len(),
    ensures
        r == (s@.subrange(k as int, k + needle@.len()) == needle@),
{
    let n = s.len();
    let mut i: usize = 0;
    while i < needle.len()
        invariant
            k + needle@.len() <= s@.len(),
            n == s@.len(),
            i <= needle@.len(),
            forall|j: int| 0 <= j < i ==> s@[k + j] == needle@[j],
        decreases needle@.len() - i,
    {
        if s[k + i] != needle[i] {
            assert(s@.subrange(k as int, k + needle@.len())[i as int] != needle@[i as int]);
            return false;
        }
        i = i + 1;
    }
    assert(s@.subrange(k as int, k + needle@.len()) =~= needle@);
    true
}

/// Whether `prefix` begins `s`.
pub fn bytes_starts_with(s: &[u8], prefix: &[u8]) -> (r: bool)
    ensures
        r == has_prefix(s@, prefix@),
{
    if prefix.len() > s.len() {
        return false;
    }
    let r = bytes_match_at(s, 0, prefix);
    assert(s@.subrange(0, prefix@.len() as int) == s@.take(prefix@.len() as int));
    r
}

/// Whether `suffix` ends `s`.
pub fn bytes_ends_with(s: &[u8], suffix: &[u8]) -> (r: bool)
    ensures
        r == has_suffix(s@, suffix@),
{
    if suffix.len() > s.len() {
        return false;
    }
    let k = s.len() - suffix.len();
    let r = bytes_match_at(s, k, suffix);
    assert(s@.subrange(k as int, s@.len() as int) == s@.skip(k as int));
    r
}

/// Whether `needle` occurs contiguously in `s`.
pub fn bytes_contains(s: &[u8], needle: &[u8]) -> (r: bool)
    ensures
        r == has_infix(s@, needle@),
{
    if needle.len() > s.len() {
        return false;
    }
    if needle.len() == 0 {
        assert(s@.subrange(0int, 0int + needle@.len()) =~= needle@);
        return true;
    }
    let n = s.len();
    let last = n - needle.len();
    let mut k: usize = 0;
    while k <= last
        invariant
            last + needle@.len() == s@.len(),
            needle@.len() > 0,
            n == s@.len(),
            k <= last + 1,
            forall|j: int| 0 <= j < k ==> #[trigger] s@.subrange(j, j + needle@.len()) != needle@,
        decreases last + 1 - k,
    {
        if bytes_match_at(s, k, needle) {
            return true;
        }
        k = k + 1;
    }
    false
}

/// The first value stored under `key` in a list of key-value pairs.
pub open spec fn label_of(labels: Seq<(String, String)>, key: Seq<char>) -> Option<Seq<char>>
    decreases labels.len(),
{
    if labels.len() == 0 {
        None
    } else if labels[0].0@ == key {
        Some(labels[0].1@)
    } else {
        label_of(labels.skip(1), key)
    }
}

/// Whether the first value stored under `key` equals `value` (`map.get(key) == Some(value)`).
pub fn label_equals(labels: &Vec<(String, String)>, key: &str, value: &str) -> (r: bool)
    ensures
        r == (label_of(labels@, key@) == Some(value@)),
{
    let mut i: usize = 0;
    assert(labels@.skip(0) =~= labels@);
    while i < labels.len()
        invariant
            i <= labels@.len(),
            label_of(labels@, key@) == label_of(labels@.skip(i as int), key@),
        decreases labels@.len() - i,
    {
        assert(labels@.skip(i as int)[0] == labels@[i as int]);
        assert(labels@.skip(i as int).skip(1) =~= labels@.skip(i + 1));
        if text_eq(labels[i].0.as_str(), key) {
            return text_eq(labels[i].1.as_str(), value);
        }
        i = i + 1;
    }
    false
}

/// The decimal digit character of a value below ten.
pub open spec fn decimal_digit(d: int) -> char {
    (48 + d) as char
}

/// The decimal text of a natural number, without leading zeros.
pub open spec fn decimal(n: nat) -> Seq<char>
    decreases n,
{
    if n < 10 {
        seq![decimal_digit(n as int)]
    } else {
        decimal(n / 10) + seq![decimal_digit((n % 10) as int)]
    }
}

fn digit_text(d: u64) -> (r: &'static str)
    requires
        d < 10,
    ensures
        r@ == seq![decimal_digit(d as int)],
{
    proof {
        reveal_strlit("0");
        reveal_strlit("1");
        reveal_strlit("2");
        reveal_strlit("3");
        reveal_strlit("4");
        reveal_strlit("5");
        reveal_strlit("6");
        reveal_strlit("7");
        reveal_strlit("8");
        reveal_strlit("9");
    }
    if d == 0 {
        "0"
    } else if d == 1 {
        "1"
    } else if d == 2 {
        "2"
    } else if d == 3 {
        "3"
    } else if d == 4 {
        "4"
    } else if d == 5 {
        "5"
    } else if d == 6 {
        "6"
    } else if d == 7 {
        "7"
    } else if d == 8 {
        "8"
    } else {
        "9"
    }
}

/// The decimal text of a number, as `u64`'s `Display` writes it.
pub fn decimal_text(n: u64) -> (r: String)
    ensures
        r@ == decimal(n as nat),
    decreases n,
{
    if n < 10 {
        digit_text(n).to_string()
    } else {
        let mut s = decimal_text(n / 10);
        s.append(digit_text(n % 10));
        s
    }
}

/// `needle` occurs contiguously among the characters of `s` (`str::contains` with a text pattern).
pub open spec fn has_char_infix(s: Seq<char>, needle: Seq<char>) -> bool {
    exists|k: int| 0 <= k && k + needle.len() <= s.len() && #[trigger] s.subrange(k, k + needle.len()) == needle
}

/// `prefix` begins the characters of `s` (`str::starts_with`).
pub open spec fn has_char_prefix(s: Seq<char>, prefix: Seq<char>) -> bool {
    prefix.len() <= s.len() && s.take(prefix.len() as int) == prefix
}

fn chars_match_at(s: &str, sn: usize, k: usize, needle: &str, nn: usize) -> (r: bool)
    requires
        sn == s@.len(),
        nn == needle@.len(),
        k + nn <= sn,
    ensures
        r == (s@.subrange(k as int, k + nn) == needle@),
{
    let mut i: usize = 0;
    while i < nn
        invariant
            sn == s@.len(),
            nn == needle@.len(),
            k + nn <= sn,
            i <= nn,
            forall|j: int| 0 <= j < i ==> s@[k + j] == needle@[j],
        decreases nn - i,
    {
        if s.get_char(k + i) != needle.get_char(i) {
            assert(s@.subrange(k as int, k + nn)[i as int] != needle@[i as int]);
            return false;
        }
        i = i + 1;
    }
    assert(s@.subrange(k as int, k + nn) =~= needle@);
    true
}

/// Whether `needle` occurs among the characters of `s`.
pub fn str_contains(s: &str, needle: &str) -> (r: bool)
    ensures
        r == has_char_infix(s@, needle@),
{
    let sn = s.unicode_len();
    let nn = needle.unicode_len();
    if nn > sn {
        return false;
    }
    if nn == 0 {
        assert(s@.subrange(0int, 0int + needle@.len()) =~= needle@);
        return true;
    }
    let last = sn - nn;
    let mut k: usize = 0;
    while k <= last
        invariant
            sn == s@.len(),
            nn == needle@.len(),
            last + nn == sn,
            nn > 0,
            k <= last + 1,
            forall|j: int| 0 <= j < k ==> #[trigger] s@.subrange(j, j + nn) != needle@,
        decreases last + 1 - k,
    {
        if chars_match_at(s, sn, k, needle, nn) {
            return true;
        }
        k = k + 1;
    }
    false
}

/// Whether `prefix` begins `s`.
pub fn str_starts_with(s: &str, prefix: &str) -> (r: bool)
    ensures
        r == has_char_prefix(s@, prefix@),
{
    let sn = s.unicode_len();
    let pn = prefix.unicode_len();
    if pn > sn {
        return false;
    }
    let r = chars_match_at(s, sn, 0, prefix, pn);
    assert(s@.subrange(0, pn as int) == s@.take(pn as int));
    r
}

/// The texts of a list of strings.
pub open spec fn texts_view(v: Seq<String>) -> Seq<Seq<char>> {
    v.map_values(|t: String| t@)
}

/// Whether two lists of strings hold the same texts in the same order.
pub fn texts_equal(a: &Vec<String>, b: &Vec<String>) -> (r: bool)
    ensures
        r == (texts_view(a@) == texts_view(b@)),
{
    if a.len() != b.len() {
        assert(texts_view(a@).len() != texts_view(b@).len());
        return false;
    }
    let mut i: usize = 0;
    while i < a.len()
        invariant
            a@.len() == b@.len(),
            i <= a@.len(),
            forall|j: int| 0 <= j < i ==> (#[trigger] a@[j])@ == b@[j]@,
        decreases a@.len() - i,
    {
        if !text_eq(a[i].as_str(), b[i].as_str()) {
            assert(texts_view(a@)[i as int] != texts_view(b@)[i as int]);
            return false;
        }
        i = i + 1;
    }
    assert(texts_view(a@) =~= texts_view(b@));
    true
}

/// A text has no UTF-8 bytes exactly when it has no characters.
pub proof fn lemma_utf8_empty(s: Seq<char>)
    ensures
        (utf8(s).len() == 0) == (s.len() == 0),
{
    if s.len() > 0 {
        assert(encode_scalar(s[0] as u32).len() >= 1);
        assert(utf8(s) == encode_scalar(s[0] as u32) + encode_utf8(s.drop_first()));
    } else {
        assert(utf8(s) =~= Seq::<u8>::empty());
    }
}

} // verus!
