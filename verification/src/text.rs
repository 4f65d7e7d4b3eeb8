use vstd::prelude::*;
use vstd::string::*;
use vstd::utf8::*;

verus! {

/// The characters of `s`, in order.
pub fn chars_of(s: &str) -> (v: Vec<char>)
    ensures
        v@ == s@,
{
    let mut v: Vec<char> = Vec::new();
    for c in it: s.chars()
        invariant
            v@ == it.seq().take(it.index() as int),
            it.seq() == s@,
    {
        v.push(c);
    }
    v
}

/// A character with the Unicode `White_Space` property (the set that `char::is_whitespace`
/// tests for): U+0009..U+000D, U+0020, U+0085, U+00A0, U+1680, U+2000..U+200A, U+2028,
/// U+2029, U+202F, U+205F and U+3000.
pub open spec fn spec_is_whitespace(c: char) -> bool {
    ||| ('\u{9}' <= c && c <= '\u{d}')
    ||| c == '\u{20}'
    ||| c == '\u{85}'
    ||| c == '\u{a0}'
    ||| c == '\u{1680}'
    ||| ('\u{2000}' <= c && c <= '\u{200a}')
    ||| c == '\u{2028}'
    ||| c == '\u{2029}'
    ||| c == '\u{202f}'
    ||| c == '\u{205f}'
    ||| c == '\u{3000}'
}

/// Whether `c` is white space, as `char::is_whitespace` decides it.
pub fn is_whitespace(c: char) -> (b: bool)
    ensures
        b == spec_is_whitespace(c),
{
    ('\u{9}' <= c && c <= '\u{d}') || c == '\u{20}' || c == '\u{85}' || c == '\u{a0}' || c
        == '\u{1680}' || ('\u{2000}' <= c && c <= '\u{200a}') || c == '\u{2028}' || c == '\u{2029}'
        || c == '\u{202f}' || c == '\u{205f}' || c == '\u{3000}'
}

/// `s` without its leading white space.
pub open spec fn trim_start(s: Seq<char>) -> Seq<char>
    decreases s.len(),
{
    if s.len() > 0 && spec_is_whitespace(s[0]) {
        trim_start(s.drop_first())
    } else {
        s
    }
}

/// `s` without its trailing white space.
pub open spec fn trim_end(s: Seq<char>) -> Seq<char>
    decreases s.len(),
{
    if s.len() > 0 && spec_is_whitespace(s.last()) {
        trim_end(s.drop_last())
    } else {
        s
    }
}

/// `s` without leading and trailing white space, as `str::trim` gives it.
pub open spec fn spec_trim(s: Seq<char>) -> Seq<char> {
    trim_end(trim_start(s))
}

/// A text that holds nothing but white space (its trimmed form is empty).
pub open spec fn spec_is_blank(s: Seq<char>) -> bool {
    spec_trim(s).len() == 0
}

/// The range `start..end` of `s` that `str::trim` keeps.
fn trim_bounds(v: &Vec<char>) -> (r: (usize, usize))
    ensures
        r.0 <= r.1 <= v@.len(),
        spec_trim(v@) == v@.subrange(r.0 as int, r.1 as int),
{
    let n = v.len();
    let mut a: usize = 0;
    assert(v@ =~= v@.subrange(0, n as int));
    while a < n && is_whitespace(v[a])
        invariant
            n == v@.len(),
            a <= n,
            trim_start(v@) == trim_start(v@.subrange(a as int, n as int)),
        decreases n - a,
    {
        assert(v@.subrange(a as int, n as int).drop_first() =~= v@.subrange(a + 1, n as int));
        a = a + 1;
    }
    assert(trim_start(v@) == v@.subrange(a as int, n as int));
    let mut b: usize = n;
    while b > a && is_whitespace(v[b - 1])
        invariant
            n == v@.len(),
            a <= b <= n,
            trim_end(v@.subrange(a as int, n as int)) == trim_end(v@.subrange(a as int, b as int)),
        decreases b,
    {
        assert(v@.subrange(a as int, b as int).drop_last() =~= v@.subrange(a as int, b - 1));
        b = b - 1;
    }
    (a, b)
}

/// `s` without leading and trailing white space (`str::trim`).
pub fn trim(s: &str) -> (r: &str)
    ensures
        r@ == spec_trim(s@),
{
    let v = chars_of(s);
    let (a, b) = trim_bounds(&v);
    s.substring_char(a, b)
}

/// Whether `s` holds nothing but white space (`s.trim().is_empty()`).
pub fn is_blank(s: &str) -> (b: bool)
    ensures
        b == spec_is_blank(s@),
{
    let v = chars_of(s);
    let (a, b) = trim_bounds(&v);
    a == b
}

/// The first `max_bytes` bytes of `s`, or `s` itself where it is no longer than that.
/// Cutting inside a character would panic, so `max_bytes` must then fall on a character
/// boundary.
pub fn truncate_str(s: &str, max_bytes: usize) -> (r: &str)
    requires
        s.spec_bytes().len() <= max_bytes || is_char_boundary(s.spec_bytes(), max_bytes as int),
    ensures
        s.spec_bytes().len() <= max_bytes ==> r@ == s@,
        s.spec_bytes().len() > max_bytes ==> r.spec_bytes() == s.spec_bytes().subrange(
            0,
            max_bytes as int,
        ),
        r.spec_bytes().len() <= max_bytes,
        s@.len() > 0 ==> r@.len() > 0 || max_bytes == 0,
{
    if s.as_bytes().len() > max_bytes {
        let (head, _tail) = s.split_at(max_bytes);
        proof {
            encode_utf8_valid_utf8(s@);
            decode_utf8_split(s.spec_bytes(), max_bytes as int);
        }
        head
    } else {
        s
    }
}

/// Whether two texts hold the same characters.
pub fn str_eq(a: &str, b: &str) -> (r: bool)
    ensures
        r == (a@ == b@),
{
    let x = chars_of(a);
    let y = chars_of(b);
    if x.len() != y.len() {
        return false;
    }
    let mut i: usize = 0;
    while i < x.len()
        invariant
            x@ == a@,
            y@ == b@,
            x@.len() == y@.len(),
            i <= x@.len(),
            forall|k: int| 0 <= k < i ==> x@[k] == y@[k],
        decreases x@.len() - i,
    {
        if x[i] != y[i] {
            return false;
        }
        i = i + 1;
    }
    assert(x@ =~= y@);
    true
}

/// `std::str::from_utf8`: the text that `v` encodes, where `v` is valid UTF-8.
#[verifier::external_body]
fn str_from_utf8(v: &[u8]) -> (r: Option<&str>)
    ensures
        r is Some <==> valid_utf8(v@),
        r matches Some(t) ==> t.spec_bytes() == v@,
{
    std::str::from_utf8(v).ok()
}

/// The texts that `bytes` splits into when cut every `size` bytes, keeping only the pieces
/// that are valid UTF-8 on their own.
pub open spec fn utf8_chunks(bytes: Seq<u8>, size: nat) -> Seq<Seq<char>>
    decreases bytes.len(),
{
    if bytes.len() == 0 || size == 0 {
        Seq::empty()
    } else {
        let n = if bytes.len() < size {
            bytes.len()
        } else {
            size
        };
        let piece = bytes.subrange(0, n as int);
        let rest = utf8_chunks(bytes.subrange(n as int, bytes.len() as int), size);
        if valid_utf8(piece) {
            seq![decode_utf8(piece)] + rest
        } else {
            rest
        }
    }
}

/// The views of a sequence of strings.
pub open spec fn strings_view(v: Seq<String>) -> Seq<Seq<char>> {
    v.map_values(|s: String| s@)
}

/// Cuts the UTF-8 encoding of `s` into pieces of `size` bytes (the last may be shorter)
/// and keeps, in order, those pieces that are valid UTF-8 on their own, as texts.
pub fn chunk_utf8(s: &str, size: usize) -> (r: Vec<String>)
    requires
        size > 0,
    ensures
        strings_view(r@) == utf8_chunks(s.spec_bytes(), size as nat),
{
    let bytes = s.as_bytes();
    let len = bytes.len();
    let mut out: Vec<String> = Vec::new();
    let mut i: usize = 0;
    assert(bytes@.subrange(0, len as int) =~= bytes@);
    while i < len
        invariant
            bytes@ == s.spec_bytes(),
            len == bytes@.len(),
            i <= len,
            size > 0,
            utf8_chunks(bytes@, size as nat) == strings_view(out@) + utf8_chunks(
                bytes@.subrange(i as int, len as int),
                size as nat,
            ),
        decreases len - i,
    {
        let end = if len - i < size {
            len
        } else {
            i + size
        };
        let piece = &bytes[i..end];
        let ghost rest_bytes = bytes@.subrange(i as int, len as int);
        assert(piece@ == rest_bytes.subrange(0, end - i));
        assert(rest_bytes.subrange(end - i, rest_bytes.len() as int) =~= bytes@.subrange(
            end as int,
            len as int,
        ));
        let ghost before = strings_view(out@);
        match str_from_utf8(piece) {
            Some(t) => {
                proof {
                    encode_utf8_decode_utf8(t@);
                }
                out.push(t.to_owned());
                assert(strings_view(out@) =~= before + seq![decode_utf8(piece@)]);
            },
            None => {},
        }
        i = end;
    }
    out
}

/// The texts of `v` joined, with `sep` between consecutive ones.
pub open spec fn joined(v: Seq<Seq<char>>, sep: Seq<char>) -> Seq<char>
    decreases v.len(),
{
    if v.len() == 0 {
        Seq::empty()
    } else if v.len() == 1 {
        v[0]
    } else {
        joined(v.drop_last(), sep) + sep + v.last()
    }
}

/// The strings of `v` joined, with `sep` between consecutive ones (`slice::join`).
pub fn join(v: &Vec<String>, sep: &str) -> (r: String)
    ensures
        r@ == joined(strings_view(v@), sep@),
{
    let mut r = String::new();
    let mut i: usize = 0;
    while i < v.len()
        invariant
            i <= v@.len(),
            r@ == joined(strings_view(v@.subrange(0, i as int)), sep@),
        decreases v@.len() - i,
    {
        let ghost pre = strings_view(v@.subrange(0, i as int));
        let ghost post = strings_view(v@.subrange(0, i + 1));
        assert(post.drop_last() =~= pre);
        assert(post.last() == v@[i as int]@);
        if i > 0 {
            r.append(sep);
        }
        r.append(v[i].as_str());
        assert(i == 0 ==> post.len() == 1 && post[0] == v@[i as int]@);
        i = i + 1;
    }
    assert(v@.subrange(0, i as int) =~= v@);
    r
}

/// Whether `needle` occurs in `hay` at position `i`.
pub open spec fn occurs_at(hay: Seq<char>, needle: Seq<char>, i: int) -> bool {
    0 <= i && i + needle.len() <= hay.len() && hay.subrange(i, i + needle.len()) == needle
}

fn matches_at(hay: &Vec<char>, needle: &Vec<char>, i: usize) -> (b: bool)
    ensures
        b == occurs_at(hay@, needle@, i as int),
{
    if i > hay.len() || needle.len() > hay.len() - i {
        return false;
    }
    let hl = hay.len();
    let mut k: usize = 0;
    while k < needle.len()
        invariant
            hl == hay@.len(),
            i <= hay@.len(),
            i + needle@.len() <= hay@.len(),
            k <= needle@.len(),
            forall|j: int| 0 <= j < k ==> hay@[i + j] == needle@[j],
        decreases needle@.len() - k,
    {
        if hay[i + k] != needle[k] {
            assert(hay@.subrange(i as int, i + needle@.len())[k as int] != needle@[k as int]);
            return false;
        }
        k = k + 1;
    }
    assert(hay@.subrange(i as int, i + needle@.len()) =~= needle@);
    true
}

/// Whether `needle` occurs in `hay` (`str::contains`).
pub fn contains(hay: &str, needle: &str) -> (b: bool)
    ensures
        b == exists|i: int| occurs_at(hay@, needle@, i),
{
    let h = chars_of(hay);
    let n = chars_of(needle);
    let mut i: usize = 0;
    while i < h.len()
        invariant
            h@ == hay@,
            n@ == needle@,
            i <= h@.len(),
            forall|j: int| 0 <= j < i ==> !occurs_at(hay@, needle@, j),
        decreases h@.len() - i,
    {
        if matches_at(&h, &n, i) {
            return true;
        }
        i = i + 1;
    }
    if matches_at(&h, &n, i) {
        return true;
    }
    assert forall|j: int| !occurs_at(hay@, needle@, j) by {
        if 0 <= j <= i {
        }
    }
    false
}

/// Whether `s` begins with `prefix` (`str::starts_with`).
pub fn starts_with(s: &str, prefix: &str) -> (b: bool)
    ensures
        b == occurs_at(s@, prefix@, 0),
{
    let h = chars_of(s);
    let p = chars_of(prefix);
    matches_at(&h, &p, 0)
}

/// `String::push`: appends one character.
#[verifier::external_body]
pub(crate) fn push_char(s: &mut String, c: char)
    ensures
        final(s)@ == old(s)@.push(c),
{
    s.push(c)
}

/// A string holding the given characters.
pub fn string_from_chars(v: &[char]) -> (r: String)
    ensures
        r@ == v@,
{
    let mut r = String::new();
    let mut i: usize = 0;
    while i < v.len()
        invariant
            i <= v@.len(),
            r@ == v@.subrange(0, i as int),
        decreases v@.len() - i,
    {
        push_char(&mut r, v[i]);
        assert(r@ =~= v@.subrange(0, i + 1));
        i = i + 1;
    }
    assert(v@.subrange(0, i as int) =~= v@);
    r
}

/// `s` with every occurrence of `from` replaced by `to`, scanning from the left without
/// overlaps (`str::replace`, for a non-empty pattern).
pub open spec fn replaced(s: Seq<char>, from: Seq<char>, to: Seq<char>) -> Seq<char>
    decreases s.len(),
{
    if s.len() == 0 || from.len() == 0 {
        s
    } else if occurs_at(s, from, 0) {
        to + replaced(s.subrange(from.len() as int, s.len() as int), from, to)
    } else {
        seq![s[0]] + replaced(s.subrange(1, s.len() as int), from, to)
    }
}

/// `s` with every occurrence of the non-empty pattern `from` replaced by `to`.
pub(crate) fn replace_all(s: &str, from: &str, to: &str) -> (r: String)
    requires
        from@.len() > 0,
    ensures
        r@ == replaced(s@, from@, to@),
{
    let h = chars_of(s);
    let f = chars_of(from);
    let n = h.len();
    let mut out = String::new();
    let mut i: usize = 0;
    assert(h@.subrange(0, n as int) =~= h@);
    while i < n
        invariant
            h@ == s@,
            f@ == from@,
            from@.len() > 0,
            n == h@.len(),
            i <= n,
            replaced(s@, from@, to@) == out@ + replaced(h@.subrange(i as int, n as int), from@, to@),
        decreases n - i,
    {
        let ghost rest = h@.subrange(i as int, n as int);
        if matches_at(&h, &f, i) {
            assert(occurs_at(rest, from@, 0)) by {
                assert(rest.subrange(0, from@.len() as int) =~= h@.subrange(
                    i as int,
                    i + from@.len(),
                ));
            }
            assert(rest.subrange(from@.len() as int, rest.len() as int) =~= h@.subrange(
                i + from@.len(),
                n as int,
            ));
            out.append(to);
            i = i + f.len();
        } else {
            assert(!occurs_at(rest, from@, 0)) by {
                if rest.len() >= from@.len() {
                    assert(rest.subrange(0, from@.len() as int) =~= h@.subrange(
                        i as int,
                        i + from@.len(),
                    ));
                }
            }
            assert(rest.subrange(1, rest.len() as int) =~= h@.subrange(i + 1, n as int));
            push_char(&mut out, h[i]);
            assert(out@ == out@.drop_last() + seq![rest[0]]);
            i = i + 1;
        }
    }
    assert(h@.subrange(n as int, n as int).len() == 0);
    out
}

/// The digit character of `d`.
pub open spec fn digit_char(d: int) -> char {
    (48 + d) as char
}

/// The decimal digits of `n`, without leading zeros.
pub open spec fn decimal(n: nat) -> Seq<char>
    decreases n,
{
    if n < 10 {
        seq![digit_char(n as int)]
    } else {
        decimal(n / 10).push(digit_char((n % 10) as int))
    }
}

fn digit_of(d: u64) -> (c: char)
    requires
        d < 10,
    ensures
        c == digit_char(d as int),
{
    match d {
        0 => '0',
        1 => '1',
        2 => '2',
        3 => '3',
        4 => '4',
        5 => '5',
        6 => '6',
        7 => '7',
        8 => '8',
        _ => '9',
    }
}

/// The decimal text of `n`, as `u64::to_string` writes it.
pub fn u64_to_decimal(n: u64) -> (r: String)
    ensures
        r@ == decimal(n as nat),
{
    let mut digits: Vec<char> = Vec::new();
    let mut m: u64 = n;
    loop
        invariant_except_break
            decimal(n as nat) == decimal(m as nat) + digits@.reverse(),
        ensures
            decimal(n as nat) == digits@.reverse(),
        decreases m,
    {
        let c = digit_of(m % 10);
        if m < 10 {
            let ghost before = digits@;
            digits.push(c);
            assert(digits@.reverse() =~= seq![c] + before.reverse());
            assert(decimal(m as nat) == seq![c]);
            break;
        }
        let ghost before = digits@;
        digits.push(c);
        assert(digits@.reverse() =~= seq![c] + before.reverse());
        assert(decimal(m as nat) == decimal((m / 10) as nat).push(c));
        m = m / 10;
    }
    let mut rev: Vec<char> = Vec::new();
    let mut k: usize = digits.len();
    while k > 0
        invariant
            k <= digits@.len(),
            rev@ == digits@.subrange(k as int, digits@.len() as int).reverse(),
        decreases k,
    {
        k = k - 1;
        rev.push(digits[k]);
        assert(rev@ =~= digits@.subrange(k as int, digits@.len() as int).reverse());
    }
    assert(digits@.subrange(0, digits@.len() as int) =~= digits@);
    assert(decimal(n as nat) == rev@);
    string_from_chars(rev.as_slice())
}

/// A text made only of the digits 0-9.
pub open spec fn all_digits(s: Seq<char>) -> bool {
    forall|i: int| 0 <= i < s.len() ==> '0' <= #[trigger] s[i] && s[i] <= '9'
}

/// The number that the decimal digits `s` spell.
pub open spec fn digits_value(s: Seq<char>) -> int
    decreases s.len(),
{
    if s.len() == 0 {
        0
    } else {
        digits_value(s.drop_last()) * 10 + (s.last() as int - 48)
    }
}

/// What `str::parse::<u64>` gives for `s`: an optional `+` followed by one or more decimal
/// digits whose value fits in a `u64`.
pub open spec fn spec_parse_u64(s: Seq<char>) -> Option<u64> {
    let d = if s.len() > 0 && s[0] == '+' {
        s.drop_first()
    } else {
        s
    };
    if d.len() > 0 && all_digits(d) && digits_value(d) <= u64::MAX {
        Some(digits_value(d) as u64)
    } else {
        None
    }
}

proof fn lemma_digits_value_grows(s: Seq<char>, k: int)
    requires
        all_digits(s),
        0 <= k <= s.len(),
    ensures
        digits_value(s.subrange(0, k)) <= digits_value(s),
        digits_value(s) >= 0,
    decreases s.len(),
{
    if s.len() > 0 {
        assert(all_digits(s.drop_last()));
        assert('0' <= s[s.len() - 1] && s[s.len() - 1] <= '9');
        if k == s.len() {
            assert(s.subrange(0, k) =~= s);
            lemma_digits_value_grows(s.drop_last(), 0);
        } else {
            lemma_digits_value_grows(s.drop_last(), k);
            assert(s.drop_last().subrange(0, k) =~= s.subrange(0, k));
        }
    } else {
        assert(s.subrange(0, k) =~= s);
    }
}

/// Reads a decimal `u64` as `str::parse::<u64>` does: `None` where `s` is not an optional
/// `+` followed by digits, or where the value does not fit.
pub fn parse_u64(s: &str) -> (r: Option<u64>)
    ensures
        r == spec_parse_u64(s@),
{
    let v = chars_of(s);
    let start: usize = if v.len() > 0 && v[0] == '+' {
        1
    } else {
        0
    };
    let ghost d = if s@.len() > 0 && s@[0] == '+' {
        s@.drop_first()
    } else {
        s@
    };
    assert(d =~= v@.subrange(start as int, v@.len() as int));
    if start >= v.len() {
        return None;
    }
    let mut acc: u64 = 0;
    let mut i: usize = start;
    while i < v.len()
        invariant
            v@ == s@,
            d == (if s@.len() > 0 && s@[0] == '+' {
                s@.drop_first()
            } else {
                s@
            }),
            d == v@.subrange(start as int, v@.len() as int),
            start <= i <= v@.len(),
            all_digits(d.subrange(0, i - start)),
            acc as int == digits_value(d.subrange(0, i - start)),
        decreases v@.len() - i,
    {
        let c = v[i];
        let ghost pre = d.subrange(0, i - start);
        let ghost post = d.subrange(0, i + 1 - start);
        assert(post.drop_last() =~= pre);
        assert(post.last() == c);
        if c < '0' || c > '9' {
            assert(!all_digits(d)) by {
                assert(d[i - start] == v@[i as int]);
                assert(!('0' <= d[i - start] && d[i - start] <= '9'));
            }
            return None;
        }
        let dv = (c as u32 - 48) as u64;
        assert(dv as int == c as int - 48);
        assert(all_digits(post)) by {
            assert forall|j: int| 0 <= j < post.len() implies '0' <= #[trigger] post[j] && post[j]
                <= '9' by {
                if j < pre.len() {
                    assert(post[j] == pre[j]);
                }
            }
        }
        assert(digits_value(post) == acc * 10 + dv);
        match acc.checked_mul(10) {
            Some(m) => match m.checked_add(dv) {
                Some(x) => {
                    acc = x;
                },
                None => {
                    proof {
                        lemma_all_digits_prefix(d, post, i + 1 - start);
                    }
                    return None;
                },
            },
            None => {
                proof {
                    lemma_all_digits_prefix(d, post, i + 1 - start);
                }
                return None;
            },
        }
        i = i + 1;
    }
    assert(d.subrange(0, i - start) =~= d);
    Some(acc)
}

proof fn lemma_all_digits_prefix(d: Seq<char>, post: Seq<char>, k: int)
    requires
        0 <= k <= d.len(),
        post == d.subrange(0, k),
        digits_value(post) > u64::MAX,
    ensures
        !(all_digits(d) && digits_value(d) <= u64::MAX),
{
    if all_digits(d) {
        lemma_digits_value_grows(d, k);
    }
}

proof fn lemma_decimal_digits(n: nat)
    ensures
        decimal(n).len() > 0,
        all_digits(decimal(n)),
        digits_value(decimal(n)) == n,
    decreases n,
{
    if n < 10 {
        let c = digit_char(n as int);
        assert(c as int == 48 + n);
        assert(decimal(n) == seq![c]);
        assert(seq![c].drop_last() =~= Seq::<char>::empty());
        assert(digits_value(seq![c]) == digits_value(Seq::<char>::empty()) * 10 + (c as int - 48));
    } else {
        lemma_decimal_digits(n / 10);
        let c = digit_char((n % 10) as int);
        assert(c as int == 48 + n % 10);
        let d = decimal(n);
        assert(d == decimal(n / 10).push(c));
        assert(d.drop_last() =~= decimal(n / 10));
        assert(d.last() == c);
        assert(digits_value(d) == digits_value(decimal(n / 10)) * 10 + (c as int - 48));
        assert((n / 10) * 10 + n % 10 == n);
        assert forall|i: int| 0 <= i < d.len() implies '0' <= #[trigger] d[i] && d[i] <= '9' by {
            if i < d.len() - 1 {
                assert(d[i] == decimal(n / 10)[i]);
            }
        }
    }
}

/// Reading back the decimal text of a number gives the number: what `u64_to_decimal`
/// writes, `parse_u64` reads as the same id.
pub proof fn lemma_parse_decimal(n: u64)
    ensures
        spec_parse_u64(decimal(n as nat)) == Some(n),
{
    lemma_decimal_digits(n as nat);
    let d = decimal(n as nat);
    assert('0' <= d[0] && d[0] <= '9');
}

/// Every piece that `chunk_utf8` keeps is non-empty and at most `size` bytes long.
pub proof fn lemma_chunks_bounded(bytes: Seq<u8>, size: nat)
    ensures
        forall|k: int|
            0 <= k < utf8_chunks(bytes, size).len() ==> {
                let c = #[trigger] utf8_chunks(bytes, size)[k];
                &&& encode_utf8(c).len() <= size
                &&& c.len() > 0
            },
    decreases bytes.len(),
{
    if bytes.len() > 0 && size > 0 {
        let n = if bytes.len() < size {
            bytes.len()
        } else {
            size
        };
        let piece = bytes.subrange(0, n as int);
        let rest_bytes = bytes.subrange(n as int, bytes.len() as int);
        lemma_chunks_bounded(rest_bytes, size);
        let rest = utf8_chunks(rest_bytes, size);
        if valid_utf8(piece) {
            decode_utf8_encode_utf8(piece);
            let all = utf8_chunks(bytes, size);
            assert(all == seq![decode_utf8(piece)] + rest);
            assert(decode_utf8(piece).len() > 0) by {
                if decode_utf8(piece).len() == 0 {
                    assert(encode_utf8(decode_utf8(piece)) =~= Seq::<u8>::empty());
                }
            }
            assert forall|k: int| 0 <= k < all.len() implies {
                let c = #[trigger] all[k];
                &&& encode_utf8(c).len() <= size
                &&& c.len() > 0
            } by {
                if k > 0 {
                    assert(all[k] == rest[k - 1]);
                }
            }
        }
    }
}


/// No cut made every `size` bytes falls inside a character: the byte after each cut
/// is not a continuation byte.
pub open spec fn cuts_at_char_boundaries(bytes: Seq<u8>, size: nat) -> bool
    decreases bytes.len(),
{
    if size == 0 || bytes.len() <= size {
        true
    } else {
        !is_continuation_byte(bytes[size as int]) && cuts_at_char_boundaries(
            bytes.subrange(size as int, bytes.len() as int),
            size,
        )
    }
}

/// Cutting a text loses nothing where no cut falls inside a character: the pieces that
/// `chunk_utf8` keeps, joined, give back the whole text.
pub proof fn lemma_chunks_rebuild(bytes: Seq<u8>, size: nat)
    requires
        valid_utf8(bytes),
        size > 0,
        cuts_at_char_boundaries(bytes, size),
    ensures
        utf8_chunks(bytes, size).flatten() == decode_utf8(bytes),
    decreases bytes.len(),
{
    if bytes.len() == 0 {
        assert(decode_utf8(bytes) =~= Seq::<char>::empty());
    } else {
        let n: int = if bytes.len() < size {
            bytes.len() as int
        } else {
            size as int
        };
        let piece = bytes.subrange(0, n);
        let rest = bytes.subrange(n, bytes.len() as int);
        if n == bytes.len() {
            is_char_boundary_start_end_of_seq(bytes);
        } else {
            is_char_boundary_iff_not_is_continuation_byte(bytes, n);
        }
        valid_utf8_split(bytes, n);
        decode_utf8_split(bytes, n);
        lemma_chunks_rebuild(rest, size);
        let all = utf8_chunks(bytes, size);
        assert(all == seq![decode_utf8(piece)] + utf8_chunks(rest, size));
        assert(all.drop_first() =~= utf8_chunks(rest, size));
    }
}

proof fn lemma_ascii_bytes_cut(bytes: Seq<u8>, size: nat)
    requires
        forall|i: int| 0 <= i < bytes.len() ==> #[trigger] bytes[i] < 0x80,
    ensures
        cuts_at_char_boundaries(bytes, size),
    decreases bytes.len(),
{
    if size > 0 && bytes.len() > size {
        let rest = bytes.subrange(size as int, bytes.len() as int);
        assert forall|i: int| 0 <= i < rest.len() implies #[trigger] rest[i] < 0x80 by {
            assert(rest[i] == bytes[i + size]);
        }
        lemma_ascii_bytes_cut(rest, size);
    }
}

/// An ASCII text cut into pieces of `size` bytes loses nothing: every piece is kept, and
/// the pieces joined give back the text.
pub proof fn lemma_ascii_chunks_rebuild(s: Seq<char>, size: nat)
    requires
        is_ascii_chars(s),
        size > 0,
    ensures
        utf8_chunks(encode_utf8(s), size).flatten() == s,
{
    is_ascii_chars_encode_utf8(s);
    let bytes = encode_utf8(s);
    assert forall|i: int| 0 <= i < bytes.len() implies #[trigger] bytes[i] < 0x80 by {
        assert(bytes[i] == s[i] as u8);
        assert('\0' <= s[i] <= '\u{7f}');
    }
    lemma_ascii_bytes_cut(bytes, size);
    encode_utf8_valid_utf8(s);
    encode_utf8_decode_utf8(s);
    lemma_chunks_rebuild(bytes, size);
}

/// How many characters of `s`, from its start, fit together in `max` bytes of UTF-8.
pub open spec fn fitting_chars(s: Seq<char>, max: nat) -> nat
    decreases s.len(),
{
    if s.len() == 0 {
        0
    } else if encode_scalar(s[0] as u32).len() > max {
        0
    } else {
        1 + fitting_chars(s.drop_first(), (max - encode_scalar(s[0] as u32).len()) as nat)
    }
}

/// The characters that fit are at most all of them, at least one where `max` holds any
/// character, and together take at most `max` bytes.
pub proof fn lemma_fitting_chars(s: Seq<char>, max: nat)
    ensures
        fitting_chars(s, max) <= s.len(),
        s.len() > 0 && max >= 4 ==> fitting_chars(s, max) > 0,
        encode_utf8(s.take(fitting_chars(s, max) as int)).len() <= max,
    decreases s.len(),
{
    let k = fitting_chars(s, max);
    if s.len() > 0 && encode_scalar(s[0] as u32).len() <= max {
        let w = encode_scalar(s[0] as u32).len();
        let rest = s.drop_first();
        lemma_fitting_chars(rest, (max - w) as nat);
        let t = s.take(k as int);
        assert(t[0] == s[0]);
        assert(t.drop_first() =~= rest.take((k - 1) as int));
    } else {
        assert(s.take(0) =~= Seq::<char>::empty());
    }
}

/// The pieces that `s` is cut into: each is the longest run of characters, from where the
/// previous one ends, whose UTF-8 encoding fits in `max` bytes.
pub open spec fn text_pieces(s: Seq<char>, max: nat) -> Seq<Seq<char>>
    decreases s.len(),
{
    let k = fitting_chars(s, max);
    if s.len() == 0 || k == 0 {
        Seq::empty()
    } else {
        proof {
            lemma_fitting_chars(s, max);
        }
        seq![s.take(k as int)] + text_pieces(s.skip(k as int), max)
    }
}

/// Cutting a text at character boundaries loses nothing: where `max` holds any character
/// (4 bytes), the pieces joined give back the text, and each piece is non-empty and at
/// most `max` bytes long.
pub proof fn lemma_text_pieces(s: Seq<char>, max: nat)
    requires
        max >= 4,
    ensures
        text_pieces(s, max).flatten() == s,
        forall|i: int|
            0 <= i < text_pieces(s, max).len() ==> {
                let p = #[trigger] text_pieces(s, max)[i];
                &&& p.len() > 0
                &&& encode_utf8(p).len() <= max
            },
    decreases s.len(),
{
    if s.len() > 0 {
        lemma_fitting_chars(s, max);
        let k = fitting_chars(s, max) as int;
        let rest = s.skip(k);
        lemma_text_pieces(rest, max);
        let all = text_pieces(s, max);
        assert(all == seq![s.take(k)] + text_pieces(rest, max));
        assert(all.drop_first() =~= text_pieces(rest, max));
        assert(s.take(k) + rest =~= s);
        assert forall|i: int| 0 <= i < all.len() implies {
            let p = #[trigger] all[i];
            &&& p.len() > 0
            &&& encode_utf8(p).len() <= max
        } by {
            if i > 0 {
                assert(all[i] == text_pieces(rest, max)[i - 1]);
            }
        }
    } else {
        assert(text_pieces(s, max) =~= Seq::<Seq<char>>::empty());
    }
}

/// The number of bytes that `c` takes in UTF-8.
fn char_width(c: char) -> (w: usize)
    ensures
        w == encode_scalar(c as u32).len(),
        1 <= w <= 4,
{
    let u = c as u32;
    proof {
        char_is_scalar(c);
    }
    if u <= 0x7f {
        1
    } else if u <= 0x7ff {
        2
    } else if u <= 0xffff {
        3
    } else {
        4
    }
}

/// Cuts `s` at character boundaries into pieces of at most `max` bytes, each as long as
/// that allows (see `text_pieces`).
pub fn chunk_text(s: &str, max: usize) -> (r: Vec<String>)
    requires
        max >= 4,
    ensures
        strings_view(r@) == text_pieces(s@, max as nat),
{
    let v = chars_of(s);
    let n = v.len();
    let mut out: Vec<String> = Vec::new();
    let mut i: usize = 0;
    assert(v@.subrange(0, n as int) =~= v@);
    while i < n
        invariant
            v@ == s@,
            n == v@.len(),
            i <= n,
            max >= 4,
            text_pieces(v@, max as nat) == strings_view(out@) + text_pieces(
                v@.subrange(i as int, n as int),
                max as nat,
            ),
        decreases n - i,
    {
        let mut j: usize = i;
        let mut w: usize = 0;
        loop
            invariant
                i <= j <= n,
                w <= max,
                n == v@.len(),
                fitting_chars(v@.subrange(i as int, n as int), max as nat) == (j - i)
                    + fitting_chars(v@.subrange(j as int, n as int), (max - w) as nat),
            ensures
                i <= j <= n,
                fitting_chars(v@.subrange(i as int, n as int), max as nat) == j - i,
            decreases n - j,
        {
            if j == n {
                break;
            }
            let cw = char_width(v[j]);
            let ghost sub = v@.subrange(j as int, n as int);
            assert(sub[0] == v@[j as int]);
            if cw > max - w {
                break;
            }
            assert(sub.drop_first() =~= v@.subrange(j + 1, n as int));
            w = w + cw;
            j = j + 1;
        }
        let ghost sub = v@.subrange(i as int, n as int);
        proof {
            lemma_fitting_chars(sub, max as nat);
        }
        let whole = v.as_slice();
        let part = &whole[i..j];
        assert(part@ =~= v@.subrange(i as int, j as int));
        let piece = string_from_chars(part);
        assert(sub.take(j - i) =~= v@.subrange(i as int, j as int));
        let ghost before = strings_view(out@);
        let ghost pv = piece@;
        out.push(piece);
        assert(strings_view(out@) =~= before.push(pv));
        assert(sub.skip(j - i) =~= v@.subrange(j as int, n as int));
        assert(text_pieces(sub, max as nat) == seq![sub.take(j - i)] + text_pieces(
            sub.skip(j - i),
            max as nat,
        ));
        assert(strings_view(out@) + text_pieces(v@.subrange(j as int, n as int), max as nat)
            =~= before + text_pieces(sub, max as nat));
        i = j;
    }
    assert(text_pieces(v@.subrange(n as int, n as int), max as nat) =~= Seq::<Seq<char>>::empty());
    assert(strings_view(out@) + Seq::<Seq<char>>::empty() =~= strings_view(out@));
    out
}

} // verus!
