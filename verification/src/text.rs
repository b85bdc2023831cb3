//! Character-level helpers over `&str`: collecting characters, locating a
//! separator, trimming whitespace and writing decimal numbers.

use vstd::prelude::*;
use vstd::utf8::{
    char_u32_cast, encode_utf8, encode_utf8_decode_utf8, is_ascii_chars, is_ascii_chars_encode_utf8,
};

verus! {

/// The characters of `s`, in order.
pub fn chars_of(s: &str) -> (res: Vec<char>)
    ensures
        res@ == s@,
{
    let mut out: Vec<char> = Vec::new();
    for c in it: s.chars()
        invariant
            it.seq() == s@,
            out@ == it.seq().take(it.index()),
    {
        out.push(c);
    }
    out
}


/// `c` has the Unicode `White_Space` property, which is what `char::is_whitespace`
/// and `str::trim` go by.
pub open spec fn is_space(c: char) -> bool {
    ||| ('\t' <= c && c <= '\r')
    ||| c == ' '
    ||| c == '\u{85}'
    ||| c == '\u{a0}'
    ||| c == '\u{1680}'
    ||| ('\u{2000}' <= c && c <= '\u{200a}')
    ||| c == '\u{2028}'
    ||| c == '\u{2029}'
    ||| c == '\u{202f}'
    ||| c == '\u{205f}'
    ||| c == '\u{3000}'
}

/// Executable test of [`is_space`].
pub fn is_space_char(c: char) -> (res: bool)
    ensures
        res == is_space(c),
{
    ('\t' <= c && c <= '\r') || c == ' ' || c == '\u{85}' || c == '\u{a0}' || c == '\u{1680}'
        || ('\u{2000}' <= c && c <= '\u{200a}') || c == '\u{2028}' || c == '\u{2029}'
        || c == '\u{202f}' || c == '\u{205f}' || c == '\u{3000}'
}

/// `s` without its leading whitespace.
pub open spec fn trim_start(s: Seq<char>) -> Seq<char>
    decreases s.len(),
{
    if s.len() > 0 && is_space(s[0]) {
        trim_start(s.drop_first())
    } else {
        s
    }
}

/// `s` without its trailing whitespace.
pub open spec fn trim_end(s: Seq<char>) -> Seq<char>
    decreases s.len(),
{
    if s.len() > 0 && is_space(s.last()) {
        trim_end(s.drop_last())
    } else {
        s
    }
}

/// `s` without leading and trailing whitespace, as `str::trim` gives it.
pub open spec fn trim(s: Seq<char>) -> Seq<char> {
    trim_end(trim_start(s))
}

/// The position of the first occurrence of `c` in `s`, if any.
pub open spec fn first_index_of(s: Seq<char>, c: char) -> Option<int>
    decreases s.len(),
{
    if s.len() == 0 {
        None
    } else if s[0] == c {
        Some(0)
    } else {
        match first_index_of(s.drop_first(), c) {
            Some(i) => Some(i + 1),
            None => None,
        }
    }
}

/// Where `first_index_of` finds `c`, it is the first position holding `c`;
/// where it finds nothing, `c` does not occur.
pub proof fn lemma_first_index_of(s: Seq<char>, c: char)
    ensures
        first_index_of(s, c) matches Some(i) ==> {
            &&& 0 <= i < s.len()
            &&& s[i] == c
            &&& forall|j: int| 0 <= j < i ==> s[j] != c
        },
        first_index_of(s, c) is None ==> forall|j: int| 0 <= j < s.len() ==> s[j] != c,
    decreases s.len(),
{
    if s.len() > 0 && s[0] != c {
        lemma_first_index_of(s.drop_first(), c);
        if let Some(i) = first_index_of(s.drop_first(), c) {
            assert forall|j: int| 0 <= j < i + 1 implies s[j] != c by {
                if j > 0 {
                    assert(s[j] == s.drop_first()[j - 1]);
                }
            }
        } else {
            assert forall|j: int| 0 <= j < s.len() implies s[j] != c by {
                if j > 0 {
                    assert(s[j] == s.drop_first()[j - 1]);
                }
            }
        }
    }
}

/// A position that holds `c` and has no `c` before it is what `first_index_of` finds.
pub proof fn lemma_first_index_of_at(s: Seq<char>, c: char, i: int)
    requires
        0 <= i < s.len(),
        s[i] == c,
        forall|j: int| 0 <= j < i ==> s[j] != c,
    ensures
        first_index_of(s, c) == Some(i),
    decreases s.len(),
{
    if i > 0 {
        assert forall|j: int| 0 <= j < i - 1 implies s.drop_first()[j] != c by {
            assert(s.drop_first()[j] == s[j + 1]);
        }
        lemma_first_index_of_at(s.drop_first(), c, i - 1);
    }
}

/// The position of the first `c` in `s`, if any.
pub fn find_char(s: &Vec<char>, c: char) -> (res: Option<usize>)
    ensures
        res matches Some(i) ==> i < s@.len() && first_index_of(s@, c) == Some(i as int),
        res is None ==> first_index_of(s@, c) is None,
{
    let n = s.len();
    let mut i: usize = 0;
    while i < n
        invariant
            n == s@.len(),
            0 <= i <= n,
            forall|j: int| 0 <= j < i ==> s@[j] != c,
        decreases n - i,
    {
        if s[i] == c {
            proof {
                lemma_first_index_of_at(s@, c, i as int);
            }
            return Some(i);
        }
        i = i + 1;
    }
    proof {
        lemma_first_index_of(s@, c);
        if let Some(k) = first_index_of(s@, c) {
            assert(s@[k] == c);
        }
    }
    None
}

/// `trim_start` drops exactly the leading run of whitespace.
pub proof fn lemma_trim_start_skip(s: Seq<char>, a: int)
    requires
        0 <= a <= s.len(),
        forall|j: int| 0 <= j < a ==> is_space(s[j]),
        a == s.len() || !is_space(s[a]),
    ensures
        trim_start(s) == s.skip(a),
    decreases a,
{
    if a > 0 {
        assert forall|j: int| 0 <= j < a - 1 implies is_space(s.drop_first()[j]) by {
            assert(s.drop_first()[j] == s[j + 1]);
        }
        if a - 1 < s.drop_first().len() {
            assert(s.drop_first()[a - 1] == s[a]);
        }
        lemma_trim_start_skip(s.drop_first(), a - 1);
        assert(s.drop_first().skip(a - 1) =~= s.skip(a));
    } else {
        assert(s.skip(0) =~= s);
    }
}

/// `trim_end` drops exactly the trailing run of whitespace.
pub proof fn lemma_trim_end_take(s: Seq<char>, b: int)
    requires
        0 <= b <= s.len(),
        forall|j: int| b <= j < s.len() ==> is_space(s[j]),
        b == 0 || !is_space(s[b - 1]),
    ensures
        trim_end(s) == s.take(b),
    decreases s.len() - b,
{
    if b < s.len() {
        assert forall|j: int| b <= j < s.drop_last().len() implies is_space(s.drop_last()[j]) by {
            assert(s.drop_last()[j] == s[j]);
        }
        if b > 0 {
            assert(s.drop_last()[b - 1] == s[b - 1]);
        }
        lemma_trim_end_take(s.drop_last(), b);
        assert(s.drop_last().take(b) =~= s.take(b));
    } else {
        assert(s.take(b) =~= s);
    }
}

/// The bounds `(a, b)` such that `trim` of `s[from..to]` is `s[a..b]`.
pub fn trim_bounds(s: &Vec<char>, from: usize, to: usize) -> (res: (usize, usize))
    requires
        from <= to <= s@.len(),
    ensures
        from <= res.0 <= res.1 <= to,
        trim(s@.subrange(from as int, to as int)) == s@.subrange(res.0 as int, res.1 as int),
{
    let mut a: usize = from;
    while a < to && is_space_char(s[a])
        invariant
            from <= a <= to <= s@.len(),
            forall|j: int| from <= j < a ==> is_space(s@[j]),
        decreases to - a,
    {
        a = a + 1;
    }
    let mut b: usize = to;
    while b > a && is_space_char(s[b - 1])
        invariant
            from <= a <= b <= to <= s@.len(),
            forall|j: int| b <= j < to ==> is_space(s@[j]),
        decreases b,
    {
        b = b - 1;
    }
    proof {
        let part = s@.subrange(from as int, to as int);
        let k = a - from;
        assert forall|j: int| 0 <= j < k implies is_space(part[j]) by {
            assert(part[j] == s@[from + j]);
        }
        if k < part.len() {
            assert(part[k] == s@[a as int]);
        }
        lemma_trim_start_skip(part, k);
        let rest = part.skip(k);
        assert(rest =~= s@.subrange(a as int, to as int));
        let m = b - a;
        assert forall|j: int| m <= j < rest.len() implies is_space(rest[j]) by {
            assert(rest[j] == s@[a + j]);
        }
        if m > 0 {
            assert(rest[m - 1] == s@[b - 1]);
        }
        lemma_trim_end_take(rest, m);
        assert(rest.take(m) =~= s@.subrange(a as int, b as int));
    }
    (a, b)
}


/// Every character of `w` is whitespace.
pub open spec fn all_space(w: Seq<char>) -> bool {
    forall|i: int| 0 <= i < w.len() ==> is_space(#[trigger] w[i])
}

/// `x` neither starts nor ends with whitespace.
pub open spec fn edges_not_space(x: Seq<char>) -> bool {
    x.len() == 0 || (!is_space(x[0]) && !is_space(x.last()))
}

/// What `trim_start` leaves does not start with whitespace.
proof fn lemma_trim_start_first(s: Seq<char>)
    ensures
        trim_start(s).len() == 0 || !is_space(trim_start(s)[0]),
    decreases s.len(),
{
    if s.len() > 0 && is_space(s[0]) {
        lemma_trim_start_first(s.drop_first());
    }
}

/// What `trim_end` leaves is a prefix of its input that does not end with whitespace.
proof fn lemma_trim_end_shape(s: Seq<char>)
    ensures
        trim_end(s).len() <= s.len(),
        trim_end(s) == s.take(trim_end(s).len() as int),
        trim_end(s).len() == 0 || !is_space(trim_end(s).last()),
    decreases s.len(),
{
    if s.len() > 0 && is_space(s.last()) {
        lemma_trim_end_shape(s.drop_last());
        let r = trim_end(s.drop_last());
        assert(s.drop_last().take(r.len() as int) =~= s.take(r.len() as int));
    } else {
        assert(s.take(s.len() as int) =~= s);
    }
}

/// What `trim` leaves neither starts nor ends with whitespace.
pub proof fn lemma_trim_edges(s: Seq<char>)
    ensures
        edges_not_space(trim(s)),
{
    lemma_trim_start_first(s);
    lemma_trim_end_shape(trim_start(s));
    let t = trim_start(s);
    let r = trim_end(t);
    if r.len() > 0 {
        assert(r[0] == t[0]);
    }
}

/// Trimming text that is padded with whitespace on both sides gives the text
/// back, where the text itself neither starts nor ends with whitespace.
pub proof fn lemma_trim_padded(w1: Seq<char>, x: Seq<char>, w2: Seq<char>)
    requires
        all_space(w1),
        all_space(w2),
        edges_not_space(x),
    ensures
        trim(w1 + x + w2) == x,
{
    let s = w1 + x + w2;
    if x.len() == 0 {
        assert forall|j: int| 0 <= j < s.len() implies is_space(s[j]) by {
            if j < w1.len() {
                assert(s[j] == w1[j]);
            } else {
                assert(s[j] == w2[j - w1.len()]);
            }
        }
        lemma_trim_start_skip(s, s.len() as int);
        assert(s.skip(s.len() as int) =~= x);
    } else {
        let a = w1.len() as int;
        assert forall|j: int| 0 <= j < a implies is_space(s[j]) by {
            assert(s[j] == w1[j]);
        }
        assert(s[a] == x[0]);
        lemma_trim_start_skip(s, a);
        let rest = x + w2;
        assert(s.skip(a) =~= rest);
        let b = x.len() as int;
        assert forall|j: int| b <= j < rest.len() implies is_space(rest[j]) by {
            assert(rest[j] == w2[j - b]);
        }
        assert(rest[b - 1] == x.last());
        lemma_trim_end_take(rest, b);
        assert(rest.take(b) =~= x);
    }
}

/// `trim_start` drops a leading run of whitespace.
proof fn lemma_trim_start_at(x: Seq<char>) -> (k: int)
    ensures
        0 <= k <= x.len(),
        trim_start(x) == x.skip(k),
        all_space(x.take(k)),
    decreases x.len(),
{
    if x.len() > 0 && is_space(x[0]) {
        let k1 = lemma_trim_start_at(x.drop_first());
        assert(x.drop_first().skip(k1) =~= x.skip(k1 + 1));
        assert forall|j: int| 0 <= j < k1 + 1 implies is_space(#[trigger] x.take(k1 + 1)[j]) by {
            if j > 0 {
                assert(x.take(k1 + 1)[j] == x.drop_first().take(k1)[j - 1]);
            }
        }
        k1 + 1
    } else {
        assert(x.skip(0) =~= x);
        0
    }
}

/// `trim_end` drops a trailing run of whitespace.
proof fn lemma_trim_end_at(x: Seq<char>) -> (m: int)
    ensures
        0 <= m <= x.len(),
        trim_end(x) == x.take(m),
        all_space(x.skip(m)),
    decreases x.len(),
{
    if x.len() > 0 && is_space(x.last()) {
        let m1 = lemma_trim_end_at(x.drop_last());
        assert(x.drop_last().take(m1) =~= x.take(m1));
        assert forall|j: int| 0 <= j < x.len() - m1 implies is_space(#[trigger] x.skip(m1)[j]) by {
            if m1 + j < x.len() - 1 {
                assert(x.skip(m1)[j] == x.drop_last().skip(m1)[j]);
            }
        }
        m1
    } else {
        assert(x.take(x.len() as int) =~= x);
        x.len() as int
    }
}

/// Any text is its trimmed text with whitespace before and after it.
pub proof fn lemma_trim_split(x: Seq<char>) -> (pq: (Seq<char>, Seq<char>))
    ensures
        all_space(pq.0),
        all_space(pq.1),
        x == pq.0 + trim(x) + pq.1,
{
    let k = lemma_trim_start_at(x);
    let t = x.skip(k);
    let m = lemma_trim_end_at(t);
    let p = x.take(k);
    let q = t.skip(m);
    assert(x =~= p + t.take(m) + q);
    (p, q)
}

/// Whitespace added around a text does not change what it trims to.
pub proof fn lemma_trim_outer(w1: Seq<char>, x: Seq<char>, w2: Seq<char>)
    requires
        all_space(w1),
        all_space(w2),
    ensures
        trim(w1 + x + w2) == trim(x),
{
    let (p, q) = lemma_trim_split(x);
    let left = w1 + p;
    let right = q + w2;
    assert forall|j: int| 0 <= j < left.len() implies is_space(#[trigger] left[j]) by {
        if j < w1.len() {
            assert(left[j] == w1[j]);
        } else {
            assert(left[j] == p[j - w1.len()]);
        }
    }
    assert forall|j: int| 0 <= j < right.len() implies is_space(#[trigger] right[j]) by {
        if j < q.len() {
            assert(right[j] == q[j]);
        } else {
            assert(right[j] == w2[j - q.len()]);
        }
    }
    assert(w1 + x + w2 =~= left + trim(x) + right);
    lemma_trim_edges(x);
    lemma_trim_padded(left, trim(x), right);
}

/// The decimal digit character for `d`, which is below ten.
pub open spec fn digit(d: nat) -> char {
    ('0' as u32 + d) as char
}

/// The decimal writing of `n`, as `Display` prints an unsigned integer.
pub open spec fn decimal(n: nat) -> Seq<char>
    decreases n,
{
    if n < 10 {
        seq![digit(n)]
    } else {
        decimal(n / 10).push(digit(n % 10))
    }
}

/// Texts that agree around a middle part are equal exactly when the middle
/// parts are.
pub proof fn lemma_cancel<A>(a: Seq<A>, x: Seq<A>, y: Seq<A>, b: Seq<A>)
    ensures
        (a + x + b == a + y + b) <==> (x == y),
{
    if a + x + b == a + y + b {
        let l = a + x + b;
        let r = a + y + b;
        assert(l.len() == a.len() + x.len() + b.len());
        assert(r.len() == a.len() + y.len() + b.len());
        assert(l.len() == r.len());
        assert(x.len() == y.len());
        assert(x =~= l.subrange(a.len() as int, (a.len() + x.len()) as int));
        assert(y =~= r.subrange(a.len() as int, (a.len() + y.len()) as int));
    }
}

/// The decimal digit of `d` stands for `d`.
proof fn lemma_digit(d: nat)
    requires
        d < 10,
    ensures
        digit(d) as u32 == 48 + d,
{
    let u: u32 = (48 + d) as u32;
    assert('0' as u32 == 48);
    vstd::utf8::char_u32_cast(digit(d), digit(d) as u32);
}

/// A decimal writing is never empty.
proof fn lemma_decimal_len(n: nat)
    ensures
        decimal(n).len() >= 1,
        n >= 10 ==> decimal(n).len() >= 2,
    decreases n,
{
    if n >= 10 {
        lemma_decimal_len(n / 10);
    }
}

/// Different numbers are written differently in decimal.
pub proof fn law_decimal_injective(a: nat, b: nat)
    ensures
        (decimal(a) == decimal(b)) <==> (a == b),
    decreases a,
{
    if decimal(a) == decimal(b) {
        lemma_decimal_len(a);
        lemma_decimal_len(b);
        if a < 10 && b < 10 {
            lemma_digit(a);
            lemma_digit(b);
            assert(decimal(a)[0] == decimal(b)[0]);
        } else if a >= 10 && b >= 10 {
            let da = decimal(a);
            let db = decimal(b);
            assert(da.drop_last() =~= decimal(a / 10));
            assert(db.drop_last() =~= decimal(b / 10));
            law_decimal_injective(a / 10, b / 10);
            lemma_digit(a % 10);
            lemma_digit(b % 10);
            assert(da.last() == db.last());
        }
    }
}

/// A decimal writing holds no space.
proof fn lemma_decimal_no_space(n: nat)
    ensures
        forall|i: int| 0 <= i < decimal(n).len() ==> #[trigger] decimal(n)[i] != ' ',
    decreases n,
{
    assert(' ' as u32 == 32);
    if n < 10 {
        lemma_digit(n);
    } else {
        lemma_decimal_no_space(n / 10);
        lemma_digit(n % 10);
        assert forall|i: int| 0 <= i < decimal(n).len() implies #[trigger] decimal(n)[i] != ' ' by {
            if i < decimal(n / 10).len() {
                assert(decimal(n)[i] == decimal(n / 10)[i]);
            }
        }
    }
}

/// A decimal number followed by text that starts with a space can be read
/// back: where two such texts agree, so do the numbers and what follows them.
pub proof fn lemma_decimal_then_space(a: Seq<char>, n1: nat, r1: Seq<char>, n2: nat, r2: Seq<char>)
    requires
        r1.len() > 0,
        r2.len() > 0,
        r1[0] == ' ',
        r2[0] == ' ',
        a + decimal(n1) + r1 == a + decimal(n2) + r2,
    ensures
        n1 == n2,
        r1 == r2,
{
    let d1 = decimal(n1);
    let d2 = decimal(n2);
    let l = a + d1 + r1;
    let r = a + d2 + r2;
    lemma_decimal_no_space(n1);
    lemma_decimal_no_space(n2);
    assert(l.len() == r.len());
    if d1.len() < d2.len() {
        let p: int = (a.len() + d1.len()) as int;
        assert(l[p] == r1[0]);
        assert(r[p] == d2[d1.len() as int]);
    } else if d2.len() < d1.len() {
        let p: int = (a.len() + d2.len()) as int;
        assert(r[p] == r2[0]);
        assert(l[p] == d1[d2.len() as int]);
    }
    assert(d1 =~= l.subrange(a.len() as int, (a.len() + d1.len()) as int));
    assert(d2 =~= r.subrange(a.len() as int, (a.len() + d2.len()) as int));
    law_decimal_injective(n1, n2);
    assert(r1 =~= l.skip((a.len() + d1.len()) as int));
    assert(r2 =~= r.skip((a.len() + d2.len()) as int));
}

/// The one-character string holding the digit `d`.
fn digit_str(d: usize) -> (res: &'static str)
    requires
        d < 10,
    ensures
        res@ == seq![digit(d as nat)],
{
    let digits = "0123456789";
    proof {
        reveal_strlit("0123456789");
    }
    let res = digits.substring_char(d, d + 1);
    assert(res@ =~= seq![digit(d as nat)]);
    res
}

/// `n` written in decimal.
pub fn decimal_string(n: usize) -> (res: String)
    ensures
        res@ == decimal(n as nat),
    decreases n,
{
    if n < 10 {
        String::from_str(digit_str(n))
    } else {
        let mut s = decimal_string(n / 10);
        s.append(digit_str(n % 10));
        s
    }
}


/// What the `Debug` of `str` writes for `s`: the text in double quotes, with
/// quotes, backslashes and unprintable characters escaped.
pub uninterp spec fn debug_text(s: Seq<char>) -> Seq<char>;

/// Calls the `Debug` of `str` on `s`. Nothing is claimed of the text but that
/// it is what `debug_text` names for `s`.
#[verifier::external_body]
pub(crate) fn debug_string(s: &str) -> (res: String)
    ensures
        res@ == debug_text(s@),
{
    format!("{:?}", s)
}


/// The characters that ASCII bytes stand for.
pub open spec fn ascii_chars(bytes: Seq<u8>) -> Seq<char> {
    Seq::new(bytes.len(), |i: int| bytes[i] as char)
}

/// Calls `std::str::from_utf8` on `bytes` and hands back the text, if any.
/// Claimed of it, after its documentation: a text it gives back is encoded in
/// UTF-8 by exactly these bytes; bytes that are all ASCII are valid UTF-8, so
/// it gives a text back for them.
#[verifier::external_body]
fn utf8_text(bytes: &[u8]) -> (res: Option<String>)
    ensures
        res matches Some(t) ==> encode_utf8(t@) == bytes@,
        (forall|i: int| 0 <= i < bytes@.len() ==> #[trigger] bytes@[i] < 128) ==> res is Some,
{
    match std::str::from_utf8(bytes) {
        Ok(text) => Some(text.to_string()),
        Err(_) => None,
    }
}

/// The text that ASCII bytes stand for.
pub fn ascii_text(bytes: &[u8]) -> (res: String)
    requires
        forall|i: int| 0 <= i < bytes@.len() ==> #[trigger] bytes@[i] < 128,
    ensures
        res@ == ascii_chars(bytes@),
{
    let chars = Ghost(ascii_chars(bytes@));
    proof {
        assert forall|i: int| 0 <= i < chars@.len() implies '\0' <= #[trigger] chars@[i] <= '\u{7f}' by {
            char_u32_cast(chars@[i], chars@[i] as u32);
        }
        assert(is_ascii_chars(chars@));
        is_ascii_chars_encode_utf8(chars@);
        assert(encode_utf8(chars@) =~= bytes@);
        encode_utf8_decode_utf8(chars@);
    }
    match utf8_text(bytes) {
        Some(text) => {
            proof {
                encode_utf8_decode_utf8(text@);
            }
            text
        },
        None => {
            proof {
                assert(false);
            }
            String::new()
        },
    }
}

} // verus!
