//! HTTP headers given on the command line as `Key: Value`.

use vstd::prelude::*;
use vstd::utf8::{
    char_u32_cast, encode_utf8, encode_utf8_decode_utf8, is_ascii_chars, is_ascii_chars_encode_utf8,
};
use crate::text::{
    all_space, chars_of, edges_not_space, find_char, first_index_of, is_space,
    lemma_first_index_of, lemma_first_index_of_at, lemma_trim_edges, lemma_trim_outer, lemma_trim_padded,
    trim, trim_bounds, trim_end, trim_start,
};

verus! {

/// A byte that HTTP allows in a header name (`tchar`).
pub open spec fn is_token_byte(b: u8) -> bool {
    ||| b == 33
    ||| (35 <= b && b <= 39)
    ||| b == 42
    ||| b == 43
    ||| b == 45
    ||| b == 46
    ||| (48 <= b && b <= 57)
    ||| (65 <= b && b <= 90)
    ||| (94 <= b && b <= 122)
    ||| b == 124
    ||| b == 126
}

/// `b` with an ASCII capital letter turned into its small letter.
pub open spec fn lower_byte(b: u8) -> u8 {
    if 65 <= b && b <= 90 {
        (b + 32) as u8
    } else {
        b
    }
}

/// The bytes form an acceptable header name: between 1 and 65535 token bytes.
pub open spec fn name_bytes_ok(bytes: Seq<u8>) -> bool {
    &&& 1 <= bytes.len() <= 65535
    &&& forall|i: int| 0 <= i < bytes.len() ==> is_token_byte(#[trigger] bytes[i])
}

/// The normalised (lower-case) header name for the given bytes.
pub open spec fn lowered_name(bytes: Seq<u8>) -> Seq<char> {
    Seq::new(bytes.len(), |i: int| lower_byte(bytes[i]) as char)
}

/// A byte that HTTP allows in a header value: a tab, or anything from the
/// space upwards except DEL.
pub open spec fn is_value_byte(b: u8) -> bool {
    (32 <= b && b != 127) || b == 9
}

/// Every byte is allowed in a header value.
pub open spec fn value_bytes_ok(bytes: Seq<u8>) -> bool {
    forall|i: int| 0 <= i < bytes.len() ==> is_value_byte(#[trigger] bytes[i])
}

/// A byte that is visible ASCII or a tab: a header value made only of these
/// reads back as text.
pub open spec fn is_visible_byte(b: u8) -> bool {
    (32 <= b && b < 127) || b == 9
}

/// Every byte is visible ASCII or a tab.
pub open spec fn visible_bytes(bytes: Seq<u8>) -> bool {
    forall|i: int| 0 <= i < bytes.len() ==> is_visible_byte(#[trigger] bytes[i])
}

/// A character of a normalised header name: a token byte that is not a capital letter.
pub open spec fn is_name_char(c: char) -> bool {
    &&& (c as int) < 128
    &&& is_token_byte(c as u8)
    &&& !('A' <= c && c <= 'Z')
}

/// A normalised header name.
pub open spec fn name_chars_ok(name: Seq<char>) -> bool {
    &&& 1 <= name.len() <= 65535
    &&& forall|i: int| 0 <= i < name.len() ==> is_name_char(#[trigger] name[i])
}

/// The text of the error that `reqwest::header::InvalidHeaderName` displays.
pub open spec fn invalid_name_reason() -> Seq<char> {
    "invalid HTTP header name"@
}

/// The text of the error that `reqwest::header::InvalidHeaderValue` displays.
pub open spec fn invalid_value_reason() -> Seq<char> {
    "failed to parse header value"@
}

/// Calls `reqwest::header::HeaderName::from_bytes` and hands back the name it
/// made, as `HeaderName::as_str` gives it, or the error's text.
/// Claimed of it, after the source: it fails exactly on an empty input, on one
/// longer than 65535 bytes and on one holding a byte that is no token byte;
/// otherwise the name is the input with capital letters made small; the error
/// displays as "invalid HTTP header name".
#[verifier::external_body]
fn header_name_from_bytes(bytes: &[u8]) -> (res: Result<String, String>)
    ensures
        res is Ok <==> name_bytes_ok(bytes@),
        res matches Ok(name) ==> name@ == lowered_name(bytes@),
        res matches Err(reason) ==> reason@ == invalid_name_reason(),
{
    match reqwest::header::HeaderName::from_bytes(bytes) {
        Ok(name) => Ok(name.as_str().to_string()),
        Err(err) => Err(err.to_string()),
    }
}

/// Calls `reqwest::header::HeaderValue::from_bytes` and hands back the bytes of
/// the value it made, or the error's text.
/// Claimed of it, after the source: it succeeds exactly when every byte is a
/// tab or at least a space and not DEL; the value holds the bytes unchanged;
/// the error displays as "failed to parse header value".
#[verifier::external_body]
fn header_value_from_bytes(bytes: &[u8]) -> (res: Result<Vec<u8>, String>)
    ensures
        res is Ok <==> value_bytes_ok(bytes@),
        res matches Ok(value) ==> value@ == bytes@,
        res matches Err(reason) ==> reason@ == invalid_value_reason(),
{
    match reqwest::header::HeaderValue::from_bytes(bytes) {
        Ok(value) => Ok(value.as_bytes().to_vec()),
        Err(err) => Err(err.to_string()),
    }
}

/// What a header is made of: its name as text and its value as bytes.
pub struct HeaderView {
    pub name: Seq<char>,
    pub value: Seq<u8>,
}

/// A validated HTTP header: a normalised name and a value that HTTP accepts.
#[derive(Debug)]
pub struct Header {
    name: String,
    value: Vec<u8>,
}

impl View for Header {
    type V = HeaderView;

    closed spec fn view(&self) -> HeaderView {
        HeaderView { name: self.name@, value: self.value@ }
    }
}

/// Why a header was refused, as text.
pub enum HeaderErrorView {
    MissingColon(Seq<char>),
    InvalidName(Seq<char>, Seq<char>),
    InvalidValue(Seq<char>, Seq<char>),
}

/// Why a header was refused: the input had no colon; or the name (trimmed) was
/// refused, with the reason given; or the value (trimmed) was refused, with the
/// reason given.
#[derive(Debug)]
pub enum HeaderError {
    MissingColon(String),
    InvalidName(String, String),
    InvalidValue(String, String),
}

impl View for HeaderError {
    type V = HeaderErrorView;

    open spec fn view(&self) -> HeaderErrorView {
        match self {
            HeaderError::MissingColon(s) => HeaderErrorView::MissingColon(s@),
            HeaderError::InvalidName(n, r) => HeaderErrorView::InvalidName(n@, r@),
            HeaderError::InvalidValue(v, r) => HeaderErrorView::InvalidValue(v@, r@),
        }
    }
}

/// The header made of a name and a value, or why they are refused; the name is
/// looked at first.
pub open spec fn header_from_parts(name: Seq<char>, value: Seq<char>) -> Result<HeaderView, HeaderErrorView> {
    if !name_bytes_ok(encode_utf8(name)) {
        Err(HeaderErrorView::InvalidName(name, invalid_name_reason()))
    } else if !value_bytes_ok(encode_utf8(value)) {
        Err(HeaderErrorView::InvalidValue(value, invalid_value_reason()))
    } else {
        Ok(HeaderView { name: lowered_name(encode_utf8(name)), value: encode_utf8(value) })
    }
}

/// The header made of a name and the bytes of a value, where HTTP accepts both.
pub open spec fn header_from_bytes(name: Seq<char>, value: Seq<u8>) -> Option<HeaderView> {
    if name_bytes_ok(encode_utf8(name)) && value_bytes_ok(value) {
        Some(HeaderView { name: lowered_name(encode_utf8(name)), value })
    } else {
        None
    }
}

/// The header that `Key: Value` text stands for: split at the first colon,
/// each side trimmed of whitespace.
pub open spec fn parse_header_spec(s: Seq<char>) -> Result<HeaderView, HeaderErrorView> {
    match first_index_of(s, ':') {
        None => Err(HeaderErrorView::MissingColon(s)),
        Some(i) => header_from_parts(trim(s.take(i)), trim(s.skip(i + 1))),
    }
}

/// A result taken by its view.
pub open spec fn outcome_view(res: Result<Header, HeaderError>) -> Result<HeaderView, HeaderErrorView> {
    match res {
        Ok(h) => Ok(h@),
        Err(e) => Err(e@),
    }
}

/// The message that a refusal is reported with.
pub open spec fn error_message(e: HeaderErrorView) -> Seq<char> {
    match e {
        HeaderErrorView::MissingColon(s) => "invalid header '"@ + s + "', expected 'Key: Value'"@,
        HeaderErrorView::InvalidName(n, r) => "invalid header name '"@ + n + "': "@ + r,
        HeaderErrorView::InvalidValue(v, r) => "invalid header value '"@ + v + "': "@ + r,
    }
}

/// Lower-casing the bytes of an accepted name gives a normalised name.
proof fn lemma_lowered_name_ok(bytes: Seq<u8>)
    requires
        name_bytes_ok(bytes),
    ensures
        name_chars_ok(lowered_name(bytes)),
{
    let name = lowered_name(bytes);
    assert forall|i: int| 0 <= i < name.len() implies is_name_char(#[trigger] name[i]) by {
        let b = bytes[i];
        assert(is_token_byte(b));
        let l = lower_byte(b);
        assert(name[i] == l as char);
        assert(is_token_byte(l) && !(65 <= l && l <= 90));
        assert((l as char) as u32 == l as u32);
    }
}

impl Header {
    #[verifier::type_invariant]
    spec fn well_formed(self) -> bool {
        &&& name_chars_ok(self.name@)
        &&& value_bytes_ok(self.value@)
    }

    /// The header's name: always normalised, so in lower case.
    pub fn name(&self) -> (res: &str)
        ensures
            res@ == self@.name,
            name_chars_ok(res@),
    {
        proof {
            use_type_invariant(self);
        }
        self.name.as_str()
    }

    /// The header's value: always one that HTTP accepts.
    pub fn value(&self) -> (res: &[u8])
        ensures
            res@ == self@.value,
            value_bytes_ok(res@),
    {
        proof {
            use_type_invariant(self);
        }
        self.value.as_slice()
    }

    /// The header with the given name and value, or why they are refused.
    pub fn new(name: &str, value: &str) -> (res: Result<Header, HeaderError>)
        ensures
            outcome_view(res) == header_from_parts(name@, value@),
    {
        let checked_name = header_name_from_bytes(name.as_bytes());
        match checked_name {
            Err(reason) => Err(HeaderError::InvalidName(String::from_str(name), reason)),
            Ok(lowered) => {
                match header_value_from_bytes(value.as_bytes()) {
                    Err(reason) => Err(HeaderError::InvalidValue(String::from_str(value), reason)),
                    Ok(bytes) => {
                        proof {
                            lemma_lowered_name_ok(encode_utf8(name@));
                        }
                        Ok(Header { name: lowered, value: bytes })
                    },
                }
            },
        }
    }

    /// The header with the given name and value bytes, unless HTTP refuses one
    /// of them.
    pub fn from_bytes(name: &str, value: &[u8]) -> (res: Option<Header>)
        ensures
            match res {
                Some(h) => Some(h@),
                None => None::<HeaderView>,
            } == header_from_bytes(name@, value@),
    {
        match header_name_from_bytes(name.as_bytes()) {
            Err(_) => None,
            Ok(lowered) => {
                match header_value_from_bytes(value) {
                    Err(_) => None,
                    Ok(bytes) => {
                        proof {
                            lemma_lowered_name_ok(encode_utf8(name@));
                        }
                        Some(Header { name: lowered, value: bytes })
                    },
                }
            },
        }
    }
}

impl Clone for Header {
    /// The same header.
    fn clone(&self) -> (res: Header)
        ensures
            res@ == self@,
    {
        proof {
            use_type_invariant(self);
        }
        let value = self.value.clone();
        assert(value@ =~= self.value@);
        Header { name: self.name.clone(), value }
    }
}

impl HeaderError {
    /// The message that the refusal is reported with.
    pub fn message(&self) -> (res: String)
        ensures
            res@ == error_message(self@),
    {
        match self {
            HeaderError::MissingColon(s) => {
                let mut m = String::from_str("invalid header '");
                m.append(s.as_str());
                m.append("', expected 'Key: Value'");
                m
            },
            HeaderError::InvalidName(n, r) => {
                let mut m = String::from_str("invalid header name '");
                m.append(n.as_str());
                m.append("': ");
                m.append(r.as_str());
                m
            },
            HeaderError::InvalidValue(v, r) => {
                let mut m = String::from_str("invalid header value '");
                m.append(v.as_str());
                m.append("': ");
                m.append(r.as_str());
                m
            },
        }
    }
}

/// Reads a header given as `Key: Value`: the text is split at its first colon,
/// both sides are trimmed of whitespace, and the name and the value are checked
/// as HTTP asks.
pub fn parse_header(s: &str) -> (res: Result<Header, HeaderError>)
    ensures
        outcome_view(res) == parse_header_spec(s@),
{
    let chars = chars_of(s);
    match find_char(&chars, ':') {
        None => Err(HeaderError::MissingColon(String::from_str(s))),
        Some(i) => {
            let n = chars.len();
            let (a, b) = trim_bounds(&chars, 0, i);
            let (c, d) = trim_bounds(&chars, i + 1, n);
            let key = s.substring_char(a, b);
            let value = s.substring_char(c, d);
            proof {
                assert(chars@.subrange(0, i as int) =~= s@.take(i as int));
                assert(chars@.subrange(i + 1, n as int) =~= s@.skip(i + 1));
            }
            Header::new(key, value)
        },
    }
}


/// A character that HTTP allows in a header name: an ASCII token byte.
pub open spec fn is_token_char(c: char) -> bool {
    (c as int) < 128 && is_token_byte(c as u8)
}

/// A name given as text that HTTP accepts: between 1 and 65535 token characters.
pub open spec fn token_name(n: Seq<char>) -> bool {
    &&& 1 <= n.len() <= 65535
    &&& forall|i: int| 0 <= i < n.len() ==> is_token_char(#[trigger] n[i])
}

/// A name made of token characters is accepted byte by byte.
proof fn lemma_token_name_bytes(n: Seq<char>)
    requires
        token_name(n),
    ensures
        name_bytes_ok(encode_utf8(n)),
        encode_utf8(n).len() == n.len(),
        forall|i: int| 0 <= i < n.len() ==> encode_utf8(n)[i] == n[i] as u8,
{
    assert forall|i: int| 0 <= i < n.len() implies '\0' <= #[trigger] n[i] <= '\u{7f}' by {
        assert(is_token_char(n[i]));
        char_u32_cast(n[i], n[i] as u32);
    }
    assert(is_ascii_chars(n));
    is_ascii_chars_encode_utf8(n);
    let bytes = encode_utf8(n);
    assert forall|i: int| 0 <= i < bytes.len() implies is_token_byte(#[trigger] bytes[i]) by {
        assert(is_token_char(n[i]));
        assert(bytes[i] == n[i] as u8);
    }
}

/// A header line `name:value`, with any whitespace around the name and around
/// the value, is read as the header with the name in lower case and the value
/// as given, wherever the name is a token, the value has no whitespace at its
/// ends and HTTP accepts its bytes. The value may hold colons of its own.
pub proof fn law_header_line_read(w1: Seq<char>, n: Seq<char>, w2: Seq<char>, w3: Seq<char>, v: Seq<char>, w4: Seq<char>)
    requires
        all_space(w1),
        all_space(w2),
        all_space(w3),
        all_space(w4),
        token_name(n),
        edges_not_space(v),
        value_bytes_ok(encode_utf8(v)),
    ensures
        parse_header_spec(w1 + n + w2 + seq![':'] + w3 + v + w4) == Ok::<HeaderView, HeaderErrorView>(
            HeaderView { name: lowered_name(encode_utf8(n)), value: encode_utf8(v) },
        ),
{
    let s = w1 + n + w2 + seq![':'] + w3 + v + w4;
    let i: int = (w1.len() + n.len() + w2.len()) as int;
    assert(s[i] == ':');
    assert forall|j: int| 0 <= j < i implies s[j] != ':' by {
        if j < w1.len() {
            assert(s[j] == w1[j]);
            assert(is_space(w1[j]));
        } else if j < w1.len() + n.len() {
            assert(s[j] == n[j - w1.len()]);
            assert(is_token_char(n[j - w1.len()]));
        } else {
            assert(s[j] == w2[j - w1.len() - n.len()]);
            assert(is_space(w2[j - w1.len() - n.len()]));
        }
    }
    lemma_first_index_of_at(s, ':', i);
    assert(s.take(i) =~= w1 + n + w2);
    assert(s.skip(i + 1) =~= w3 + v + w4);
    assert(is_token_char(n[0]) && is_token_char(n.last()));
    lemma_trim_padded(w1, n, w2);
    lemma_trim_padded(w3, v, w4);
    lemma_token_name_bytes(n);
}

/// Whitespace before and after a header line does not change how it is read;
/// only a line without a colon, which is refused, names the padded text as given.
pub proof fn law_header_outer_whitespace(w1: Seq<char>, s: Seq<char>, w2: Seq<char>)
    requires
        all_space(w1),
        all_space(w2),
    ensures
        parse_header_spec(w1 + s + w2) == match parse_header_spec(s) {
            Err(HeaderErrorView::MissingColon(_)) => Err(HeaderErrorView::MissingColon(w1 + s + w2)),
            other => other,
        },
{
    let u = w1 + s + w2;
    lemma_first_index_of(s, ':');
    lemma_first_index_of(u, ':');
    match first_index_of(s, ':') {
        None => {
            if let Some(k) = first_index_of(u, ':') {
                if k < w1.len() {
                    assert(u[k] == w1[k]);
                    assert(is_space(w1[k]));
                } else if k < w1.len() + s.len() {
                    assert(u[k] == s[k - w1.len()]);
                } else {
                    assert(u[k] == w2[k - w1.len() - s.len()]);
                    assert(is_space(w2[k - w1.len() - s.len()]));
                }
            }
        },
        Some(i) => {
            let k = w1.len() + i;
            assert(u[k] == s[i]);
            assert forall|j: int| 0 <= j < k implies u[j] != ':' by {
                if j < w1.len() {
                    assert(u[j] == w1[j]);
                    assert(is_space(w1[j]));
                } else {
                    assert(u[j] == s[j - w1.len()]);
                }
            }
            lemma_first_index_of_at(u, ':', k);
            let empty = Seq::<char>::empty();
            assert(u.take(k) =~= w1 + s.take(i) + empty);
            assert(u.skip(k + 1) =~= empty + s.skip(i + 1) + w2);
            lemma_trim_outer(w1, s.take(i), empty);
            lemma_trim_outer(empty, s.skip(i + 1), w2);
        },
    }
}

/// `c` with an ASCII capital letter made small.
pub open spec fn fold_case(c: char) -> char {
    if 'A' <= c && c <= 'Z' {
        ((c as u32) + 32) as char
    } else {
        c
    }
}

/// The two texts agree up to the case of ASCII letters.
pub open spec fn same_but_case(a: Seq<char>, b: Seq<char>) -> bool {
    &&& a.len() == b.len()
    &&& forall|j: int| 0 <= j < a.len() ==> fold_case(#[trigger] a[j]) == fold_case(b[j])
}

/// The length of the part of `s` before its first colon; all of `s` where it
/// has none.
pub open spec fn key_len(s: Seq<char>) -> int {
    match first_index_of(s, ':') {
        Some(i) => i,
        None => s.len() as int,
    }
}

/// `t` is `s` with, at most, the case of ASCII letters before the first colon changed.
pub open spec fn same_but_key_case(s: Seq<char>, t: Seq<char>) -> bool {
    &&& s.len() == t.len()
    &&& forall|j: int|
        0 <= j < s.len() ==> if j < key_len(s) {
            fold_case(#[trigger] s[j]) == fold_case(t[j])
        } else {
            s[j] == t[j]
        }
}

/// The two byte strings agree up to the case of ASCII letters.
pub open spec fn bytes_same_but_case(a: Seq<u8>, b: Seq<u8>) -> bool {
    &&& a.len() == b.len()
    &&& forall|j: int| 0 <= j < a.len() ==> lower_byte(#[trigger] a[j]) == lower_byte(b[j])
}

/// Folding the case of a character keeps whether it is whitespace, and whether it is a colon.
proof fn lemma_fold_case_char(c: char)
    ensures
        is_space(fold_case(c)) == is_space(c),
        (fold_case(c) == ':') == (c == ':'),
        'A' <= c <= 'Z' ==> 'a' <= fold_case(c) <= 'z',
{
    char_u32_cast(c, c as u32);
    if 'A' <= c && c <= 'Z' {
        let u: u32 = ((c as u32) + 32) as u32;
        assert(97 <= u <= 122);
        char_u32_cast(fold_case(c), u);
        assert(fold_case(c) as u32 == u);
    }
}

/// Characters that agree up to case have UTF-8 bytes that agree up to case.
proof fn lemma_encode_same_but_case(a: Seq<char>, b: Seq<char>)
    requires
        same_but_case(a, b),
    ensures
        bytes_same_but_case(encode_utf8(a), encode_utf8(b)),
    decreases a.len(),
{
    if a.len() > 0 {
        assert(same_but_case(a.drop_first(), b.drop_first())) by {
            assert forall|j: int| 0 <= j < a.drop_first().len() implies fold_case(
                #[trigger] a.drop_first()[j],
            ) == fold_case(b.drop_first()[j]) by {
                assert(fold_case(a[j + 1]) == fold_case(b[j + 1]));
            }
        }
        lemma_encode_same_but_case(a.drop_first(), b.drop_first());
        let ha = encode_utf8(seq![a[0]]);
        let hb = encode_utf8(seq![b[0]]);
        assert(encode_utf8(a) == ha + encode_utf8(a.drop_first())) by {
            assert(encode_utf8(seq![a[0]]) =~= vstd::utf8::encode_scalar(a[0] as u32) + encode_utf8(
                seq![a[0]].drop_first(),
            ));
            assert(seq![a[0]].drop_first() =~= Seq::<char>::empty());
        }
        assert(encode_utf8(b) == hb + encode_utf8(b.drop_first())) by {
            assert(encode_utf8(seq![b[0]]) =~= vstd::utf8::encode_scalar(b[0] as u32) + encode_utf8(
                seq![b[0]].drop_first(),
            ));
            assert(seq![b[0]].drop_first() =~= Seq::<char>::empty());
        }
        assert(bytes_same_but_case(ha, hb)) by {
            assert(fold_case(a[0]) == fold_case(b[0]));
            if a[0] != b[0] {
                lemma_fold_case_char(a[0]);
                lemma_fold_case_char(b[0]);
                lemma_ascii_letter_byte(a[0]);
                lemma_ascii_letter_byte(b[0]);
            }
        }
        let ra = encode_utf8(a.drop_first());
        let rb = encode_utf8(b.drop_first());
        assert forall|j: int| 0 <= j < (ha + ra).len() implies lower_byte(#[trigger] (ha + ra)[j])
            == lower_byte((hb + rb)[j]) by {
            if j < ha.len() {
                assert((ha + ra)[j] == ha[j] && (hb + rb)[j] == hb[j]);
            } else {
                assert((ha + ra)[j] == ra[j - ha.len()] && (hb + rb)[j] == rb[j - ha.len()]);
            }
        }
    }
}

/// An ASCII letter is encoded by the one byte of its number, and its case
/// folds as that byte's does.
proof fn lemma_ascii_letter_byte(c: char)
    requires
        ('A' <= c <= 'Z') || ('a' <= c <= 'z'),
    ensures
        encode_utf8(seq![c]) == seq![c as u8],
        lower_byte(c as u8) == fold_case(c) as u8,
{
    char_u32_cast(c, c as u32);
    assert(is_ascii_chars(seq![c]));
    is_ascii_chars_encode_utf8(seq![c]);
    assert(encode_utf8(seq![c]) =~= seq![c as u8]);
    lemma_fold_case_char(c);
    if 'A' <= c && c <= 'Z' {
        let u: u32 = ((c as u32) + 32) as u32;
        char_u32_cast(fold_case(c), u);
    }
}

/// Header names are read without regard to case: changing the case of ASCII
/// letters before the first colon of a line changes neither whether it is
/// accepted nor, where it is, the header it is read as.
pub proof fn law_header_key_case(s: Seq<char>, t: Seq<char>)
    requires
        same_but_key_case(s, t),
    ensures
        parse_header_spec(s) is Ok <==> parse_header_spec(t) is Ok,
        parse_header_spec(s) is Ok ==> parse_header_spec(t) == parse_header_spec(s),
{
    lemma_first_index_of(s, ':');
    lemma_first_index_of(t, ':');
    let n = key_len(s);
    assert forall|j: int| 0 <= j < n implies t[j] != ':' by {
        assert(fold_case(s[j]) == fold_case(t[j]));
        lemma_fold_case_char(s[j]);
        lemma_fold_case_char(t[j]);
        if 'A' <= s[j] && s[j] <= 'Z' {
        } else {
            assert(s[j] != ':');
        }
    }
    match first_index_of(s, ':') {
        None => {
            if let Some(k) = first_index_of(t, ':') {
                assert(t[k] == ':');
            }
        },
        Some(i) => {
            assert(t[i] == s[i]);
            lemma_first_index_of_at(t, ':', i);
            assert(t.skip(i + 1) =~= s.skip(i + 1));
            let ks = s.take(i);
            let kt = t.take(i);
            assert(same_but_case(ks, kt)) by {
                assert forall|j: int| 0 <= j < ks.len() implies fold_case(#[trigger] ks[j]) == fold_case(kt[j]) by {
                    assert(ks[j] == s[j] && kt[j] == t[j]);
                }
            }
            lemma_trim_same_but_case(ks, kt);
            let a = trim(ks);
            let b = trim(kt);
            lemma_encode_same_but_case(a, b);
            let ea = encode_utf8(a);
            let eb = encode_utf8(b);
            assert(name_bytes_ok(ea) == name_bytes_ok(eb)) by {
                assert forall|j: int| 0 <= j < ea.len() implies is_token_byte(#[trigger] ea[j]) == is_token_byte(eb[j]) by {
                    assert(lower_byte(ea[j]) == lower_byte(eb[j]));
                    lemma_token_byte_fold(ea[j]);
                    lemma_token_byte_fold(eb[j]);
                }
                if name_bytes_ok(ea) {
                    assert forall|j: int| 0 <= j < eb.len() implies is_token_byte(#[trigger] eb[j]) by {
                        assert(is_token_byte(ea[j]) == is_token_byte(eb[j]));
                    }
                }
                if name_bytes_ok(eb) {
                    assert forall|j: int| 0 <= j < ea.len() implies is_token_byte(#[trigger] ea[j]) by {
                        assert(is_token_byte(ea[j]) == is_token_byte(eb[j]));
                    }
                }
            }
            assert(lowered_name(ea) =~= lowered_name(eb)) by {
                assert forall|j: int| 0 <= j < ea.len() implies lowered_name(ea)[j] == lowered_name(eb)[j] by {
                    assert(lower_byte(ea[j]) == lower_byte(eb[j]));
                }
            }
        },
    }
}

/// A byte is a token byte exactly when its small-letter form is.
proof fn lemma_token_byte_fold(b: u8)
    ensures
        is_token_byte(b) == is_token_byte(lower_byte(b)),
{
}

/// Texts that agree up to case trim to texts that agree up to case.
proof fn lemma_trim_same_but_case(a: Seq<char>, b: Seq<char>)
    requires
        same_but_case(a, b),
    ensures
        same_but_case(trim(a), trim(b)),
{
    lemma_trim_start_same_but_case(a, b);
    lemma_trim_end_same_but_case(trim_start(a), trim_start(b));
}

proof fn lemma_trim_start_same_but_case(a: Seq<char>, b: Seq<char>)
    requires
        same_but_case(a, b),
    ensures
        same_but_case(trim_start(a), trim_start(b)),
    decreases a.len(),
{
    if a.len() > 0 {
        lemma_fold_case_char(a[0]);
        lemma_fold_case_char(b[0]);
        assert(fold_case(a[0]) == fold_case(b[0]));
        if is_space(a[0]) {
            assert(same_but_case(a.drop_first(), b.drop_first())) by {
                assert forall|j: int| 0 <= j < a.drop_first().len() implies fold_case(
                    #[trigger] a.drop_first()[j],
                ) == fold_case(b.drop_first()[j]) by {
                    assert(fold_case(a[j + 1]) == fold_case(b[j + 1]));
                }
            }
            lemma_trim_start_same_but_case(a.drop_first(), b.drop_first());
        }
    }
}

proof fn lemma_trim_end_same_but_case(a: Seq<char>, b: Seq<char>)
    requires
        same_but_case(a, b),
    ensures
        same_but_case(trim_end(a), trim_end(b)),
    decreases a.len(),
{
    if a.len() > 0 {
        lemma_fold_case_char(a.last());
        lemma_fold_case_char(b.last());
        assert(fold_case(a[a.len() - 1]) == fold_case(b[a.len() - 1]));
        if is_space(a.last()) {
            assert(same_but_case(a.drop_last(), b.drop_last())) by {
                assert forall|j: int| 0 <= j < a.drop_last().len() implies fold_case(
                    #[trigger] a.drop_last()[j],
                ) == fold_case(b.drop_last()[j]) by {
                    assert(fold_case(a[j]) == fold_case(b[j]));
                }
            }
            lemma_trim_end_same_but_case(a.drop_last(), b.drop_last());
        }
    }
}

/// A header read from a line, written back as `name: value` with its value as
/// text, reads back as the same header.
pub proof fn law_header_line_round_trip(s: Seq<char>, t: Seq<char>)
    requires
        parse_header_spec(s) is Ok,
        encode_utf8(t) == parse_header_spec(s)->Ok_0.value,
    ensures
        ({
            let h = parse_header_spec(s)->Ok_0;
            parse_header_spec(h.name + ": "@ + t) == Ok::<HeaderView, HeaderErrorView>(h)
        }),
{
    let h = parse_header_spec(s)->Ok_0;
    lemma_first_index_of(s, ':');
    let i = first_index_of(s, ':')->Some_0;
    let key = trim(s.take(i));
    let bytes = encode_utf8(key);
    let val = trim(s.skip(i + 1));
    assert(h.name == lowered_name(bytes));
    assert(h.value == encode_utf8(val));
    encode_utf8_decode_utf8(t);
    encode_utf8_decode_utf8(val);
    assert(t == val);
    lemma_trim_edges(s.skip(i + 1));
    assert forall|k: int| 0 <= k < h.name.len() implies is_token_char(#[trigger] h.name[k]) by {
        assert(is_token_byte(bytes[k]));
        assert(h.name[k] == lower_byte(bytes[k]) as char);
    }
    let empty = Seq::<char>::empty();
    let space = seq![' '];
    law_header_line_read(empty, h.name, empty, space, t, empty);
    reveal_strlit(": ");
    assert(h.name + ": "@ + t =~= empty + h.name + empty + seq![':'] + space + t + empty);
    lemma_token_name_bytes(h.name);
    assert(lowered_name(encode_utf8(h.name)) =~= h.name) by {
        assert forall|k: int| 0 <= k < h.name.len() implies lowered_name(encode_utf8(h.name))[k] == h.name[k] by {
            let b = bytes[k];
            assert(h.name[k] == lower_byte(b) as char);
            assert(encode_utf8(h.name)[k] == h.name[k] as u8);
        }
    }
}

} // verus!
