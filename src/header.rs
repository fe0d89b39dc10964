//! Header values: which texts can be carried in one, and the list form in which several
//! model texts share a header, separated by `", "`.
use vstd::prelude::*;
use vstd::string::StringSliceAdditionalSpecFns;
use hyper::header::{HeaderValue, InvalidHeaderValue, ToStrError};
use crate::codec::{DecodeErrorView, FieldSpec, ScalarView, decode};
use crate::text::{chars_of, join, split};

verus! {

broadcast use vstd::string::group_string_axioms;

/// hyper's header value, opaque here: what it holds is known through [`header_bytes`].
#[verifier::external_type_specification]
#[verifier::external_body]
pub struct ExHeaderValue(HeaderValue);

/// The error of `HeaderValue::from_str`, opaque.
#[verifier::external_type_specification]
#[verifier::external_body]
pub struct ExInvalidHeaderValue(InvalidHeaderValue);

/// The error of `HeaderValue::to_str`, opaque.
#[verifier::external_type_specification]
#[verifier::external_body]
pub struct ExToStrError(ToStrError);

/// The bytes that a header value holds.
pub uninterp spec fn header_bytes(h: HeaderValue) -> Seq<u8>;

/// A byte that a header value may hold: a tab, or any byte from 32 up but 127.
pub open spec fn header_byte(b: u8) -> bool {
    (b >= 32 && b != 127) || b == 9
}

/// A byte that reads as text in a header: a tab or visible ASCII.
pub open spec fn visible_byte(b: u8) -> bool {
    (32 <= b && b < 127) || b == 9
}

/// Relies on `HeaderValue::from_str`: it accepts a text exactly when each of its bytes is
/// a tab or at least 32 and not 127, and the value then holds those bytes.
pub assume_specification[ HeaderValue::from_str ](src: &str) -> (r: Result<
    HeaderValue,
    InvalidHeaderValue,
>)
    ensures
        r is Ok <==> forall|i: int|
            0 <= i < src.spec_bytes().len() ==> header_byte(#[trigger] src.spec_bytes()[i]),
        r is Ok ==> header_bytes(r->Ok_0) == src.spec_bytes(),
;

/// Relies on `HeaderValue::to_str`: it succeeds exactly when each byte is a tab or visible
/// ASCII, and then yields those bytes as characters.
pub assume_specification[ HeaderValue::to_str ](h: &HeaderValue) -> (r: Result<&str, ToStrError>)
    ensures
        r is Ok <==> forall|i: int|
            0 <= i < header_bytes(*h).len() ==> visible_byte(#[trigger] header_bytes(*h)[i]),
        r is Ok ==> r->Ok_0@ == bytes_text(header_bytes(*h)),
;

/// A character that a header carries as it is: a tab or visible ASCII.
pub open spec fn header_char(c: char) -> bool {
    c == '\t' || (' ' <= c && c <= '~')
}

pub open spec fn header_safe(s: Seq<char>) -> bool {
    forall|i: int| 0 <= i < s.len() ==> header_char(#[trigger] s[i])
}

pub open spec fn ascii_bytes(s: Seq<char>) -> Seq<u8> {
    s.map_values(|c: char| c as u8)
}

pub open spec fn bytes_text(b: Seq<u8>) -> Seq<char> {
    b.map_values(|x: u8| x as char)
}

pub open spec fn readable(b: Seq<u8>) -> bool {
    forall|i: int| 0 <= i < b.len() ==> visible_byte(#[trigger] b[i])
}

/// The bytes of a header carrying the text `s`, if a header can carry it.
pub open spec fn header_of(s: Seq<char>) -> Option<Seq<u8>> {
    if header_safe(s) {
        Some(ascii_bytes(s))
    } else {
        None
    }
}

/// A header carrying a safe text reads back as that text.
pub proof fn lemma_header_text(s: Seq<char>)
    requires
        header_safe(s),
    ensures
        readable(ascii_bytes(s)),
        bytes_text(ascii_bytes(s)) == s,
{
    assert forall|i: int| 0 <= i < s.len() implies ((s[i] as u8) as char) == s[i] by {
        assert(header_char(s[i]));
    }
    assert(bytes_text(ascii_bytes(s)) =~= s);
}

/// Whether every character of `chars` can stand in a header.
pub fn is_header_safe(chars: &Vec<char>) -> (b: bool)
    ensures
        b == header_safe(chars@),
{
    let mut i: usize = 0;
    while i < chars.len()
        invariant
            0 <= i <= chars@.len(),
            forall|j: int| 0 <= j < i ==> header_char(#[trigger] chars@[j]),
        decreases chars@.len() - i,
    {
        let c = chars[i];
        if !(c == '\t' || (' ' <= c && c <= '~')) {
            return false;
        }
        i = i + 1;
    }
    true
}

/// A header value that carries `text`, refused when some character of it is not a tab or
/// visible ASCII.
pub fn text_header(text: &str) -> (r: Result<HeaderValue, crate::codec::EncodeError>)
    ensures
        match r {
            Ok(h) => header_of(text@) == Some(header_bytes(h)),
            Err(e) => header_of(text@) is None && e == crate::codec::EncodeError::InvalidHeaderBytes,
        },
{
    let chars = chars_of(text);
    if !is_header_safe(&chars) {
        return Err(crate::codec::EncodeError::InvalidHeaderBytes);
    }
    proof {
        assert(vstd::utf8::is_ascii_chars(text@)) by {
            assert forall|i: int| 0 <= i < text@.len() implies '\0' <= #[trigger] text@[i]
                <= '\u{7f}' by {
                assert(header_char(chars@[i]));
            }
        }
        vstd::string::is_ascii_spec_bytes(text);
        assert(text.spec_bytes() =~= ascii_bytes(text@));
        assert forall|i: int| 0 <= i < text.spec_bytes().len() implies header_byte(
            #[trigger] text.spec_bytes()[i],
        ) by {
            assert(header_char(chars@[i]));
        }
    }
    match HeaderValue::from_str(text) {
        Ok(h) => Ok(h),
        Err(_) => Err(crate::codec::EncodeError::InvalidHeaderBytes),
    }
}

/// A space or a tab.
pub open spec fn is_blank(c: char) -> bool {
    c == ' ' || c == '\t'
}

pub open spec fn trim_start(s: Seq<char>) -> Seq<char>
    decreases s.len(),
{
    if s.len() > 0 && is_blank(s[0]) {
        trim_start(s.drop_first())
    } else {
        s
    }
}

pub open spec fn trim_end(s: Seq<char>) -> Seq<char>
    decreases s.len(),
{
    if s.len() > 0 && is_blank(s.last()) {
        trim_end(s.drop_last())
    } else {
        s
    }
}

/// `s` without the spaces and tabs at either end.
pub open spec fn trim(s: Seq<char>) -> Seq<char> {
    trim_end(trim_start(s))
}

/// The texts of several values, separated by `", "`.
pub open spec fn list_text(texts: Seq<Seq<char>>) -> Seq<char> {
    join(texts, seq![',', ' '])
}

/// Reading the segments of a list from left to right: blank segments are skipped, each
/// other segment is read as one value, and the first bad segment decides the error.
pub open spec fn decode_segments(schema: Seq<FieldSpec>, segs: Seq<Seq<char>>) -> Result<
    Seq<Seq<Option<ScalarView>>>,
    DecodeErrorView,
>
    decreases segs.len(),
{
    if segs.len() == 0 {
        Ok(Seq::empty())
    } else {
        match decode_segments(schema, segs.drop_last()) {
            Err(e) => Err(e),
            Ok(done) => {
                let t = trim(segs.last());
                if t.len() == 0 {
                    Ok(done)
                } else {
                    match decode(schema, t) {
                        Err(e) => Err(e),
                        Ok(v) => Ok(done.push(v)),
                    }
                }
            },
        }
    }
}

/// The values that a list text describes: its pieces between commas, each trimmed.
pub open spec fn decode_list(schema: Seq<FieldSpec>, s: Seq<char>) -> Result<
    Seq<Seq<Option<ScalarView>>>,
    DecodeErrorView,
> {
    decode_segments(schema, split(s, ','))
}

/// The values that a header describes, read as a list.
pub open spec fn decode_header_list(schema: Seq<FieldSpec>, b: Seq<u8>) -> Result<
    Seq<Seq<Option<ScalarView>>>,
    DecodeErrorView,
> {
    if readable(b) {
        decode_list(schema, bytes_text(b))
    } else {
        Err(DecodeErrorView::InvalidHeaderEncoding)
    }
}

/// The value that a header describes.
pub open spec fn decode_header(schema: Seq<FieldSpec>, b: Seq<u8>) -> Result<
    Seq<Option<ScalarView>>,
    DecodeErrorView,
> {
    if readable(b) {
        decode(schema, bytes_text(b))
    } else {
        Err(DecodeErrorView::InvalidHeaderEncoding)
    }
}

/// The text that a header holds, or `None` when some byte is not a tab or visible ASCII.
pub fn header_str(h: &HeaderValue) -> (r: Option<&str>)
    ensures
        match r {
            Some(s) => readable(header_bytes(*h)) && s@ == bytes_text(header_bytes(*h)),
            None => !readable(header_bytes(*h)),
        },
{
    match h.to_str() {
        Ok(s) => Some(s),
        Err(_) => None,
    }
}

/// Skips the spaces and tabs at both ends of `chars[lo..hi]`.
pub(crate) fn trim_range(chars: &Vec<char>, lo: usize, hi: usize) -> (r: (usize, usize))
    requires
        lo <= hi <= chars@.len(),
    ensures
        lo <= r.0 <= r.1 <= hi,
        chars@.subrange(r.0 as int, r.1 as int) == trim(chars@.subrange(lo as int, hi as int)),
{
    let mut a: usize = lo;
    while a < hi && (chars[a] == ' ' || chars[a] == '\t')
        invariant
            lo <= a <= hi <= chars@.len(),
            trim_start(chars@.subrange(lo as int, hi as int)) == trim_start(
                chars@.subrange(a as int, hi as int),
            ),
        decreases hi - a,
    {
        assert(chars@.subrange(a as int, hi as int).drop_first() =~= chars@.subrange(
            a + 1,
            hi as int,
        ));
        a = a + 1;
    }
    let mut b: usize = hi;
    while b > a && (chars[b - 1] == ' ' || chars[b - 1] == '\t')
        invariant
            lo <= a <= b <= hi <= chars@.len(),
            trim_end(chars@.subrange(a as int, hi as int)) == trim_end(
                chars@.subrange(a as int, b as int),
            ),
        decreases b - a,
    {
        assert(chars@.subrange(a as int, b as int).drop_last() =~= chars@.subrange(
            a as int,
            b - 1,
        ));
        b = b - 1;
    }
    (a, b)
}

} // verus!
