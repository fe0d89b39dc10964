//! The behaviour that every model shares: a model names its fields, and the text and
//! header forms follow from them.
use vstd::prelude::*;
use hyper::header::HeaderValue;
use crate::codec::{
    DecodeError, DecodeErrorView, EncodeError, Field, FieldSpec, Scalar, ScalarView, decode,
    decode_fields, encode, encode_fields, fields_typed, lemma_decode_tokens_typed, schema_view,
    schema_well_formed, text_tokens, values_view,
};
use crate::header::{
    decode_header, decode_header_list, decode_list, decode_segments, header_bytes, header_of,
    header_str, list_text, text_header, trim, trim_range,
};
use crate::text::{chars_of, lemma_split_concat, split};

verus! {

broadcast use vstd::string::group_string_axioms;

/// Once a segment fails, reading more segments keeps that failure.
proof fn lemma_decode_segments_failed(
    schema: Seq<FieldSpec>,
    done: Seq<Seq<char>>,
    more: Seq<Seq<char>>,
)
    requires
        decode_segments(schema, done) is Err,
    ensures
        decode_segments(schema, done + more) == decode_segments(schema, done),
    decreases more.len(),
{
    if more.len() == 0 {
        assert(done + more =~= done);
    } else {
        lemma_decode_segments_failed(schema, done, more.drop_last());
        assert((done + more).drop_last() =~= done + more.drop_last());
    }
}

/// A record or request value of the API, described by its list of fields.
pub trait Model: Sized {
    /// The names and kinds of the fields, in declared order.
    spec fn schema() -> Seq<FieldSpec>;

    /// The fields of this value, in declared order; `None` for an absent field.
    spec fn field_values(&self) -> Seq<Option<ScalarView>>;

    proof fn lemma_schema()
        ensures
            schema_well_formed(Self::schema()),
    ;

    proof fn lemma_field_values(&self)
        ensures
            fields_typed(Self::schema(), self.field_values()),
    ;

    /// The fields, for the codec.
    fn fields() -> (r: Vec<Field>)
        ensures
            schema_view(r@) == Self::schema(),
    ;

    /// The field values of this value.
    fn to_fields(&self) -> (r: Vec<Option<Scalar>>)
        ensures
            values_view(r@) == self.field_values(),
    ;

    /// The value with the given field values, when they are typed by the fields.
    fn from_fields(values: Vec<Option<Scalar>>) -> (r: Self)
        ensures
            fields_typed(Self::schema(), values_view(values@)) ==> r.field_values() == values_view(
                values@,
            ),
    ;

    /// The text form: `name=value` for each present field, in field order, joined with `,`.
    fn to_text(&self) -> (r: String)
        ensures
            r@ == encode(Self::schema(), self.field_values()),
    {
        let fields = Self::fields();
        let values = self.to_fields();
        proof {
            self.lemma_field_values();
        }
        encode_fields(&fields, &values)
    }

    /// Reads a value from its text form.
    fn from_text(text: &str) -> (r: Result<Self, DecodeError>)
        ensures
            match r {
                Ok(v) => decode(Self::schema(), text@) == Ok::<_, DecodeErrorView>(v.field_values()),
                Err(e) => decode(Self::schema(), text@) == Err::<Seq<Option<ScalarView>>, DecodeErrorView>(e.view()),
            },
    {
        let chars = chars_of(text);
        let fields = Self::fields();
        let r = decode_fields(&fields, text, &chars, 0, chars.len());
        proof {
            assert(chars@.subrange(0, chars@.len() as int) =~= text@);
        }
        match r {
            Ok(values) => {
                proof {
                    lemma_decode_tokens_typed(Self::schema(), text_tokens(text@));
                }
                Ok(Self::from_fields(values))
            },
            Err(e) => Err(e),
        }
    }

    /// A header value carrying the text form; refused when the text holds a character that
    /// is not a tab or visible ASCII.
    fn to_header(&self) -> (r: Result<HeaderValue, EncodeError>)
        ensures
            match r {
                Ok(h) => header_of(encode(Self::schema(), self.field_values())) == Some(
                    header_bytes(h),
                ),
                Err(e) => header_of(encode(Self::schema(), self.field_values())) is None && e
                    == EncodeError::InvalidHeaderBytes,
            },
    {
        let text = self.to_text();
        text_header(text.as_str())
    }

    /// Reads a value from a header value.
    fn from_header(h: &HeaderValue) -> (r: Result<Self, DecodeError>)
        ensures
            match r {
                Ok(v) => decode_header(Self::schema(), header_bytes(*h)) == Ok::<_, DecodeErrorView>(v.field_values()),
                Err(e) => decode_header(Self::schema(), header_bytes(*h)) == Err::<Seq<Option<ScalarView>>, DecodeErrorView>(
                    e.view(),
                ),
            },
    {
        match header_str(h) {
            Some(s) => Self::from_text(s),
            None => Err(DecodeError::InvalidHeaderEncoding),
        }
    }

    /// The text forms of `items`, separated by `", "`.
    fn to_text_list(items: &Vec<Self>) -> (r: String)
        ensures
            r@ == list_text(items@.map_values(|m: Self| encode(Self::schema(), m.field_values()))),
    {
        proof {
            reveal_strlit(", ");
        }
        let mut out = String::new();
        let mut i: usize = 0;
        while i < items.len()
            invariant
                0 <= i <= items@.len(),
                out@ == list_text(items@.take(i as int).map_values(|m: Self| encode(Self::schema(), m.field_values()))),
            decreases items@.len() - i,
        {
            proof {
                reveal_strlit(", ");
            }
            let ghost prev = items@.take(i as int).map_values(|m: Self| encode(Self::schema(), m.field_values()));
            if i > 0 {
                out.append(", ");
            }
            let t = items[i].to_text();
            out.append(t.as_str());
            proof {
                let next = items@.take(i as int + 1).map_values(|m: Self| encode(Self::schema(), m.field_values()));
                assert(next.drop_last() =~= prev);
                assert(next.last() == t@);
                assert(out@ =~= list_text(next));
            }
            i = i + 1;
        }
        assert(items@.take(items@.len() as int) =~= items@);
        out
    }

    /// A header value carrying the list form of `items`; refused when the text holds a
    /// character that is not a tab or visible ASCII.
    fn to_header_list(items: &Vec<Self>) -> (r: Result<HeaderValue, EncodeError>)
        ensures
            match r {
                Ok(h) => header_of(list_text(items@.map_values(|m: Self| encode(Self::schema(), m.field_values())))) == Some(header_bytes(h)),
                Err(e) => header_of(list_text(items@.map_values(|m: Self| encode(Self::schema(), m.field_values())))) is None && e
                    == EncodeError::InvalidHeaderBytes,
            },
    {
        let text = Self::to_text_list(items);
        text_header(text.as_str())
    }

    /// Reads one segment `chars[lo..hi]` of a list: `None` when it is blank.
    fn decode_segment(text: &str, chars: &Vec<char>, lo: usize, hi: usize) -> (r: Result<
        Option<Self>,
        DecodeError,
    >)
        requires
            chars@ == text@,
            lo <= hi <= chars@.len(),
        ensures
            ({
                let t = trim(chars@.subrange(lo as int, hi as int));
                match r {
                    Ok(None) => t.len() == 0,
                    Ok(Some(m)) => t.len() > 0 && decode(Self::schema(), t) == Ok::<
                        _,
                        DecodeErrorView,
                    >(m.field_values()),
                    Err(e) => t.len() > 0 && decode(Self::schema(), t) == Err::<
                        Seq<Option<ScalarView>>,
                        _,
                    >(e@),
                }
            }),
    {
        let (a, b) = trim_range(chars, lo, hi);
        if a == b {
            return Ok(None);
        }
        let fields = Self::fields();
        match decode_fields(&fields, text, chars, a, b) {
            Ok(values) => {
                proof {
                    lemma_decode_tokens_typed(
                        Self::schema(),
                        text_tokens(chars@.subrange(a as int, b as int)),
                    );
                }
                Ok(Some(Self::from_fields(values)))
            },
            Err(e) => Err(e),
        }
    }

    /// Reads values from their list form: the pieces between commas, each trimmed of
    /// spaces and tabs, blank pieces skipped.
    fn from_text_list(text: &str) -> (r: Result<Vec<Self>, DecodeError>)
        ensures
            match r {
                Ok(v) => decode_list(Self::schema(), text@) == Ok::<_, DecodeErrorView>(v@.map_values(|m: Self| m.field_values())),
                Err(e) => decode_list(Self::schema(), text@) == Err::<Seq<Seq<Option<ScalarView>>>, DecodeErrorView>(
                    e.view(),
                ),
            },
    {
        let chars = chars_of(text);
        let ghost s = chars@;
        let mut out: Vec<Self> = Vec::new();
        let mut start: usize = 0;
        let mut i: usize = 0;
        assert(s.take(0) =~= Seq::<char>::empty());
        assert(chars@.subrange(0, 0) =~= Seq::<char>::empty());
        assert(split(s.take(0), ',').drop_last() =~= Seq::<Seq<char>>::empty());
        assert(out@.map_values(|m: Self| m.field_values()) =~= Seq::<
            Seq<Option<ScalarView>>,
        >::empty());
        while i < chars.len()
            invariant
                0 <= start <= i <= chars@.len(),
                chars@ == text@,
                s == chars@,
                split(s.take(i as int), ',').len() >= 1,
                split(s.take(i as int), ',').last() == chars@.subrange(start as int, i as int),
                decode_segments(Self::schema(), split(s.take(i as int), ',').drop_last()) == Ok::<
                    _,
                    DecodeErrorView,
                >(out@.map_values(|m: Self| m.field_values())),
            decreases chars@.len() - i,
        {
            let ghost done = split(s.take(i as int), ',');
            let ghost ext = s.take(i as int + 1);
            assert(ext.drop_last() =~= s.take(i as int));
            assert(ext.last() == chars@[i as int]);
            if chars[i] == ',' {
                assert(done.drop_last().push(done.last()) =~= done);
                match Self::decode_segment(text, &chars, start, i) {
                    Ok(None) => {},
                    Ok(Some(m)) => {
                        let ghost before = out@.map_values(|m: Self| m.field_values());
                        out.push(m);
                        assert(out@.map_values(|m: Self| m.field_values()) =~= before.push(m.field_values()));
                    },
                    Err(e) => {
                        proof {
                            let rest = s.skip(i as int + 1);
                            assert(s =~= s.take(i as int).push(',') + rest);
                            lemma_split_concat(s.take(i as int), rest, ',');
                            lemma_decode_segments_failed(Self::schema(), done, split(rest, ','));
                        }
                        return Err(e);
                    },
                }
                start = i + 1;
                assert(split(ext, ',').drop_last() =~= done);
                assert(chars@.subrange(start as int, i + 1) =~= Seq::<char>::empty());
            } else {
                assert(split(ext, ',').last() =~= chars@.subrange(start as int, i + 1));
                assert(split(ext, ',').drop_last() =~= done.drop_last());
            }
            i = i + 1;
        }
        assert(s.take(chars@.len() as int) =~= s);
        let ghost done = split(s, ',');
        assert(done.drop_last().push(done.last()) =~= done);
        match Self::decode_segment(text, &chars, start, chars.len()) {
            Ok(None) => Ok(out),
            Ok(Some(m)) => {
                let ghost before = out@.map_values(|m: Self| m.field_values());
                out.push(m);
                assert(out@.map_values(|m: Self| m.field_values()) =~= before.push(m.field_values()));
                Ok(out)
            },
            Err(e) => Err(e),
        }
    }

    /// Reads values from a header value in list form.
    fn from_header_list(h: &HeaderValue) -> (r: Result<Vec<Self>, DecodeError>)
        ensures
            match r {
                Ok(v) => decode_header_list(Self::schema(), header_bytes(*h)) == Ok::<_, DecodeErrorView>(v@.map_values(|m: Self| m.field_values())),
                Err(e) => decode_header_list(Self::schema(), header_bytes(*h)) == Err::<
                    Seq<Seq<Option<ScalarView>>>,
                    DecodeErrorView,
                >(e.view()),
            },
    {
        match header_str(h) {
            Some(s) => Self::from_text_list(s),
            None => Err(DecodeError::InvalidHeaderEncoding),
        }
    }
}

} // verus!
