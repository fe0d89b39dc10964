//! The text form of a model: its present fields as `name=value` tokens, in declared
//! order, joined with `,`. One codec serves every model, driven by the model's list of
//! fields.
use vstd::prelude::*;
use crate::scalar::{append_i32, decimal_text, parse_i32, parse_i32_in};
use crate::text::{
    all_free_of, free_of, join, lemma_join_len, lemma_split_concat, lemma_split_join, split,
    spells,
};

verus! {

broadcast use vstd::string::group_string_axioms;

/// The scalar type of a model field.
#[derive(Clone, Copy, Debug, PartialEq, Eq, Structural)]
pub enum FieldKind {
    Integer,
    Text,
}

/// A field of a model, as the codec sees it: its wire name and its kind.
#[derive(Clone, Copy, Debug)]
pub struct Field {
    pub name: &'static str,
    pub kind: FieldKind,
}

/// The mathematical form of a [`Field`].
pub struct FieldSpec {
    pub name: Seq<char>,
    pub kind: FieldKind,
}

impl View for Field {
    type V = FieldSpec;

    open spec fn view(&self) -> FieldSpec {
        FieldSpec { name: self.name@, kind: self.kind }
    }
}

/// The value of a present field.
#[derive(Debug, PartialEq)]
pub enum Scalar {
    Integer(i32),
    Text(String),
}

/// The mathematical form of a [`Scalar`].
pub enum ScalarView {
    Integer(i32),
    Text(Seq<char>),
}

impl View for Scalar {
    type V = ScalarView;

    open spec fn view(&self) -> ScalarView {
        match self {
            Scalar::Integer(n) => ScalarView::Integer(*n),
            Scalar::Text(s) => ScalarView::Text(s@),
        }
    }
}

/// Why a text could not be read as a model.
#[derive(Debug, PartialEq)]
pub enum DecodeError {
    /// A token names no field of the model.
    UnexpectedKey(String),
    /// A token has a key but no `=` and value after it.
    MissingValue(String),
    /// The value of the named field is not of the field's kind.
    InvalidScalar(String, String),
    /// A header value holds bytes that are not visible ASCII.
    InvalidHeaderEncoding,
}

/// The mathematical form of a [`DecodeError`].
pub enum DecodeErrorView {
    UnexpectedKey(Seq<char>),
    MissingValue(Seq<char>),
    InvalidScalar(Seq<char>, Seq<char>),
    InvalidHeaderEncoding,
}

impl View for DecodeError {
    type V = DecodeErrorView;

    open spec fn view(&self) -> DecodeErrorView {
        match self {
            DecodeError::UnexpectedKey(k) => DecodeErrorView::UnexpectedKey(k@),
            DecodeError::MissingValue(k) => DecodeErrorView::MissingValue(k@),
            DecodeError::InvalidScalar(k, raw) => DecodeErrorView::InvalidScalar(k@, raw@),
            DecodeError::InvalidHeaderEncoding => DecodeErrorView::InvalidHeaderEncoding,
        }
    }
}

/// Why a value could not be written as a header.
#[derive(Clone, Copy, Debug, PartialEq, Eq, Structural)]
pub enum EncodeError {
    /// The text holds a character that is not visible ASCII.
    InvalidHeaderBytes,
}

pub open spec fn schema_view(fields: Seq<Field>) -> Seq<FieldSpec> {
    fields.map_values(|f: Field| f@)
}

pub open spec fn entry_view(o: Option<Scalar>) -> Option<ScalarView> {
    match o {
        Some(s) => Some(s@),
        None => None,
    }
}

pub open spec fn values_view(values: Seq<Option<Scalar>>) -> Seq<Option<ScalarView>> {
    values.map_values(|o: Option<Scalar>| entry_view(o))
}

/// The entry of an optional text field.
pub open spec fn text_entry(v: Option<String>) -> Option<ScalarView> {
    match v {
        Some(s) => Some(ScalarView::Text(s@)),
        None => None,
    }
}

/// The entry of an optional integer field.
pub open spec fn integer_entry(v: Option<i32>) -> Option<ScalarView> {
    match v {
        Some(n) => Some(ScalarView::Integer(n)),
        None => None,
    }
}

/// The entry of an optional text field, for the codec.
pub fn text_scalar(v: &Option<String>) -> (r: Option<Scalar>)
    ensures
        entry_view(r) == text_entry(*v),
{
    match v {
        Some(s) => Some(Scalar::Text(s.clone())),
        None => None,
    }
}

/// The entry of an optional integer field, for the codec.
pub fn integer_scalar(v: Option<i32>) -> (r: Option<Scalar>)
    ensures
        entry_view(r) == integer_entry(v),
{
    match v {
        Some(n) => Some(Scalar::Integer(n)),
        None => None,
    }
}

/// The text held by entry `i`; `None` when there is none, or it is absent or not text.
pub fn text_at(values: &Vec<Option<Scalar>>, i: usize) -> (r: Option<String>)
    ensures
        i < values@.len() && (entry_view(values@[i as int]) is Some ==> kind_of(
            entry_view(values@[i as int])->0,
        ) == FieldKind::Text) ==> text_entry(r) == entry_view(values@[i as int]),
{
    if i >= values.len() {
        return None;
    }
    match &values[i] {
        Some(Scalar::Text(s)) => Some(s.clone()),
        _ => None,
    }
}

/// The integer held by entry `i`; `None` when there is none, or it is absent or not an
/// integer.
pub fn integer_at(values: &Vec<Option<Scalar>>, i: usize) -> (r: Option<i32>)
    ensures
        i < values@.len() && (entry_view(values@[i as int]) is Some ==> kind_of(
            entry_view(values@[i as int])->0,
        ) == FieldKind::Integer) ==> integer_entry(r) == entry_view(values@[i as int]),
{
    if i >= values.len() {
        return None;
    }
    match &values[i] {
        Some(Scalar::Integer(n)) => Some(*n),
        _ => None,
    }
}

pub open spec fn kind_of(v: ScalarView) -> FieldKind {
    match v {
        ScalarView::Integer(_) => FieldKind::Integer,
        ScalarView::Text(_) => FieldKind::Text,
    }
}

/// A character that may stand in a field name: visible ASCII, but no `,` or `=`.
pub open spec fn name_char(c: char) -> bool {
    '!' <= c <= '~' && c != ',' && c != '='
}

/// Field names are non-empty, hold no separator or blank, and are pairwise distinct.
pub open spec fn schema_well_formed(schema: Seq<FieldSpec>) -> bool {
    &&& forall|i: int| 0 <= i < schema.len() ==> (#[trigger] schema[i]).name.len() > 0
    &&& forall|i: int, k: int|
        0 <= i < schema.len() && 0 <= k < schema[i].name.len() ==> name_char(
            #[trigger] schema[i].name[k],
        )
    &&& forall|i: int, j: int|
        0 <= i < schema.len() && 0 <= j < schema.len() && i != j ==> (#[trigger] schema[i]).name
            != (#[trigger] schema[j]).name
}

/// One entry per field, each absent or of the field's kind.
pub open spec fn fields_typed(schema: Seq<FieldSpec>, values: Seq<Option<ScalarView>>) -> bool {
    &&& values.len() == schema.len()
    &&& forall|i: int|
        0 <= i < values.len() && (#[trigger] values[i]) is Some ==> kind_of(values[i]->0)
            == schema[i].kind
}

pub open spec fn all_absent(values: Seq<Option<ScalarView>>) -> bool {
    forall|i: int| 0 <= i < values.len() ==> (#[trigger] values[i]) is None
}

/// The field is absent, or not text, or text without the character `c`.
pub open spec fn entry_free_of(v: Option<ScalarView>, c: char) -> bool {
    match v {
        Some(ScalarView::Text(s)) => free_of(s, c),
        _ => true,
    }
}

/// No text field holds the character `c`.
pub open spec fn text_free_of(values: Seq<Option<ScalarView>>, c: char) -> bool {
    forall|i: int| 0 <= i < values.len() ==> entry_free_of(#[trigger] values[i], c)
}

/// The natural text of a value: decimal for integers, the text itself for text.
pub open spec fn render(v: ScalarView) -> Seq<char> {
    match v {
        ScalarView::Integer(n) => decimal_text(n as int),
        ScalarView::Text(s) => s,
    }
}

pub open spec fn field_token(name: Seq<char>, v: ScalarView) -> Seq<char> {
    name + seq!['='] + render(v)
}

/// The `name=value` tokens of the present fields, in field order.
pub open spec fn present_tokens(
    schema: Seq<FieldSpec>,
    values: Seq<Option<ScalarView>>,
) -> Seq<Seq<char>>
    decreases values.len(),
{
    if values.len() == 0 {
        Seq::empty()
    } else {
        let prev = present_tokens(schema, values.drop_last());
        match values.last() {
            Some(v) => prev.push(field_token(schema[values.len() - 1].name, v)),
            None => prev,
        }
    }
}

/// The text form of a model whose fields are `values`.
pub open spec fn encode(schema: Seq<FieldSpec>, values: Seq<Option<ScalarView>>) -> Seq<char> {
    join(present_tokens(schema, values), seq![','])
}

/// The tokens of a text: none for the empty text, else the pieces between commas.
pub open spec fn text_tokens(s: Seq<char>) -> Seq<Seq<char>> {
    if s.len() == 0 {
        Seq::empty()
    } else {
        split(s, ',')
    }
}

pub open spec fn is_first(s: Seq<char>, c: char, i: int) -> bool {
    &&& 0 <= i < s.len()
    &&& s[i] == c
    &&& forall|j: int| 0 <= j < i ==> s[j] != c
}

/// The position of the first `c` in `s`, or -1.
pub open spec fn first_index(s: Seq<char>, c: char) -> int {
    if exists|i: int| is_first(s, c, i) {
        choose|i: int| is_first(s, c, i)
    } else {
        -1
    }
}

pub open spec fn is_first_field(schema: Seq<FieldSpec>, key: Seq<char>, i: int) -> bool {
    &&& 0 <= i < schema.len()
    &&& schema[i].name == key
    &&& forall|j: int| 0 <= j < i ==> schema[j].name != key
}

/// The position of the field called `key`, or -1.
pub open spec fn field_index(schema: Seq<FieldSpec>, key: Seq<char>) -> int {
    if exists|i: int| is_first_field(schema, key, i) {
        choose|i: int| is_first_field(schema, key, i)
    } else {
        -1
    }
}

/// Reading one token: the key before its first `=`, the value after it.
pub open spec fn decode_token(schema: Seq<FieldSpec>, tok: Seq<char>) -> Result<
    (int, ScalarView),
    DecodeErrorView,
> {
    let eq = first_index(tok, '=');
    if eq < 0 {
        Err(DecodeErrorView::MissingValue(tok))
    } else {
        let key = tok.take(eq);
        let raw = tok.skip(eq + 1);
        let i = field_index(schema, key);
        if i < 0 {
            Err(DecodeErrorView::UnexpectedKey(key))
        } else {
            match schema[i].kind {
                FieldKind::Integer => match parse_i32(raw) {
                    Some(n) => Ok((i, ScalarView::Integer(n))),
                    None => Err(DecodeErrorView::InvalidScalar(key, raw)),
                },
                FieldKind::Text => Ok((i, ScalarView::Text(raw))),
            }
        }
    }
}

/// Reading tokens from left to right, from all fields absent; a later token for a field
/// replaces an earlier one, and the first bad token decides the error.
pub open spec fn decode_tokens(schema: Seq<FieldSpec>, toks: Seq<Seq<char>>) -> Result<
    Seq<Option<ScalarView>>,
    DecodeErrorView,
>
    decreases toks.len(),
{
    if toks.len() == 0 {
        Ok(Seq::new(schema.len(), |i: int| None))
    } else {
        match decode_tokens(schema, toks.drop_last()) {
            Err(e) => Err(e),
            Ok(values) => match decode_token(schema, toks.last()) {
                Err(e) => Err(e),
                Ok((i, v)) => Ok(values.update(i, Some(v))),
            },
        }
    }
}

/// The fields that a text describes, or why it describes none.
pub open spec fn decode(schema: Seq<FieldSpec>, s: Seq<char>) -> Result<
    Seq<Option<ScalarView>>,
    DecodeErrorView,
> {
    decode_tokens(schema, text_tokens(s))
}

pub open spec fn values_result_view(r: Result<Vec<Option<Scalar>>, DecodeError>) -> Result<
    Seq<Option<ScalarView>>,
    DecodeErrorView,
> {
    match r {
        Ok(v) => Ok(values_view(v@)),
        Err(e) => Err(e@),
    }
}

proof fn lemma_first_index(s: Seq<char>, c: char, i: int)
    requires
        is_first(s, c, i),
    ensures
        first_index(s, c) == i,
{
    let k = first_index(s, c);
    assert(is_first(s, c, k));
    if k < i {
        assert(s[k] != c);
    } else if k > i {
        assert(s[i] != c);
    }
}

proof fn lemma_field_index(schema: Seq<FieldSpec>, key: Seq<char>, i: int)
    requires
        is_first_field(schema, key, i),
    ensures
        field_index(schema, key) == i,
{
    let k = field_index(schema, key);
    assert(is_first_field(schema, key, k));
    if k < i {
        assert(schema[k].name != key);
    } else if k > i {
        assert(schema[i].name != key);
    }
}

proof fn lemma_decode_token_typed(schema: Seq<FieldSpec>, tok: Seq<char>)
    ensures
        decode_token(schema, tok) matches Ok((i, v)) ==> 0 <= i < schema.len() && kind_of(v)
            == schema[i].kind,
{
    let eq = first_index(tok, '=');
    if eq >= 0 {
        let key = tok.take(eq);
        let i = field_index(schema, key);
        if i >= 0 {
            assert(is_first_field(schema, key, i));
        }
    }
}

/// What decoding yields is typed by the schema.
pub proof fn lemma_decode_tokens_typed(schema: Seq<FieldSpec>, toks: Seq<Seq<char>>)
    ensures
        decode_tokens(schema, toks) matches Ok(values) ==> fields_typed(schema, values),
    decreases toks.len(),
{
    if toks.len() > 0 {
        lemma_decode_tokens_typed(schema, toks.drop_last());
        lemma_decode_token_typed(schema, toks.last());
    }
}

/// Once a token fails, reading more tokens keeps that failure.
proof fn lemma_decode_tokens_failed(
    schema: Seq<FieldSpec>,
    done: Seq<Seq<char>>,
    more: Seq<Seq<char>>,
)
    requires
        decode_tokens(schema, done) is Err,
    ensures
        decode_tokens(schema, done + more) == decode_tokens(schema, done),
    decreases more.len(),
{
    if more.len() == 0 {
        assert(done + more =~= done);
    } else {
        lemma_decode_tokens_failed(schema, done, more.drop_last());
        assert((done + more).drop_last() =~= done + more.drop_last());
    }
}

proof fn lemma_token_free_of_comma(name: Seq<char>, v: ScalarView)
    requires
        forall|k: int| 0 <= k < name.len() ==> name_char(#[trigger] name[k]),
        entry_free_of(Some(v), ','),
    ensures
        free_of(field_token(name, v), ','),
        field_token(name, v).len() > 0,
{
    let t = field_token(name, v);
    match v {
        ScalarView::Integer(n) => {
            crate::scalar::lemma_decimal_text_chars(n);
        },
        ScalarView::Text(s) => {},
    }
    assert forall|k: int| 0 <= k < t.len() implies #[trigger] t[k] != ',' by {
        if k < name.len() {
            assert(t[k] == name[k]);
        } else if k == name.len() {
            assert(t[k] == '=');
        } else {
            assert(t[k] == render(v)[k - name.len() - 1]);
        }
    }
}

pub proof fn lemma_present_tokens_free(schema: Seq<FieldSpec>, values: Seq<Option<ScalarView>>)
    requires
        schema_well_formed(schema),
        values.len() <= schema.len(),
        text_free_of(values, ','),
    ensures
        all_free_of(present_tokens(schema, values), ','),
        forall|i: int|
            0 <= i < present_tokens(schema, values).len() ==> (#[trigger] present_tokens(
                schema,
                values,
            )[i]).len() > 0,
    decreases values.len(),
{
    if values.len() > 0 {
        let init = values.drop_last();
        assert(text_free_of(init, ',')) by {
            assert forall|i: int| 0 <= i < init.len() implies entry_free_of(
                #[trigger] init[i],
                ',',
            ) by {
                assert(init[i] == values[i]);
            }
        }
        lemma_present_tokens_free(schema, init);
        let k = values.len() - 1;
        if let Some(v) = values.last() {
            assert(values[k] == values.last());
            lemma_token_free_of_comma(schema[k].name, v);
        }
    }
}

proof fn lemma_decode_field_token(schema: Seq<FieldSpec>, k: int, v: ScalarView)
    requires
        schema_well_formed(schema),
        0 <= k < schema.len(),
        kind_of(v) == schema[k].kind,
    ensures
        decode_token(schema, field_token(schema[k].name, v)) == Ok::<_, DecodeErrorView>((k, v)),
{
    let name = schema[k].name;
    let t = field_token(name, v);
    assert forall|j: int| 0 <= j < name.len() implies t[j] != '=' by {
        assert(t[j] == name[j]);
        assert(name_char(schema[k].name[j]));
    }
    assert(is_first(t, '=', name.len() as int));
    lemma_first_index(t, '=', name.len() as int);
    assert(t.take(name.len() as int) =~= name);
    assert(t.skip(name.len() as int + 1) =~= render(v));
    assert(is_first_field(schema, name, k));
    lemma_field_index(schema, name, k);
    if let ScalarView::Integer(n) = v {
        crate::scalar::lemma_parse_decimal_text(n);
    }
}

pub open spec fn absent_from(values: Seq<Option<ScalarView>>, k: int) -> Seq<Option<ScalarView>> {
    Seq::new(
        values.len(),
        |i: int|
            if i < k {
                values[i]
            } else {
                None
            },
    )
}

proof fn lemma_decode_present_tokens(schema: Seq<FieldSpec>, values: Seq<Option<ScalarView>>, k: int)
    requires
        schema_well_formed(schema),
        fields_typed(schema, values),
        0 <= k <= values.len(),
    ensures
        decode_tokens(schema, present_tokens(schema, values.take(k))) == Ok::<
            _,
            DecodeErrorView,
        >(absent_from(values, k)),
    decreases k,
{
    if k == 0 {
        assert(values.take(0) =~= Seq::<Option<ScalarView>>::empty());
        assert(absent_from(values, 0) =~= Seq::new(schema.len(), |i: int| None));
    } else {
        lemma_decode_present_tokens(schema, values, k - 1);
        let pre = values.take(k);
        assert(pre.drop_last() =~= values.take(k - 1));
        assert(pre.last() == values[k - 1]);
        let prev = present_tokens(schema, values.take(k - 1));
        match values[k - 1] {
            Some(v) => {
                lemma_decode_field_token(schema, k - 1, v);
                let toks = prev.push(field_token(schema[k - 1].name, v));
                assert(toks.drop_last() =~= prev);
                assert(absent_from(values, k - 1).update(k - 1, Some(v)) =~= absent_from(
                    values,
                    k,
                ));
            },
            None => {
                assert(absent_from(values, k - 1) =~= absent_from(values, k));
            },
        }
    }
}

/// Reading the text of a value gives the value back, as long as no text field holds a
/// comma.
pub proof fn lemma_decode_encode(schema: Seq<FieldSpec>, values: Seq<Option<ScalarView>>)
    requires
        schema_well_formed(schema),
        fields_typed(schema, values),
        text_free_of(values, ','),
    ensures
        decode(schema, encode(schema, values)) == Ok::<_, DecodeErrorView>(values),
{
    let toks = present_tokens(schema, values);
    lemma_present_tokens_free(schema, values);
    if toks.len() == 0 {
        assert(text_tokens(encode(schema, values)) =~= toks);
    } else {
        lemma_split_join(toks, Seq::<char>::empty(), ',');
        lemma_join_len(toks, seq![',']);
        assert(toks[toks.len() - 1] == toks.last());
        assert(seq![','] + Seq::<char>::empty() =~= seq![',']);
        assert(text_tokens(encode(schema, values)) =~= toks) by {
            assert forall|i: int| 0 <= i < toks.len() implies Seq::<char>::empty() + toks[i]
                == toks[i] by {
                assert(Seq::<char>::empty() + toks[i] =~= toks[i]);
            }
        }
    }
    lemma_decode_present_tokens(schema, values, values.len() as int);
    assert(values.take(values.len() as int) =~= values);
    assert(absent_from(values, values.len() as int) =~= values);
}

proof fn lemma_no_present_tokens(schema: Seq<FieldSpec>, values: Seq<Option<ScalarView>>)
    requires
        all_absent(values),
    ensures
        present_tokens(schema, values).len() == 0,
    decreases values.len(),
{
    if values.len() > 0 {
        assert(values[values.len() - 1] is None);
        lemma_no_present_tokens(schema, values.drop_last());
    }
}

/// A value with every field absent has the empty text, and the empty text describes the
/// value with every field absent.
pub proof fn lemma_encode_all_absent(schema: Seq<FieldSpec>, values: Seq<Option<ScalarView>>)
    requires
        all_absent(values),
    ensures
        encode(schema, values) == Seq::<char>::empty(),
        decode(schema, Seq::<char>::empty()) == Ok::<_, DecodeErrorView>(
            Seq::new(schema.len(), |i: int| None::<ScalarView>),
        ),
{
    lemma_no_present_tokens(schema, values);
}

fn append_scalar(out: &mut String, v: &Scalar)
    ensures
        final(out)@ == old(out)@ + render(v@),
{
    match v {
        Scalar::Integer(n) => append_i32(out, *n),
        Scalar::Text(s) => out.append(s.as_str()),
    }
}

/// Writes the text form of the field values `values`, named by `fields`.
pub(crate) fn encode_fields(fields: &Vec<Field>, values: &Vec<Option<Scalar>>) -> (r: String)
    requires
        values@.len() <= fields@.len(),
    ensures
        r@ == encode(schema_view(fields@), values_view(values@)),
{
    let ghost schema = schema_view(fields@);
    let ghost vals = values_view(values@);
    proof {
        reveal_strlit(",");
        reveal_strlit("=");
    }
    let mut out = String::new();
    let mut any: bool = false;
    let mut i: usize = 0;
    while i < values.len()
        invariant
            values@.len() <= fields@.len(),
            schema == schema_view(fields@),
            vals == values_view(values@),
            0 <= i <= values@.len(),
            out@ == join(present_tokens(schema, vals.take(i as int)), seq![',']),
            any == (present_tokens(schema, vals.take(i as int)).len() > 0),
        decreases values@.len() - i,
    {
        let ghost prev = present_tokens(schema, vals.take(i as int));
        let ghost pre = vals.take(i as int + 1);
        assert(pre.drop_last() =~= vals.take(i as int));
        assert(pre.last() == vals[i as int]);
        proof {
            reveal_strlit(",");
            reveal_strlit("=");
        }
        match &values[i] {
            Some(v) => {
                if any {
                    out.append(",");
                }
                out.append(fields[i].name);
                out.append("=");
                append_scalar(&mut out, v);
                proof {
                    let toks = prev.push(field_token(schema[i as int].name, v@));
                    assert(toks.drop_last() =~= prev);
                    assert(schema[i as int].name == fields@[i as int].name@);
                    assert(out@ =~= join(toks, seq![',']));
                }
                any = true;
            },
            None => {},
        }
        i = i + 1;
    }
    assert(vals.take(values@.len() as int) =~= vals);
    out
}

/// Reads one token, `chars[lo..hi]`, of `text`.
fn decode_token_at(fields: &Vec<Field>, text: &str, chars: &Vec<char>, lo: usize, hi: usize) -> (r:
    Result<(usize, Scalar), DecodeError>)
    requires
        chars@ == text@,
        lo <= hi <= chars@.len(),
    ensures
        match r {
            Ok((i, v)) => decode_token(schema_view(fields@), chars@.subrange(lo as int, hi as int))
                == Ok::<_, DecodeErrorView>((i as int, v@)),
            Err(e) => decode_token(schema_view(fields@), chars@.subrange(lo as int, hi as int))
                == Err::<(int, ScalarView), _>(e@),
        },
{
    let ghost schema = schema_view(fields@);
    let ghost tok = chars@.subrange(lo as int, hi as int);
    let mut eq: usize = lo;
    while eq < hi && chars[eq] != '='
        invariant
            lo <= eq <= hi <= chars@.len(),
            tok == chars@.subrange(lo as int, hi as int),
            forall|j: int| 0 <= j < eq - lo ==> tok[j] != '=',
        decreases hi - eq,
    {
        eq = eq + 1;
    }
    if eq == hi {
        assert(!exists|i: int| is_first(tok, '=', i));
        return Err(DecodeError::MissingValue(String::from_str(text.substring_char(lo, hi))));
    }
    proof {
        assert(is_first(tok, '=', eq - lo));
        lemma_first_index(tok, '=', eq - lo);
    }
    let ghost key = tok.take(eq - lo);
    let ghost raw = tok.skip(eq - lo + 1);
    assert(key =~= chars@.subrange(lo as int, eq as int));
    assert(raw =~= chars@.subrange(eq + 1, hi as int));
    let mut i: usize = 0;
    while i < fields.len() && !spells(chars, lo, eq, fields[i].name)
        invariant
            0 <= i <= fields@.len(),
            lo <= eq < hi <= chars@.len(),
            schema == schema_view(fields@),
            key == chars@.subrange(lo as int, eq as int),
            forall|j: int| 0 <= j < i ==> schema[j].name != key,
        decreases fields@.len() - i,
    {
        i = i + 1;
    }
    if i == fields.len() {
        assert(!exists|j: int| is_first_field(schema, key, j));
        return Err(DecodeError::UnexpectedKey(String::from_str(text.substring_char(lo, eq))));
    }
    proof {
        assert(is_first_field(schema, key, i as int));
        lemma_field_index(schema, key, i as int);
    }
    match fields[i].kind {
        FieldKind::Integer => match parse_i32_in(chars, eq + 1, hi) {
            Some(n) => Ok((i, Scalar::Integer(n))),
            None => Err(
                DecodeError::InvalidScalar(
                    String::from_str(text.substring_char(lo, eq)),
                    String::from_str(text.substring_char(eq + 1, hi)),
                ),
            ),
        },
        FieldKind::Text => Ok((i, Scalar::Text(String::from_str(text.substring_char(eq + 1, hi))))),
    }
}

/// Reads the text `chars[lo..hi]` of `text` as the values of `fields`.
pub(crate) fn decode_fields(fields: &Vec<Field>, text: &str, chars: &Vec<char>, lo: usize, hi: usize) -> (r:
    Result<Vec<Option<Scalar>>, DecodeError>)
    requires
        chars@ == text@,
        lo <= hi <= chars@.len(),
    ensures
        values_result_view(r) == decode(
            schema_view(fields@),
            chars@.subrange(lo as int, hi as int),
        ),
{
    let ghost schema = schema_view(fields@);
    let ghost s = chars@.subrange(lo as int, hi as int);
    let mut values: Vec<Option<Scalar>> = Vec::new();
    let mut k: usize = 0;
    while k < fields.len()
        invariant
            0 <= k <= fields@.len(),
            values@.len() == k,
            forall|j: int| 0 <= j < k ==> (#[trigger] values@[j]) is None,
        decreases fields@.len() - k,
    {
        values.push(None);
        k = k + 1;
    }
    assert(values_view(values@) =~= Seq::new(schema.len(), |i: int| None));
    if lo == hi {
        return Ok(values);
    }
    let mut start: usize = lo;
    let mut i: usize = lo;
    while i < hi
        invariant
            lo <= start <= i <= hi <= chars@.len(),
            chars@ == text@,
            s == chars@.subrange(lo as int, hi as int),
            schema == schema_view(fields@),
            values@.len() == fields@.len(),
            split(s.take(i - lo), ',').len() >= 1,
            split(s.take(i - lo), ',').last() == chars@.subrange(start as int, i as int),
            decode_tokens(schema, split(s.take(i - lo), ',').drop_last()) == Ok::<
                _,
                DecodeErrorView,
            >(values_view(values@)),
        decreases hi - i,
    {
        let ghost done = split(s.take(i - lo), ',');
        let ghost ext = s.take(i - lo + 1);
        assert(ext.drop_last() =~= s.take(i - lo));
        assert(ext.last() == chars@[i as int]);
        if chars[i] == ',' {
            match decode_token_at(fields, text, chars, start, i) {
                Ok((f, v)) => {
                    proof {
                        assert(done.drop_last().push(done.last()) =~= done);
                        lemma_decode_token_typed(schema, done.last());
                    }
                    let ghost before = values_view(values@);
                    values.set(f, Some(v));
                    assert(values_view(values@) =~= before.update(f as int, Some(v@)));
                },
                Err(e) => {
                    proof {
                        assert(done.drop_last().push(done.last()) =~= done);
                        let rest = s.skip(i - lo + 1);
                        assert(s =~= s.take(i - lo).push(',') + rest);
                        lemma_split_concat(s.take(i - lo), rest, ',');
                        lemma_decode_tokens_failed(schema, done, split(rest, ','));
                    }
                    return Err(e);
                },
            }
            start = i + 1;
            assert(split(ext, ',').drop_last() =~= done);
            assert(chars@.subrange(start as int, i + 1) =~= Seq::<char>::empty());
        } else {
            assert(split(ext, ',').last() =~= chars@.subrange(start as int, i + 1));
            assert(split(ext, ',').drop_last() =~= done.drop_last());
        }
        i = i + 1;
    }
    assert(s.take(hi - lo) =~= s);
    let ghost done = split(s, ',');
    assert(done.drop_last().push(done.last()) =~= done);
    match decode_token_at(fields, text, chars, start, hi) {
        Ok((f, v)) => {
            proof {
                lemma_decode_token_typed(schema, done.last());
            }
            let ghost before = values_view(values@);
            values.set(f, Some(v));
            assert(values_view(values@) =~= before.update(f as int, Some(v@)));
            Ok(values)
        },
        Err(e) => Err(e),
    }
}

} // verus!
