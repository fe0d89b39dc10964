//! What reading back a written value gives, for the text, header and list forms.
use vstd::prelude::*;
use crate::codec::{
    DecodeErrorView, FieldSpec, ScalarView, all_absent, decode, encode, entry_free_of, field_token,
    lemma_decode_encode, lemma_encode_all_absent, name_char, present_tokens, render,
    schema_well_formed, text_free_of,
};
use crate::header::{
    ascii_bytes, decode_header, decode_header_list, decode_list, decode_segments, header_char,
    header_of, header_safe, is_blank, lemma_header_text, list_text, trim, trim_end, trim_start,
};
use crate::model::Model;
use crate::text::{all_free_of, free_of, join, lemma_split_join, split};

verus! {

/// The field values of several models.
pub open spec fn models_view<M: Model>(items: Seq<M>) -> Seq<Seq<Option<ScalarView>>> {
    items.map_values(|m: M| m.field_values())
}

/// The text forms of several models.
pub open spec fn item_texts<M: Model>(items: Seq<M>) -> Seq<Seq<char>> {
    items.map_values(|m: M| encode(M::schema(), m.field_values()))
}

/// The values that have at least one field present, in order.
pub open spec fn present_items(vs: Seq<Seq<Option<ScalarView>>>) -> Seq<Seq<Option<ScalarView>>>
    decreases vs.len(),
{
    if vs.len() == 0 {
        Seq::empty()
    } else {
        let prev = present_items(vs.drop_last());
        if all_absent(vs.last()) {
            prev
        } else {
            prev.push(vs.last())
        }
    }
}

/// At most one field is present.
pub open spec fn at_most_one_present(v: Seq<Option<ScalarView>>) -> bool {
    forall|i: int, j: int|
        0 <= i < v.len() && 0 <= j < v.len() && (#[trigger] v[i]) is Some && (#[trigger] v[j]) is Some
            ==> i == j
}

/// A text field that a header carries as it is and that holds no comma.
pub open spec fn entry_header_safe(o: Option<ScalarView>) -> bool {
    match o {
        Some(ScalarView::Text(s)) => header_safe(s) && free_of(s, ','),
        _ => true,
    }
}

/// As [`entry_header_safe`], and the text does not end in a space or tab.
pub open spec fn entry_list_safe(o: Option<ScalarView>) -> bool {
    match o {
        Some(ScalarView::Text(s)) => header_safe(s) && free_of(s, ',') && (s.len() > 0
            ==> !is_blank(s.last())),
        _ => true,
    }
}

/// Non-empty, and neither its first nor its last character is a space or tab.
pub open spec fn firm_ends(t: Seq<char>) -> bool {
    t.len() > 0 && !is_blank(t[0]) && !is_blank(t.last())
}

proof fn lemma_join_safe(parts: Seq<Seq<char>>, sep: Seq<char>)
    requires
        forall|i: int| 0 <= i < parts.len() ==> header_safe(#[trigger] parts[i]),
        header_safe(sep),
    ensures
        header_safe(join(parts, sep)),
    decreases parts.len(),
{
    if parts.len() > 1 {
        let init = parts.drop_last();
        assert forall|i: int| 0 <= i < init.len() implies header_safe(#[trigger] init[i]) by {
            assert(init[i] == parts[i]);
        }
        lemma_join_safe(init, sep);
        assert(header_safe(parts[parts.len() - 1]));
        let j = join(parts, sep);
        let a = join(init, sep);
        let b = parts.last();
        assert forall|k: int| 0 <= k < j.len() implies header_char(#[trigger] j[k]) by {
            if k < a.len() {
                assert(j[k] == a[k]);
            } else if k < a.len() + sep.len() {
                assert(j[k] == sep[k - a.len()]);
            } else {
                assert(j[k] == b[k - a.len() - sep.len()]);
            }
        }
    } else if parts.len() == 1 {
        assert(header_safe(parts[0]));
    }
}

proof fn lemma_token_safe(name: Seq<char>, v: ScalarView)
    requires
        forall|k: int| 0 <= k < name.len() ==> name_char(#[trigger] name[k]),
        entry_header_safe(Some(v)),
    ensures
        header_safe(field_token(name, v)),
{
    let t = field_token(name, v);
    if let ScalarView::Integer(n) = v {
        crate::scalar::lemma_decimal_text_chars(n);
    }
    assert forall|k: int| 0 <= k < t.len() implies header_char(#[trigger] t[k]) by {
        if k < name.len() {
            assert(t[k] == name[k]);
            assert(name_char(name[k]));
        } else if k > name.len() {
            assert(t[k] == render(v)[k - name.len() - 1]);
        }
    }
}

proof fn lemma_token_ends(name: Seq<char>, v: ScalarView)
    requires
        name.len() > 0,
        forall|k: int| 0 <= k < name.len() ==> name_char(#[trigger] name[k]),
        entry_list_safe(Some(v)),
    ensures
        firm_ends(field_token(name, v)),
{
    let t = field_token(name, v);
    assert(t[0] == name[0]);
    assert(name_char(name[0]));
    let r = render(v);
    if r.len() > 0 {
        assert(t.last() == r.last());
        if let ScalarView::Integer(n) = v {
            crate::scalar::lemma_decimal_text_chars(n);
            assert(r.last() == r[r.len() - 1]);
        }
    } else {
        assert(t.last() == '=');
    }
}

/// Every token of a value is safe in a header, and firm at both ends when the value is
/// safe in a list.
proof fn lemma_tokens_shape(schema: Seq<FieldSpec>, values: Seq<Option<ScalarView>>)
    requires
        schema_well_formed(schema),
        values.len() <= schema.len(),
        forall|i: int| 0 <= i < values.len() ==> entry_header_safe(#[trigger] values[i]),
    ensures
        forall|i: int|
            0 <= i < present_tokens(schema, values).len() ==> header_safe(
                #[trigger] present_tokens(schema, values)[i],
            ),
        (forall|i: int| 0 <= i < values.len() ==> entry_list_safe(#[trigger] values[i])) ==> forall|
            i: int,
        |
            0 <= i < present_tokens(schema, values).len() ==> firm_ends(
                #[trigger] present_tokens(schema, values)[i],
            ),
    decreases values.len(),
{
    if values.len() > 0 {
        let init = values.drop_last();
        assert forall|i: int| 0 <= i < init.len() implies entry_header_safe(#[trigger] init[i]) by {
            assert(init[i] == values[i]);
        }
        lemma_tokens_shape(schema, init);
        let k = values.len() - 1;
        assert(values[k] == values.last());
        let toks = present_tokens(schema, values);
        let prev = present_tokens(schema, init);
        let all_list_safe = forall|i: int|
            0 <= i < values.len() ==> entry_list_safe(#[trigger] values[i]);
        if all_list_safe {
            assert forall|i: int| 0 <= i < init.len() implies entry_list_safe(#[trigger] init[i]) by {
                assert(init[i] == values[i]);
            }
        }
        if let Some(v) = values.last() {
            assert(toks == prev.push(field_token(schema[k].name, v)));
            lemma_token_safe(schema[k].name, v);
            if all_list_safe {
                assert(entry_list_safe(values[k]));
                lemma_token_ends(schema[k].name, v);
            }
            assert forall|i: int| 0 <= i < toks.len() implies header_safe(#[trigger] toks[i]) by {
                if i < prev.len() {
                    assert(toks[i] == prev[i]);
                }
            }
            if all_list_safe {
                assert forall|i: int| 0 <= i < toks.len() implies firm_ends(#[trigger] toks[i]) by {
                    if i < prev.len() {
                        assert(toks[i] == prev[i]);
                    }
                }
            }
        } else {
            assert(toks == prev);
        }
    }
}

proof fn lemma_one_token(schema: Seq<FieldSpec>, values: Seq<Option<ScalarView>>)
    requires
        at_most_one_present(values),
    ensures
        present_tokens(schema, values).len() <= 1,
        present_tokens(schema, values).len() == 0 <==> all_absent(values),
    decreases values.len(),
{
    if values.len() > 0 {
        let init = values.drop_last();
        let k = values.len() - 1;
        assert(at_most_one_present(init)) by {
            assert forall|i: int, j: int|
                0 <= i < init.len() && 0 <= j < init.len() && (#[trigger] init[i]) is Some && (
                #[trigger] init[j]) is Some implies i == j by {
                assert(init[i] == values[i] && init[j] == values[j]);
            }
        }
        lemma_one_token(schema, init);
        assert(values[k] == values.last());
        if values.last() is Some {
            assert(all_absent(init)) by {
                assert forall|i: int| 0 <= i < init.len() implies (#[trigger] init[i]) is None by {
                    assert(init[i] == values[i]);
                    if values[i] is Some {
                        assert(i == k);
                    }
                }
            }
        } else {
            if all_absent(init) {
                assert forall|i: int| 0 <= i < values.len() implies (#[trigger] values[i]) is None by {
                    if i < k {
                        assert(init[i] == values[i]);
                    }
                }
            }
            if all_absent(values) {
                assert forall|i: int| 0 <= i < init.len() implies (#[trigger] init[i]) is None by {
                    assert(init[i] == values[i]);
                }
            }
        }
    }
}

/// The text of a value is safe in a header when its text fields are.
proof fn lemma_encode_safe(schema: Seq<FieldSpec>, values: Seq<Option<ScalarView>>)
    requires
        schema_well_formed(schema),
        values.len() <= schema.len(),
        forall|i: int| 0 <= i < values.len() ==> entry_header_safe(#[trigger] values[i]),
    ensures
        header_safe(encode(schema, values)),
{
    lemma_tokens_shape(schema, values);
    assert(header_safe(seq![',']));
    lemma_join_safe(present_tokens(schema, values), seq![',']);
}

proof fn lemma_free_from_safe(values: Seq<Option<ScalarView>>)
    requires
        forall|i: int| 0 <= i < values.len() ==> entry_header_safe(#[trigger] values[i]),
    ensures
        text_free_of(values, ','),
{
    assert forall|i: int| 0 <= i < values.len() implies entry_free_of(#[trigger] values[i], ',') by {
        assert(entry_header_safe(values[i]));
    }
}

/// Reading the text of a model gives the model back, when no text field holds a comma.
pub proof fn lemma_text_round_trip<M: Model>(v: M)
    requires
        text_free_of(v.field_values(), ','),
    ensures
        decode(M::schema(), encode(M::schema(), v.field_values())) == Ok::<_, DecodeErrorView>(
            v.field_values(),
        ),
{
    M::lemma_schema();
    v.lemma_field_values();
    lemma_decode_encode(M::schema(), v.field_values());
}

/// A model with every field absent has the empty text, and the empty text reads as that
/// model.
pub proof fn lemma_omission<M: Model>(v: M)
    requires
        all_absent(v.field_values()),
    ensures
        encode(M::schema(), v.field_values()) == Seq::<char>::empty(),
        decode(M::schema(), Seq::<char>::empty()) == Ok::<_, DecodeErrorView>(v.field_values()),
{
    v.lemma_field_values();
    lemma_encode_all_absent(M::schema(), v.field_values());
    assert(Seq::new(M::schema().len(), |i: int| None::<ScalarView>) =~= v.field_values());
}

/// A model whose text fields are visible ASCII without commas can be written as a header,
/// and reading that header gives the model back.
pub proof fn lemma_header_round_trip<M: Model>(v: M)
    requires
        forall|i: int|
            0 <= i < v.field_values().len() ==> entry_header_safe(#[trigger] v.field_values()[i]),
    ensures
        header_of(encode(M::schema(), v.field_values())) == Some(
            ascii_bytes(encode(M::schema(), v.field_values())),
        ),
        decode_header(M::schema(), ascii_bytes(encode(M::schema(), v.field_values()))) == Ok::<
            _,
            DecodeErrorView,
        >(v.field_values()),
{
    M::lemma_schema();
    v.lemma_field_values();
    lemma_encode_safe(M::schema(), v.field_values());
    lemma_header_text(encode(M::schema(), v.field_values()));
    lemma_free_from_safe(v.field_values());
    lemma_decode_encode(M::schema(), v.field_values());
}

proof fn lemma_trim_firm(t: Seq<char>)
    requires
        firm_ends(t),
    ensures
        trim(t) == t,
        trim(seq![' '] + t) == t,
{
    assert((seq![' '] + t).drop_first() =~= t);
    assert((seq![' '] + t)[0] == ' ');
}

proof fn lemma_trim_blank()
    ensures
        trim(Seq::<char>::empty()) == Seq::<char>::empty(),
        trim(seq![' '] + Seq::<char>::empty()) == Seq::<char>::empty(),
{
    let s = seq![' '] + Seq::<char>::empty();
    assert(s.drop_first() =~= Seq::<char>::empty());
    assert(s[0] == ' ');
    assert(trim_start(Seq::<char>::empty()) == Seq::<char>::empty());
    assert(trim_start(s) == Seq::<char>::empty());
    assert(trim_end(Seq::<char>::empty()) == Seq::<char>::empty());
}

proof fn lemma_decode_segments_prefix(
    schema: Seq<FieldSpec>,
    segs: Seq<Seq<char>>,
    views: Seq<Seq<Option<ScalarView>>>,
    k: int,
)
    requires
        segs.len() == views.len(),
        0 <= k <= segs.len(),
        forall|i: int|
            0 <= i < segs.len() ==> (trim(#[trigger] segs[i]).len() == 0 <==> all_absent(views[i])),
        forall|i: int|
            0 <= i < segs.len() && trim(#[trigger] segs[i]).len() > 0 ==> decode(
                schema,
                trim(segs[i]),
            ) == Ok::<_, DecodeErrorView>(views[i]),
    ensures
        decode_segments(schema, segs.take(k)) == Ok::<_, DecodeErrorView>(
            present_items(views.take(k)),
        ),
    decreases k,
{
    if k == 0 {
        assert(segs.take(0) =~= Seq::<Seq<char>>::empty());
        assert(views.take(0) =~= Seq::<Seq<Option<ScalarView>>>::empty());
    } else {
        lemma_decode_segments_prefix(schema, segs, views, k - 1);
        assert(segs.take(k).drop_last() =~= segs.take(k - 1));
        assert(views.take(k).drop_last() =~= views.take(k - 1));
        assert(segs.take(k).last() == segs[k - 1]);
        assert(views.take(k).last() == views[k - 1]);
    }
}

/// Several models written as one header read back as those that have a field present, in
/// order, when each has at most one field present and each text field is visible ASCII,
/// holds no comma and does not end in a space or tab.
pub proof fn lemma_header_list_round_trip<M: Model>(items: Seq<M>)
    requires
        forall|k: int| 0 <= k < items.len() ==> at_most_one_present(#[trigger] items[k].field_values()),
        forall|k: int, i: int|
            0 <= k < items.len() && 0 <= i < items[k].field_values().len() ==> entry_list_safe(
                #[trigger] items[k].field_values()[i],
            ),
    ensures
        header_of(list_text(item_texts(items))) == Some(ascii_bytes(list_text(item_texts(items)))),
        decode_header_list(M::schema(), ascii_bytes(list_text(item_texts(items)))) == Ok::<
            _,
            DecodeErrorView,
        >(present_items(models_view(items))),
{
    let schema = M::schema();
    let texts = item_texts(items);
    let views = models_view(items);
    let n = items.len();
    M::lemma_schema();
    assert forall|k: int| 0 <= k < n implies {
        &&& header_safe(#[trigger] texts[k])
        &&& free_of(texts[k], ',')
        &&& (texts[k].len() == 0 <==> all_absent(views[k]))
        &&& (texts[k].len() > 0 ==> firm_ends(texts[k]))
        &&& (texts[k].len() > 0 ==> decode(schema, texts[k]) == Ok::<_, DecodeErrorView>(
            views[k],
        ))
    } by {
        let v = items[k].field_values();
        assert(views[k] == v);
        assert(texts[k] == encode(schema, v));
        items[k].lemma_field_values();
        assert forall|i: int| 0 <= i < v.len() implies entry_header_safe(#[trigger] v[i]) by {
            assert(entry_list_safe(items[k].field_values()[i]));
        }
        assert forall|i: int| 0 <= i < v.len() implies entry_list_safe(#[trigger] v[i]) by {
            assert(entry_list_safe(items[k].field_values()[i]));
        }
        lemma_encode_safe(schema, v);
        lemma_tokens_shape(schema, v);
        lemma_one_token(schema, v);
        lemma_free_from_safe(v);
        crate::codec::lemma_present_tokens_free(schema, v);
        let toks = present_tokens(schema, v);
        if toks.len() == 1 {
            assert(encode(schema, v) == toks[0]);
            assert(free_of(toks[0], ','));
            assert(firm_ends(toks[0]));
        }
        lemma_decode_encode(schema, v);
    }
    let list = list_text(texts);
    assert(header_safe(seq![',', ' ']));
    lemma_join_safe(texts, seq![',', ' ']);
    lemma_header_text(list);
    if n == 0 {
        assert(list =~= Seq::<char>::empty());
        assert(split(list, ',') =~= seq![Seq::<char>::empty()]);
        lemma_trim_blank();
        let segs = split(list, ',');
        assert(segs.drop_last() =~= Seq::<Seq<char>>::empty());
        assert(segs.last() == Seq::<char>::empty());
        assert(decode_segments(schema, Seq::<Seq<char>>::empty()) == Ok::<_, DecodeErrorView>(
            Seq::<Seq<Option<ScalarView>>>::empty(),
        ));
        assert(decode_segments(schema, segs) == Ok::<_, DecodeErrorView>(
            Seq::<Seq<Option<ScalarView>>>::empty(),
        ));
        assert(views =~= Seq::<Seq<Option<ScalarView>>>::empty());
        assert(present_items(views) == Seq::<Seq<Option<ScalarView>>>::empty());
    } else {
        assert(all_free_of(texts, ',')) by {
            assert forall|k: int| 0 <= k < n implies free_of(#[trigger] texts[k], ',') by {}
        }
        assert(free_of(seq![' '], ','));
        assert(seq![','] + seq![' '] =~= seq![',', ' ']);
        lemma_split_join(texts, seq![' '], ',');
        let segs = split(list, ',');
        lemma_trim_blank();
        assert forall|k: int| 0 <= k < n implies trim(#[trigger] segs[k]) == texts[k] by {
            if texts[k].len() > 0 {
                lemma_trim_firm(texts[k]);
            } else {
                assert(texts[k] =~= Seq::<char>::empty());
            }
        }
        assert(segs.len() == n);
        lemma_decode_segments_prefix(schema, segs, views, n as int);
        assert(segs.take(n as int) =~= segs);
        assert(views.take(n as int) =~= views);
        assert(decode_list(schema, list) == decode_segments(schema, segs));
    }
}

} // verus!
