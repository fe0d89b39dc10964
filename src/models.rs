//! The records and request values of the items API.
use vstd::prelude::*;
use crate::codec::{
    Field, FieldKind, FieldSpec, Scalar, ScalarView, fields_typed, integer_entry, integer_scalar,
    integer_at, name_char, schema_view, schema_well_formed, text_entry, text_at, text_scalar,
    values_view,
};
use crate::model::Model;

verus! {

broadcast use vstd::string::group_string_axioms;

/// The fields `id` (integer) and `name` (text) of an item record.
pub open spec fn item_schema() -> Seq<FieldSpec> {
    seq![
        FieldSpec { name: seq!['i', 'd'], kind: FieldKind::Integer },
        FieldSpec { name: seq!['n', 'a', 'm', 'e'], kind: FieldKind::Text },
    ]
}

/// The one field `name` (text) of an item request.
pub open spec fn request_schema() -> Seq<FieldSpec> {
    seq![FieldSpec { name: seq!['n', 'a', 'm', 'e'], kind: FieldKind::Text }]
}

/// The fields `message` (text) and `code` (integer) of the index payload.
pub open spec fn index_schema() -> Seq<FieldSpec> {
    seq![
        FieldSpec { name: seq!['m', 'e', 's', 's', 'a', 'g', 'e'], kind: FieldKind::Text },
        FieldSpec { name: seq!['c', 'o', 'd', 'e'], kind: FieldKind::Integer },
    ]
}

proof fn lemma_item_schema()
    ensures
        schema_well_formed(item_schema()),
{
    let s = item_schema();
    assert forall|i: int, k: int| 0 <= i < s.len() && 0 <= k < s[i].name.len() implies name_char(
        #[trigger] s[i].name[k],
    ) by {
        if i == 0 {
            assert(0 <= k < 2);
        } else {
            assert(0 <= k < 4);
        }
    }
}

proof fn lemma_request_schema()
    ensures
        schema_well_formed(request_schema()),
{
    let s = request_schema();
    assert forall|i: int, k: int| 0 <= i < s.len() && 0 <= k < s[i].name.len() implies name_char(
        #[trigger] s[i].name[k],
    ) by {
        assert(0 <= k < 4);
    }
}

proof fn lemma_index_schema()
    ensures
        schema_well_formed(index_schema()),
{
    let s = index_schema();
    assert forall|i: int, k: int| 0 <= i < s.len() && 0 <= k < s[i].name.len() implies name_char(
        #[trigger] s[i].name[k],
    ) by {
        if i == 0 {
            assert(0 <= k < 7);
        } else {
            assert(0 <= k < 4);
        }
    }
}

fn item_fields() -> (r: Vec<Field>)
    ensures
        schema_view(r@) == item_schema(),
{
    proof {
        reveal_strlit("id");
        reveal_strlit("name");
        assert("id"@ =~= seq!['i', 'd']);
        assert("name"@ =~= seq!['n', 'a', 'm', 'e']);
    }
    let r = vec![
        Field { name: "id", kind: FieldKind::Integer },
        Field { name: "name", kind: FieldKind::Text },
    ];
    assert(schema_view(r@) =~= item_schema());
    r
}

fn request_fields() -> (r: Vec<Field>)
    ensures
        schema_view(r@) == request_schema(),
{
    proof {
        reveal_strlit("name");
        assert("name"@ =~= seq!['n', 'a', 'm', 'e']);
    }
    let r = vec![Field { name: "name", kind: FieldKind::Text }];
    assert(schema_view(r@) =~= request_schema());
    r
}

fn index_fields() -> (r: Vec<Field>)
    ensures
        schema_view(r@) == index_schema(),
{
    proof {
        reveal_strlit("message");
        reveal_strlit("code");
        assert("message"@ =~= seq!['m', 'e', 's', 's', 'a', 'g', 'e']);
        assert("code"@ =~= seq!['c', 'o', 'd', 'e']);
    }
    let r = vec![
        Field { name: "message", kind: FieldKind::Text },
        Field { name: "code", kind: FieldKind::Integer },
    ];
    assert(schema_view(r@) =~= index_schema());
    r
}

/// The payload of the index endpoint.
#[derive(Clone, Debug, PartialEq)]
pub struct GetIndex200Response {
    pub message: Option<String>,
    pub code: Option<i32>,
}

impl GetIndex200Response {
    /// The value with every field absent.
    pub fn new() -> (r: GetIndex200Response)
        ensures
            r.message is None,
            r.code is None,
    {
        GetIndex200Response { message: None, code: None }
    }
}

impl Model for GetIndex200Response {
    open spec fn schema() -> Seq<FieldSpec> {
        index_schema()
    }

    open spec fn field_values(&self) -> Seq<Option<ScalarView>> {
        seq![text_entry(self.message), integer_entry(self.code)]
    }

    proof fn lemma_schema() {
        lemma_index_schema();
    }

    proof fn lemma_field_values(&self) {
    }

    fn fields() -> (r: Vec<Field>) {
        index_fields()
    }

    fn to_fields(&self) -> (r: Vec<Option<Scalar>>) {
        let r = vec![text_scalar(&self.message), integer_scalar(self.code)];
        assert(values_view(r@) =~= self.field_values());
        r
    }

    fn from_fields(values: Vec<Option<Scalar>>) -> (r: Self) {
        let ghost v = values_view(values@);
        let r = GetIndex200Response { message: text_at(&values, 0), code: integer_at(&values, 1) };
        proof {
            if fields_typed(Self::schema(), v) {
                assert(r.field_values() =~= v);
            }
        }
        r
    }
}

/// An item as the item list returns it.
#[derive(Clone, Debug, PartialEq)]
pub struct ItemsGet200ResponseInner {
    pub id: Option<i32>,
    pub name: Option<String>,
}

impl ItemsGet200ResponseInner {
    /// The value with every field absent.
    pub fn new() -> (r: ItemsGet200ResponseInner)
        ensures
            r.id is None,
            r.name is None,
    {
        ItemsGet200ResponseInner { id: None, name: None }
    }
}

impl Model for ItemsGet200ResponseInner {
    open spec fn schema() -> Seq<FieldSpec> {
        item_schema()
    }

    open spec fn field_values(&self) -> Seq<Option<ScalarView>> {
        seq![integer_entry(self.id), text_entry(self.name)]
    }

    proof fn lemma_schema() {
        lemma_item_schema();
    }

    proof fn lemma_field_values(&self) {
    }

    fn fields() -> (r: Vec<Field>) {
        item_fields()
    }

    fn to_fields(&self) -> (r: Vec<Option<Scalar>>) {
        let r = vec![integer_scalar(self.id), text_scalar(&self.name)];
        assert(values_view(r@) =~= self.field_values());
        r
    }

    fn from_fields(values: Vec<Option<Scalar>>) -> (r: Self) {
        let ghost v = values_view(values@);
        let r = ItemsGet200ResponseInner { id: integer_at(&values, 0), name: text_at(&values, 1) };
        proof {
            if fields_typed(Self::schema(), v) {
                assert(r.field_values() =~= v);
            }
        }
        r
    }
}

/// The item that an update returns.
#[derive(Clone, Debug, PartialEq)]
pub struct ItemsIdPut200Response {
    pub id: Option<i32>,
    pub name: Option<String>,
}

impl ItemsIdPut200Response {
    /// The value with every field absent.
    pub fn new() -> (r: ItemsIdPut200Response)
        ensures
            r.id is None,
            r.name is None,
    {
        ItemsIdPut200Response { id: None, name: None }
    }
}

impl Model for ItemsIdPut200Response {
    open spec fn schema() -> Seq<FieldSpec> {
        item_schema()
    }

    open spec fn field_values(&self) -> Seq<Option<ScalarView>> {
        seq![integer_entry(self.id), text_entry(self.name)]
    }

    proof fn lemma_schema() {
        lemma_item_schema();
    }

    proof fn lemma_field_values(&self) {
    }

    fn fields() -> (r: Vec<Field>) {
        item_fields()
    }

    fn to_fields(&self) -> (r: Vec<Option<Scalar>>) {
        let r = vec![integer_scalar(self.id), text_scalar(&self.name)];
        assert(values_view(r@) =~= self.field_values());
        r
    }

    fn from_fields(values: Vec<Option<Scalar>>) -> (r: Self) {
        let ghost v = values_view(values@);
        let r = ItemsIdPut200Response { id: integer_at(&values, 0), name: text_at(&values, 1) };
        proof {
            if fields_typed(Self::schema(), v) {
                assert(r.field_values() =~= v);
            }
        }
        r
    }
}

/// The request body of an update.
#[derive(Clone, Debug, PartialEq)]
pub struct ItemsIdPutRequest {
    pub name: Option<String>,
}

impl ItemsIdPutRequest {
    /// The value with every field absent.
    pub fn new() -> (r: ItemsIdPutRequest)
        ensures
            r.name is None,
    {
        ItemsIdPutRequest { name: None }
    }
}

impl Model for ItemsIdPutRequest {
    open spec fn schema() -> Seq<FieldSpec> {
        request_schema()
    }

    open spec fn field_values(&self) -> Seq<Option<ScalarView>> {
        seq![text_entry(self.name)]
    }

    proof fn lemma_schema() {
        lemma_request_schema();
    }

    proof fn lemma_field_values(&self) {
    }

    fn fields() -> (r: Vec<Field>) {
        request_fields()
    }

    fn to_fields(&self) -> (r: Vec<Option<Scalar>>) {
        let r = vec![text_scalar(&self.name)];
        assert(values_view(r@) =~= self.field_values());
        r
    }

    fn from_fields(values: Vec<Option<Scalar>>) -> (r: Self) {
        let ghost v = values_view(values@);
        let r = ItemsIdPutRequest { name: text_at(&values, 0) };
        proof {
            if fields_typed(Self::schema(), v) {
                assert(r.field_values() =~= v);
            }
        }
        r
    }
}

/// The item that a creation returns.
#[derive(Clone, Debug, PartialEq)]
pub struct ItemsPost201Response {
    pub id: Option<i32>,
    pub name: Option<String>,
}

impl ItemsPost201Response {
    /// The value with every field absent.
    pub fn new() -> (r: ItemsPost201Response)
        ensures
            r.id is None,
            r.name is None,
    {
        ItemsPost201Response { id: None, name: None }
    }
}

impl Model for ItemsPost201Response {
    open spec fn schema() -> Seq<FieldSpec> {
        item_schema()
    }

    open spec fn field_values(&self) -> Seq<Option<ScalarView>> {
        seq![integer_entry(self.id), text_entry(self.name)]
    }

    proof fn lemma_schema() {
        lemma_item_schema();
    }

    proof fn lemma_field_values(&self) {
    }

    fn fields() -> (r: Vec<Field>) {
        item_fields()
    }

    fn to_fields(&self) -> (r: Vec<Option<Scalar>>) {
        let r = vec![integer_scalar(self.id), text_scalar(&self.name)];
        assert(values_view(r@) =~= self.field_values());
        r
    }

    fn from_fields(values: Vec<Option<Scalar>>) -> (r: Self) {
        let ghost v = values_view(values@);
        let r = ItemsPost201Response { id: integer_at(&values, 0), name: text_at(&values, 1) };
        proof {
            if fields_typed(Self::schema(), v) {
                assert(r.field_values() =~= v);
            }
        }
        r
    }
}

/// The request body of a creation; it never carries an `id`.
#[derive(Clone, Debug, PartialEq)]
pub struct ItemsPostRequest {
    pub name: Option<String>,
}

impl ItemsPostRequest {
    /// The value with every field absent.
    pub fn new() -> (r: ItemsPostRequest)
        ensures
            r.name is None,
    {
        ItemsPostRequest { name: None }
    }
}

impl Model for ItemsPostRequest {
    open spec fn schema() -> Seq<FieldSpec> {
        request_schema()
    }

    open spec fn field_values(&self) -> Seq<Option<ScalarView>> {
        seq![text_entry(self.name)]
    }

    proof fn lemma_schema() {
        lemma_request_schema();
    }

    proof fn lemma_field_values(&self) {
    }

    fn fields() -> (r: Vec<Field>) {
        request_fields()
    }

    fn to_fields(&self) -> (r: Vec<Option<Scalar>>) {
        let r = vec![text_scalar(&self.name)];
        assert(values_view(r@) =~= self.field_values());
        r
    }

    fn from_fields(values: Vec<Option<Scalar>>) -> (r: Self) {
        let ghost v = values_view(values@);
        let r = ItemsPostRequest { name: text_at(&values, 0) };
        proof {
            if fields_typed(Self::schema(), v) {
                assert(r.field_values() =~= v);
            }
        }
        r
    }
}

} // verus!
