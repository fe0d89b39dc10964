use openapi_client::models::{
    GetIndex200Response, ItemsGet200ResponseInner, ItemsIdPut200Response, ItemsIdPutRequest,
    ItemsPost201Response, ItemsPostRequest,
};
use openapi_client::{DecodeError, EncodeError, Model};

fn item(id: Option<i32>, name: Option<&str>) -> ItemsGet200ResponseInner {
    ItemsGet200ResponseInner { id, name: name.map(|n| n.to_string()) }
}

#[test]
fn record_text_lists_present_fields_in_order() {
    assert_eq!(item(Some(1), Some("widget")).to_text(), "id=1,name=widget");
    assert_eq!(item(None, Some("widget")).to_text(), "name=widget");
    assert_eq!(item(Some(-42), None).to_text(), "id=-42");
}

#[test]
fn index_payload_text() {
    let v = GetIndex200Response { message: Some("Hello, Actix!".to_string()), code: Some(200) };
    assert_eq!(v.to_text(), "message=Hello, Actix!,code=200");
    let w = GetIndex200Response { message: Some("hi".to_string()), code: Some(200) };
    assert_eq!(GetIndex200Response::from_text(&w.to_text()), Ok(w));
}

#[test]
fn round_trip_of_each_model() {
    let a = item(Some(7), Some("bolt"));
    assert_eq!(ItemsGet200ResponseInner::from_text(&a.to_text()), Ok(a));
    let b = ItemsIdPut200Response { id: Some(i32::MIN), name: Some("x=y z".to_string()) };
    assert_eq!(ItemsIdPut200Response::from_text(&b.to_text()), Ok(b));
    let c = ItemsPost201Response { id: Some(i32::MAX), name: Some(String::new()) };
    assert_eq!(ItemsPost201Response::from_text(&c.to_text()), Ok(c));
    let d = ItemsPostRequest { name: Some("widget".to_string()) };
    assert_eq!(ItemsPostRequest::from_text(&d.to_text()), Ok(d));
    let e = ItemsIdPutRequest { name: Some("renamed".to_string()) };
    assert_eq!(ItemsIdPutRequest::from_text(&e.to_text()), Ok(e));
}

#[test]
fn all_absent_value_has_empty_text() {
    assert_eq!(ItemsGet200ResponseInner::new().to_text(), "");
    assert_eq!(GetIndex200Response::new().to_text(), "");
    assert_eq!(ItemsPostRequest::new().to_text(), "");
    assert_eq!(ItemsGet200ResponseInner::from_text(""), Ok(ItemsGet200ResponseInner::new()));
    assert_eq!(ItemsIdPutRequest::from_text(""), Ok(ItemsIdPutRequest::new()));
}

#[test]
fn unknown_key_is_rejected() {
    assert_eq!(
        ItemsGet200ResponseInner::from_text("bogus=1"),
        Err(DecodeError::UnexpectedKey("bogus".to_string()))
    );
    assert!(matches!(
        ItemsPostRequest::from_text("id=1"),
        Err(DecodeError::UnexpectedKey(_))
    ));
}

#[test]
fn malformed_integer_is_rejected() {
    assert_eq!(
        ItemsGet200ResponseInner::from_text("id=not-a-number"),
        Err(DecodeError::InvalidScalar("id".to_string(), "not-a-number".to_string()))
    );
    assert!(matches!(
        ItemsGet200ResponseInner::from_text("id=2147483648"),
        Err(DecodeError::InvalidScalar(_, _))
    ));
    assert!(matches!(
        ItemsGet200ResponseInner::from_text("id="),
        Err(DecodeError::InvalidScalar(_, _))
    ));
    assert!(matches!(
        ItemsGet200ResponseInner::from_text("id=-"),
        Err(DecodeError::InvalidScalar(_, _))
    ));
}

#[test]
fn integer_forms_that_read() {
    assert_eq!(ItemsGet200ResponseInner::from_text("id=+5"), Ok(item(Some(5), None)));
    assert_eq!(ItemsGet200ResponseInner::from_text("id=007"), Ok(item(Some(7), None)));
    assert_eq!(
        ItemsGet200ResponseInner::from_text("id=-2147483648"),
        Ok(item(Some(i32::MIN), None))
    );
}

#[test]
fn dangling_key_is_missing_its_value() {
    assert_eq!(
        ItemsGet200ResponseInner::from_text("id"),
        Err(DecodeError::MissingValue("id".to_string()))
    );
    assert!(matches!(
        ItemsGet200ResponseInner::from_text("id=1,"),
        Err(DecodeError::MissingValue(_))
    ));
}

#[test]
fn repeated_key_keeps_the_last() {
    assert_eq!(
        ItemsGet200ResponseInner::from_text("id=1,name=a,id=2"),
        Ok(item(Some(2), Some("a")))
    );
    assert_eq!(
        ItemsGet200ResponseInner::from_text("name=b,id=3"),
        Ok(item(Some(3), Some("b")))
    );
}

#[test]
fn first_bad_token_decides_the_error() {
    assert_eq!(
        ItemsGet200ResponseInner::from_text("id=x,bogus=1"),
        Err(DecodeError::InvalidScalar("id".to_string(), "x".to_string()))
    );
}

#[test]
fn comma_inside_text_is_not_escaped() {
    let v = item(Some(2), Some("a,b"));
    assert_eq!(v.to_text(), "id=2,name=a,b");
    assert_eq!(
        ItemsGet200ResponseInner::from_text(&v.to_text()),
        Err(DecodeError::MissingValue("b".to_string()))
    );
}

#[test]
fn header_round_trip() {
    let v = item(Some(1), Some("widget"));
    let h = v.to_header().unwrap();
    assert_eq!(h.to_str().unwrap(), "id=1,name=widget");
    assert_eq!(ItemsGet200ResponseInner::from_header(&h), Ok(v));
}

#[test]
fn header_refuses_invisible_characters() {
    assert_eq!(
        item(None, Some("line\nbreak")).to_header(),
        Err(EncodeError::InvalidHeaderBytes)
    );
    assert_eq!(item(None, Some("caf\u{e9}")).to_header(), Err(EncodeError::InvalidHeaderBytes));
    assert!(item(None, Some("tab\there")).to_header().is_ok());
}

#[test]
fn header_that_is_not_text_fails_to_decode() {
    let h = hyper::header::HeaderValue::from_bytes(&[b'i', b'd', b'=', 0xC3, 0xA9]).unwrap();
    assert_eq!(
        ItemsGet200ResponseInner::from_header(&h),
        Err(DecodeError::InvalidHeaderEncoding)
    );
    assert_eq!(
        ItemsGet200ResponseInner::from_header_list(&h),
        Err(DecodeError::InvalidHeaderEncoding)
    );
}

#[test]
fn header_list_round_trip() {
    let items = vec![item(Some(1), None), item(None, Some("b")), item(Some(3), None)];
    let h = ItemsGet200ResponseInner::to_header_list(&items).unwrap();
    assert_eq!(h.to_str().unwrap(), "id=1, name=b, id=3");
    assert_eq!(ItemsGet200ResponseInner::from_header_list(&h), Ok(items));
}

#[test]
fn header_list_skips_empty_segments() {
    let items = vec![item(None, None), item(Some(4), None), item(None, None)];
    let h = ItemsGet200ResponseInner::to_header_list(&items).unwrap();
    assert_eq!(h.to_str().unwrap(), ", id=4, ");
    assert_eq!(
        ItemsGet200ResponseInner::from_header_list(&h),
        Ok(vec![item(Some(4), None)])
    );
    let empty: Vec<ItemsGet200ResponseInner> = Vec::new();
    let h = ItemsGet200ResponseInner::to_header_list(&empty).unwrap();
    assert_eq!(h.to_str().unwrap(), "");
    assert_eq!(ItemsGet200ResponseInner::from_header_list(&h), Ok(empty));
}

#[test]
fn header_list_splits_records_at_every_comma() {
    let items = vec![item(Some(1), Some("a"))];
    let h = ItemsGet200ResponseInner::to_header_list(&items).unwrap();
    assert_eq!(
        ItemsGet200ResponseInner::from_header_list(&h),
        Ok(vec![item(Some(1), None), item(None, Some("a"))])
    );
}

#[test]
fn text_list_trims_blanks() {
    assert_eq!(
        ItemsPostRequest::from_text_list(" name=a ,\tname=b\t,,  "),
        Ok(vec![
            ItemsPostRequest { name: Some("a".to_string()) },
            ItemsPostRequest { name: Some("b".to_string()) }
        ])
    );
    assert!(matches!(
        ItemsPostRequest::from_text_list("name=a, bogus=1"),
        Err(DecodeError::UnexpectedKey(_))
    ));
}

#[test]
fn text_list_joins_with_comma_space() {
    let items = vec![
        ItemsPostRequest { name: Some("a".to_string()) },
        ItemsPostRequest { name: Some("b".to_string()) },
    ];
    assert_eq!(ItemsPostRequest::to_text_list(&items), "name=a, name=b");
}
