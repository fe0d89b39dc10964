use openapi_client::models::{
    GetIndex200Response, ItemsGet200ResponseInner, ItemsIdPut200Response, ItemsIdPutRequest,
    ItemsPost201Response, ItemsPostRequest,
};
use openapi_client::{
    Api, ApiNoContext, ContextWrapper, ContextWrapperExt, GetIndexResponse, ItemsGetResponse,
    ItemsIdDeleteResponse, ItemsIdGetResponse, ItemsIdPutResponse, ItemsPostResponse, Readiness,
};
use swagger::ApiError;

#[derive(Clone, Debug, PartialEq)]
struct Ctx {
    span: String,
}

/// A server that knows one item, with id 1, and records the context of the last call.
struct OneItem {
    seen: std::sync::Mutex<Option<Ctx>>,
}

impl OneItem {
    fn new() -> OneItem {
        OneItem { seen: std::sync::Mutex::new(None) }
    }

    fn record(&self, context: &Ctx) {
        *self.seen.lock().unwrap() = Some(context.clone());
    }
}

impl Api<Ctx> for OneItem {
    fn get_index(&self, context: &Ctx) -> Result<GetIndexResponse, ApiError> {
        self.record(context);
        Ok(GetIndexResponse::Status200(GetIndex200Response {
            message: Some("Hello, Actix!".to_string()),
            code: Some(200),
        }))
    }

    fn items_get(&self, context: &Ctx) -> Result<ItemsGetResponse, ApiError> {
        self.record(context);
        Ok(ItemsGetResponse::Status200(vec![ItemsGet200ResponseInner {
            id: Some(1),
            name: Some("widget".to_string()),
        }]))
    }

    fn items_post(
        &self,
        items_post_request: ItemsPostRequest,
        context: &Ctx,
    ) -> Result<ItemsPostResponse, ApiError> {
        self.record(context);
        Ok(ItemsPostResponse::Status201(ItemsPost201Response {
            id: Some(1),
            name: items_post_request.name,
        }))
    }

    fn items_id_delete(&self, id: i32, context: &Ctx) -> Result<ItemsIdDeleteResponse, ApiError> {
        self.record(context);
        if id == 1 {
            Ok(ItemsIdDeleteResponse::Status204)
        } else {
            Err(ApiError("not found".to_string()))
        }
    }

    fn items_id_get(&self, id: i32, context: &Ctx) -> Result<ItemsIdGetResponse, ApiError> {
        self.record(context);
        if id == 1 {
            Ok(ItemsIdGetResponse::Status200(ItemsGet200ResponseInner {
                id: Some(1),
                name: Some("widget".to_string()),
            }))
        } else {
            Err(ApiError("not found".to_string()))
        }
    }

    fn items_id_put(
        &self,
        id: i32,
        items_id_put_request: ItemsIdPutRequest,
        context: &Ctx,
    ) -> Result<ItemsIdPutResponse, ApiError> {
        self.record(context);
        Ok(ItemsIdPutResponse::Status200(ItemsIdPut200Response {
            id: Some(id),
            name: items_id_put_request.name,
        }))
    }
}

fn bound() -> ContextWrapper<OneItem, Ctx> {
    OneItem::new().with_context(Ctx { span: "abc".to_string() })
}

#[test]
fn create_item_returns_created_record() {
    let client = bound();
    let r = client.items_post(ItemsPostRequest { name: Some("widget".to_string()) });
    assert_eq!(
        r.unwrap(),
        ItemsPostResponse::Status201(ItemsPost201Response {
            id: Some(1),
            name: Some("widget".to_string())
        })
    );
}

#[test]
fn missing_item_error_is_propagated_unchanged() {
    let client = bound();
    let r = client.items_id_get(999);
    assert_eq!(r.unwrap_err().0, "not found");
}

#[test]
fn delete_item_has_no_payload() {
    let client = bound();
    assert_eq!(client.items_id_delete(1).unwrap(), ItemsIdDeleteResponse::Status204);
}

#[test]
fn every_call_carries_the_bound_context() {
    let client = bound();
    assert_eq!(ApiNoContext::context(&client), &Ctx { span: "abc".to_string() });
    let _ = client.get_index().unwrap();
    assert_eq!(*client.api().seen.lock().unwrap(), Some(Ctx { span: "abc".to_string() }));
    let listed = client.items_get().unwrap();
    assert_eq!(
        listed,
        ItemsGetResponse::Status200(vec![ItemsGet200ResponseInner {
            id: Some(1),
            name: Some("widget".to_string())
        }])
    );
    let updated = client
        .items_id_put(5, ItemsIdPutRequest { name: Some("renamed".to_string()) })
        .unwrap();
    assert_eq!(
        updated,
        ItemsIdPutResponse::Status200(ItemsIdPut200Response {
            id: Some(5),
            name: Some("renamed".to_string())
        })
    );
}

#[test]
fn readiness_defaults_to_ready() {
    let client = bound();
    assert_eq!(ApiNoContext::poll_ready(&client).unwrap(), Readiness::Ready);
}

#[test]
fn wrapper_keeps_what_it_was_given() {
    let w = ContextWrapper::new(OneItem::new(), Ctx { span: "xyz".to_string() });
    assert_eq!(w.context(), &Ctx { span: "xyz".to_string() });
    assert!(w.api().seen.lock().unwrap().is_none());
}

#[test]
fn responses_match_exhaustively() {
    let r = ItemsIdGetResponse::Status200(ItemsGet200ResponseInner::new());
    let label = match r {
        ItemsIdGetResponse::Status200(_) => "Status200",
    };
    assert_eq!(label, "Status200");
}
