//! The operations of the items API, the closed set of responses of each, and the binding
//! of an implementation to one fixed call context.
use vstd::prelude::*;
use swagger::ApiError;
use crate::models::{
    GetIndex200Response, ItemsGet200ResponseInner, ItemsIdPut200Response, ItemsIdPutRequest,
    ItemsPost201Response, ItemsPostRequest,
};

verus! {

/// swagger's error of a failed call, opaque: it is only passed along.
#[verifier::external_type_specification]
#[verifier::external_body]
pub struct ExApiError(ApiError);

/// The responses of the index endpoint.
#[derive(Debug, PartialEq)]
pub enum GetIndexResponse {
    /// Success.
    Status200(GetIndex200Response),
}

/// The responses of the item list.
#[derive(Debug, PartialEq)]
pub enum ItemsGetResponse {
    /// The list of items.
    Status200(Vec<ItemsGet200ResponseInner>),
}

/// The responses of item creation.
#[derive(Debug, PartialEq)]
pub enum ItemsPostResponse {
    /// Created.
    Status201(ItemsPost201Response),
}

/// The responses of item deletion.
#[derive(Debug, PartialEq)]
pub enum ItemsIdDeleteResponse {
    /// Deleted; no payload.
    Status204,
}

/// The responses of reading one item.
#[derive(Debug, PartialEq)]
pub enum ItemsIdGetResponse {
    /// The item.
    Status200(ItemsGet200ResponseInner),
}

/// The responses of item update.
#[derive(Debug, PartialEq)]
pub enum ItemsIdPutResponse {
    /// Updated.
    Status200(ItemsIdPut200Response),
}

/// Whether an implementation can take calls now.
#[derive(Clone, Copy, Debug, PartialEq, Eq, Structural)]
pub enum Readiness {
    Ready,
    Pending,
}

/// The operations that a server of the items API provides. Each takes the context of the
/// call; an `Err` is a failure of the transport or the service, never an outcome that the
/// API declares.
pub trait Api<C: Send + Sync> {
    /// Whether calls can be made now: ready, unless the implementation says otherwise.
    fn poll_ready(&self) -> (r: Result<Readiness, ApiError>)
        default_ensures
            r matches Ok(Readiness::Ready),
    {
        Ok(Readiness::Ready)
    }

    /// The index endpoint.
    fn get_index(&self, context: &C) -> Result<GetIndexResponse, ApiError>;

    /// Lists the items.
    fn items_get(&self, context: &C) -> Result<ItemsGetResponse, ApiError>;

    /// Creates an item.
    fn items_post(&self, items_post_request: ItemsPostRequest, context: &C) -> Result<
        ItemsPostResponse,
        ApiError,
    >;

    /// Deletes an item.
    fn items_id_delete(&self, id: i32, context: &C) -> Result<ItemsIdDeleteResponse, ApiError>;

    /// Reads an item.
    fn items_id_get(&self, id: i32, context: &C) -> Result<ItemsIdGetResponse, ApiError>;

    /// Updates an item.
    fn items_id_put(
        &self,
        id: i32,
        items_id_put_request: ItemsIdPutRequest,
        context: &C,
    ) -> Result<ItemsIdPutResponse, ApiError>;
}

/// The operations of the items API where the context is not passed on every call.
pub trait ApiNoContext<C: Send + Sync> {
    /// Whether calls can be made now.
    fn poll_ready(&self) -> Result<Readiness, ApiError>;

    /// The context that every call is made with.
    fn context(&self) -> &C;

    /// The index endpoint.
    fn get_index(&self) -> Result<GetIndexResponse, ApiError>;

    /// Lists the items.
    fn items_get(&self) -> Result<ItemsGetResponse, ApiError>;

    /// Creates an item.
    fn items_post(&self, items_post_request: ItemsPostRequest) -> Result<
        ItemsPostResponse,
        ApiError,
    >;

    /// Deletes an item.
    fn items_id_delete(&self, id: i32) -> Result<ItemsIdDeleteResponse, ApiError>;

    /// Reads an item.
    fn items_id_get(&self, id: i32) -> Result<ItemsIdGetResponse, ApiError>;

    /// Updates an item.
    fn items_id_put(&self, id: i32, items_id_put_request: ItemsIdPutRequest) -> Result<
        ItemsIdPutResponse,
        ApiError,
    >;
}

/// An implementation bound to the context that each of its calls is made with.
pub struct ContextWrapper<T, C> {
    api: T,
    context: C,
}

impl<T, C> ContextWrapper<T, C> {
    /// The implementation that calls go to.
    pub closed spec fn bound_api(&self) -> T {
        self.api
    }

    /// The context that calls are made with.
    pub closed spec fn bound_context(&self) -> C {
        self.context
    }

    /// Binds `api` to `context`.
    pub fn new(api: T, context: C) -> (r: Self)
        ensures
            r.bound_api() == api,
            r.bound_context() == context,
    {
        ContextWrapper { api, context }
    }

    /// The implementation that calls go to.
    pub fn api(&self) -> (r: &T)
        ensures
            *r == self.bound_api(),
    {
        &self.api
    }

    /// The context that calls are made with.
    pub fn context(&self) -> (r: &C)
        ensures
            *r == self.bound_context(),
    {
        &self.context
    }
}

/// Binding an implementation to a context.
pub trait ContextWrapperExt<C: Send + Sync>: Sized {
    /// Binds this implementation to `context`.
    fn with_context(self, context: C) -> (r: ContextWrapper<Self, C>)
        ensures
            r.bound_api() == self,
            r.bound_context() == context,
    ;
}

impl<T: Api<C> + Send + Sync, C: Clone + Send + Sync> ContextWrapperExt<C> for T {
    fn with_context(self, context: C) -> (r: ContextWrapper<T, C>) {
        ContextWrapper::new(self, context)
    }
}

impl<T: Api<C> + Send + Sync, C: Clone + Send + Sync> ApiNoContext<C> for ContextWrapper<T, C> {
    fn poll_ready(&self) -> (r: Result<Readiness, ApiError>)
        ensures
            call_ensures(T::poll_ready, (&self.bound_api(),), r),
    {
        self.api.poll_ready()
    }

    fn context(&self) -> (r: &C)
        ensures
            *r == self.bound_context(),
    {
        &self.context
    }

    fn get_index(&self) -> (r: Result<GetIndexResponse, ApiError>)
        ensures
            exists|c: C| cloned::<C>(self.bound_context(), c) && call_ensures(
                T::get_index, (&self.bound_api(), &c),
                r,
            ),
    {
        let context = self.context.clone();
        let r = self.api.get_index(&context);
        assert(cloned::<C>(self.bound_context(), context) && call_ensures(
            T::get_index, (&self.bound_api(), &context),
            r,
        ));
        r
    }

    fn items_get(&self) -> (r: Result<ItemsGetResponse, ApiError>)
        ensures
            exists|c: C| cloned::<C>(self.bound_context(), c) && call_ensures(
                T::items_get, (&self.bound_api(), &c),
                r,
            ),
    {
        let context = self.context.clone();
        let r = self.api.items_get(&context);
        assert(cloned::<C>(self.bound_context(), context) && call_ensures(
            T::items_get, (&self.bound_api(), &context),
            r,
        ));
        r
    }

    fn items_post(&self, items_post_request: ItemsPostRequest) -> (r: Result<ItemsPostResponse, ApiError>)
        ensures
            exists|c: C| cloned::<C>(self.bound_context(), c) && call_ensures(
                T::items_post, (&self.bound_api(), items_post_request, &c),
                r,
            ),
    {
        let context = self.context.clone();
        let r = self.api.items_post(items_post_request, &context);
        assert(cloned::<C>(self.bound_context(), context) && call_ensures(
            T::items_post, (&self.bound_api(), items_post_request, &context),
            r,
        ));
        r
    }

    fn items_id_delete(&self, id: i32) -> (r: Result<ItemsIdDeleteResponse, ApiError>)
        ensures
            exists|c: C| cloned::<C>(self.bound_context(), c) && call_ensures(
                T::items_id_delete, (&self.bound_api(), id, &c),
                r,
            ),
    {
        let context = self.context.clone();
        let r = self.api.items_id_delete(id, &context);
        assert(cloned::<C>(self.bound_context(), context) && call_ensures(
            T::items_id_delete, (&self.bound_api(), id, &context),
            r,
        ));
        r
    }

    fn items_id_get(&self, id: i32) -> (r: Result<ItemsIdGetResponse, ApiError>)
        ensures
            exists|c: C| cloned::<C>(self.bound_context(), c) && call_ensures(
                T::items_id_get, (&self.bound_api(), id, &c),
                r,
            ),
    {
        let context = self.context.clone();
        let r = self.api.items_id_get(id, &context);
        assert(cloned::<C>(self.bound_context(), context) && call_ensures(
            T::items_id_get, (&self.bound_api(), id, &context),
            r,
        ));
        r
    }

    fn items_id_put(&self, id: i32, items_id_put_request: ItemsIdPutRequest) -> (r: Result<ItemsIdPutResponse, ApiError>)
        ensures
            exists|c: C| cloned::<C>(self.bound_context(), c) && call_ensures(
                T::items_id_put, (&self.bound_api(), id, items_id_put_request, &c),
                r,
            ),
    {
        let context = self.context.clone();
        let r = self.api.items_id_put(id, items_id_put_request, &context);
        assert(cloned::<C>(self.bound_context(), context) && call_ensures(
            T::items_id_put, (&self.bound_api(), id, items_id_put_request, &context),
            r,
        ));
        r
    }
}

} // verus!
