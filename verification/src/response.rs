//! The envelope shapes of transport responses.

use vstd::prelude::*;

verus! {

pub struct ApiErrorResponse {
    pub error: String,
}

pub struct ApiSuccessResponse<T> {
    pub data: T,
}

impl<T> ApiSuccessResponse<T> {
    pub fn new(data: T) -> (r: Self)
        ensures
            r.data == data,
    {
        ApiSuccessResponse { data }
    }
}

} // verus!
