use vstd::prelude::*;
use vstd::string::StringExecFns;

use crate::entities::Hold;
use crate::types::AccountType;

verus! {

/// A rejection as handed back to a caller: the reason and a status code.
#[derive(Debug, Clone, PartialEq, Eq)]
pub struct InvalidData {
    pub error_message: String,
    pub status_code: i32,
}

/// The data a caller sent, returned with the reason it was turned down.
#[derive(Debug, Clone, PartialEq, Eq)]
pub struct InvalidDataResponse<T> {
    pub response_data: T,
    pub invalid_data: InvalidData,
}

/// Pairs the data a caller sent with the reason it was turned down.
pub fn create_invalid_data_response<T>(response_data: T, error_message: &str, status_code: i32) -> (r:
    InvalidDataResponse<T>)
    ensures
        r.response_data == response_data,
        r.invalid_data.error_message@ == error_message@,
        r.invalid_data.status_code == status_code,
{
    InvalidDataResponse {
        response_data,
        invalid_data: InvalidData { error_message: String::from_str(error_message), status_code },
    }
}

/// A hold that was placed.
#[derive(Debug, Clone, PartialEq, Eq)]
pub struct HoldResponseData {
    pub hold: Hold,
}

/// A hold that was placed, as a response body.
#[derive(Debug, Clone, PartialEq, Eq)]
pub struct HoldResponseBody {
    pub hold: Hold,
}

/// What a caller sends to open an account.
#[derive(Debug, Clone, PartialEq, Eq)]
pub struct AccountRequestData {
    pub cic_number: String,
    pub account_number: String,
    pub balance: i32,
    pub account_type: AccountType,
}

/// What a caller sends to open an account, as a request body.
#[derive(Debug, Clone, PartialEq, Eq)]
pub struct AccountRequestBody {
    pub account: AccountRequestData,
}

} // verus!
