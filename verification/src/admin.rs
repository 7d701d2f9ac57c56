//! Administrative one-shot messages: account and device registration sent
//! over the operator channel.

use vstd::prelude::*;

verus! {

/// What to do with an operator account.
#[derive(PartialEq, Eq, Structural, Clone, Copy, Debug)]
pub enum AdminUserAction {
    CreateUser,
    DeleteUser,
}

/// One account operation.
pub struct AdminUserOperationMessage {
    pub username: String,
    pub password: Option<String>,
}

/// What to do with a device registration.
#[derive(PartialEq, Eq, Structural, Clone, Copy, Debug)]
pub enum AdminDeviceAction {
    CreateDevice,
    DeleteDevice,
}

/// One device registration operation.
pub struct AdminDeviceOperationMessage {
    pub machine_id: String,
    pub token: String,
}

} // verus!
