//! Request bodies of the plain REST surface: registering and removing
//! devices and operator accounts, and enrolling a device into an
//! environment.  The coordinator answers each with `{"msg", "data"}`.

use vstd::prelude::*;

verus! {

/// Registers a device under a display name and its stable machine id.
pub struct DeviceCreateDTO {
    pub name: String,
    pub machine_id: String,
}

/// Removes a device.
pub struct DeviceDeleteDTO {
    pub name: String,
}

/// Creates an operator account.
pub struct UserCreateDTO {
    pub name: String,
    pub password: String,
}

/// Removes an operator account.
pub struct UserDeleteDTO {
    pub name: String,
}

/// Grants a device the right to reconcile one environment of a project.
pub struct EnrollDeviceDTO {
    pub machine_id: String,
    pub environment_name: String,
    pub project_name: String,
}

} // verus!
