//! Error taxonomy of the core.
//!
//! Protocol errors are fatal for one connection, validation errors reject a
//! handshake before any session exists, store errors tear down the session
//! that hit them, and resource errors abort the current apply cycle.

use vstd::prelude::*;

verus! {

/// A malformed or truncated wire message; fatal for the connection that
/// produced it.
#[derive(Debug, PartialEq, Eq, Structural, Clone, Copy)]
pub enum ProtocolError {
    /// The leading opcode byte names no known message.
    UnknownOpcode,
    /// The payload ends before the announced content.
    Truncated,
    /// A text field of the payload is not valid UTF-8.
    MalformedText,
    /// An operation arrived without the document it must carry.
    MissingState,
    /// Bytes left over after a complete frame.
    TrailingBytes,
}

/// A handshake that must be rejected before the connection upgrades.
#[derive(Debug, PartialEq, Eq, Structural, Clone, Copy)]
pub enum ValidationError {
    /// A device connection carried no `machine-id` header.
    NoMachineIdSet,
    /// The presented `machine-id` matches no registered device.
    DeviceNotRegistered,
}

/// A failed operation against the state store.
#[derive(Debug, PartialEq, Eq, Structural, Clone, Copy)]
pub enum StoreError {
    /// A row this operation depends on does not exist.
    NotFound,
    /// A row with this unique key already exists.
    Duplicate,
}

/// A failure while interpreting or applying resources on a device.
#[derive(Debug, PartialEq, Eq, Structural, Clone, Copy)]
pub enum ResourceError {
    /// A resource's urn does not split into three `::`-separated segments.
    InvalidUrn,
    /// No provider is registered for the resource's kind segment.
    UnknownKind,
    /// The resource's parameters do not fit the provider's schema.
    InvalidParameters,
    /// An update arrived without the document it needs.
    MissingState,
    /// Two resources of one document share a urn.
    DuplicateUrn,
}

} // verus!
