//! The messages of the gRPC service.

use vstd::prelude::*;

verus! {

/// Asks for the greeting.
#[derive(Debug, PartialEq)]
pub struct InitializeRequest {}

/// Asks for the tools.
#[derive(Debug, PartialEq)]
pub struct ToolsListRequest {}

/// Asks for a tool call.
#[derive(Debug, PartialEq)]
pub struct ToolsCallRequest {
    pub name: String,
    /// The arguments as JSON.
    pub arguments_json: String,
}

/// A message of the protocol, as it is.
#[derive(Debug, PartialEq)]
pub struct RawJsonRpc {
    pub body: String,
}

/// An answer of the protocol, as it is.
#[derive(Debug, PartialEq)]
pub struct JsonRpcResult {
    pub result_json: String,
}

} // verus!
