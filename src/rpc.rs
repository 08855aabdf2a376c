use vstd::prelude::*;

verus! {

/// A command sent to the media worker.
#[derive(Debug, Clone, PartialEq, Eq)]
pub enum MediaRpcCmd {
    Ping,
    /// call id, leg id, offered session description
    Call(String, String, String),
    /// call id
    End(String),
}

/// The worker's answer to a command.
#[derive(Debug, Clone, PartialEq, Eq)]
pub enum MediaRpcResult {
    Pong,
    /// the generated answer session description
    Call(String),
    End,
    /// the reason of the failure
    Error(String),
}

#[derive(Debug, Clone, PartialEq, Eq)]
pub struct MediaRpcRequest {
    pub id: String,
    pub cmd: MediaRpcCmd,
}

#[derive(Debug, Clone, PartialEq, Eq)]
pub struct MediaRpcResponse {
    pub id: String,
    pub res: MediaRpcResult,
}

} // verus!
