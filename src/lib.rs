//! A media relay engine for voice calls: a port pool and correlation store,
//! a per-leg relay state machine, a slot-indexed task group, a call-scoped
//! publish/subscribe hub, and the single-threaded worker that ties them
//! together.
pub mod addr;
pub mod addr_table;
pub mod call;
pub mod group;
pub mod hub;
pub mod ids;
pub mod laws;
pub mod legs;
pub mod ng;
pub mod rpc;
pub mod session;
pub mod store;
pub mod task;
pub mod worker;

pub use addr::NetAddr;
pub use addr_table::AddrTable;
pub use ids::{channel_build, key_of, ChannelId, Config, PortRange, TaskId, TaskType};
pub use call::{
    ng_response_from_call, route_ng_request, CallAction, CallActionResult, CallManager, CallManagerConfig, CallMsg,
    CallResult, MainEvent, NgRoute,
};
pub use group::RtpTaskGroup;
pub use hub::{MsgHub, Subscriber};
pub use legs::{CallLeg, Endpoint, NgControlMsg, UdpTransport, UdpTransportConfig};
pub use ng::{ng_response_from_rpc, rpc_request_from_ng, NgCmdResult, NgCommand, NgRequest, NgResponse};
pub use rpc::{MediaRpcCmd, MediaRpcRequest, MediaRpcResponse, MediaRpcResult};
pub use session::{answer_codecs, decimal_text, generate_sdp, get_sdp, signed_text, Codec, SdpConfig, SdpOrigin};
pub use store::CallMediaStore;
pub use task::{BusChannelControl, RtpForwardPacket, RtpInput, RtpOutput, RtpState, RtpTask};
pub use worker::{
    BackendIncoming, BackendOutgoing, ExtInput, ExtOut, RtpEngineMediaWorker, WorkerInput, WorkerOutput,
};
