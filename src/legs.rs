use vstd::prelude::*;

use crate::ng::{NgRequest, NgResponse};
use crate::session::{answer_text, generate_sdp, offer_fields, offer_origin, read_offer, SdpConfig};

verus! {

/// A call leg's endpoint: the leg and the call it belongs to.
#[derive(Debug, Clone)]
pub struct Endpoint {
    pub call_id: String,
    pub id: String,
}

impl Endpoint {
    pub fn new(id: String, call_id: String) -> (r: Endpoint)
        ensures
            r.id == id,
            r.call_id == call_id,
    {
        Endpoint { id, call_id }
    }
}

/// A call leg with both session descriptions and its two ports.
#[derive(Debug, Clone)]
pub struct CallLeg {
    pub id: String,
    pub remote_sdp: String,
    pub local_sdp: String,
    pub rtp_port: isize,
    pub rtcp_port: isize,
}

impl CallLeg {
    pub fn new(id: String, remote_sdp: String, local_sdp: String, rtp_port: isize, rtcp_port: isize) -> (r: CallLeg)
        ensures
            r.id == id,
            r.remote_sdp == remote_sdp,
            r.local_sdp == local_sdp,
            r.rtp_port == rtp_port,
            r.rtcp_port == rtcp_port,
    {
        CallLeg { id, remote_sdp, local_sdp, rtcp_port, rtp_port }
    }
}

impl CallLeg {
    /// A copy of the leg.
    pub fn duplicate(&self) -> (r: CallLeg)
        ensures
            r == *self,
    {
        CallLeg {
            id: self.id.clone(),
            remote_sdp: self.remote_sdp.clone(),
            local_sdp: self.local_sdp.clone(),
            rtp_port: self.rtp_port,
            rtcp_port: self.rtcp_port,
        }
    }
}

/// Where a leg's UDP transport listens: an address and its RTP and RTCP ports.
#[derive(Debug, Clone)]
pub struct UdpTransportConfig {
    pub addr: String,
    pub rtp_port: usize,
    pub rtcp_port: usize,
}

/// A leg's UDP transport, before its socket is opened.
#[derive(Debug)]
pub struct UdpTransport {
    addr: String,
    rtp_port: usize,
    rtcp_port: usize,
}

impl UdpTransport {
    pub closed spec fn addr_view(&self) -> Seq<char> {
        self.addr@
    }

    pub closed spec fn ports(&self) -> (usize, usize) {
        (self.rtp_port, self.rtcp_port)
    }

    /// A transport for `config`, and the answer to the remote offer `sdp`
    /// that advertises its address and ports. An offer that cannot be read
    /// is refused with the reader's message.
    pub fn new(config: UdpTransportConfig, sdp: &str) -> (r: Result<(UdpTransport, String), String>)
        requires
            config.rtp_port <= isize::MAX,
            config.rtcp_port <= isize::MAX,
        ensures
            match r {
                Ok((t, answer)) => offer_fields(sdp@) is Ok && t.addr_view() == config.addr@ && t.ports() == (
                    config.rtp_port,
                    config.rtcp_port,
                ) && answer@ == answer_text(
                    offer_origin(sdp@),
                    config.addr@,
                    config.rtp_port as int,
                    config.rtcp_port as int,
                ),
                Err(e) => offer_fields(sdp@) is Err && offer_fields(sdp@)->Err_0 == e@,
            },
    {
        match read_offer(sdp) {
            Err(e) => Err(e),
            Ok(offer) => {
                let local_sdp = generate_sdp(
                    SdpConfig {
                        origin: offer.origin,
                        addr: config.addr.clone(),
                        rtp_port: config.rtp_port as isize,
                        rtcp_port: config.rtcp_port as isize,
                    },
                );
                Ok((UdpTransport { addr: config.addr, rtcp_port: config.rtcp_port, rtp_port: config.rtp_port }, local_sdp))
            },
        }
    }
}

/// A message inside the call-control server: a request read from the
/// socket, or a response to send back.
#[derive(Debug)]
pub enum NgControlMsg {
    Request(NgRequest),
    Response(NgResponse),
}

} // verus!
