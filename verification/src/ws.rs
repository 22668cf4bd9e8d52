//! The push channel's frame handling. The channel exists only to push
//! comment events outward, so incoming traffic is answered minimally: pings
//! are ponged, close is honoured, and anything else gets a fixed notice.
//! The decision from frame to reply is here; the transport performs it.

use vstd::prelude::*;
use vstd::string::StringExecFns;

verus! {

/// An incoming frame on the push channel, reduced to what the decision
/// needs. `Other` covers every further frame kind, all ignored.
pub enum WsFrame {
    Ping(Vec<u8>),
    Text(String),
    Binary,
    Close,
    Other,
}

/// The reply the transport must perform for one incoming frame.
pub enum WsReply {
    Pong(Vec<u8>),
    Text(String),
    Close,
    Nothing,
}

/// Answers one incoming frame: a ping is ponged with its own bytes, a text
/// frame is echoed back behind a fixed notice, a binary frame gets a fixed
/// notice, a close is answered with a close, and everything else with
/// nothing.
pub fn handle_frame(frame: WsFrame) -> (r: WsReply)
    ensures
        frame matches WsFrame::Ping(m) ==> (r matches WsReply::Pong(p) && p@ == m@),
        frame matches WsFrame::Text(t) ==> (r matches WsReply::Text(s) && s@
            == "Unexpected Message: "@ + t@),
        frame matches WsFrame::Binary ==> (r matches WsReply::Text(s) && s@
            == "Invalid Message"@),
        frame matches WsFrame::Close ==> r matches WsReply::Close,
        frame matches WsFrame::Other ==> r matches WsReply::Nothing,
{
    match frame {
        WsFrame::Ping(m) => WsReply::Pong(m),
        WsFrame::Text(t) => WsReply::Text(
            String::from_str("Unexpected Message: ").concat(t.as_str()),
        ),
        WsFrame::Binary => WsReply::Text(String::from_str("Invalid Message")),
        WsFrame::Close => WsReply::Close,
        WsFrame::Other => WsReply::Nothing,
    }
}

} // verus!
