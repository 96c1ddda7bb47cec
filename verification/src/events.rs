//! Events that one channel can carry.
use vstd::prelude::*;

use crate::append_entries::{AppendEntriesRequest, AppendEntriesResponse};
use crate::message::ClientMsg;

verus! {

/// What can be sent down the channel of a server.
pub trait RaftEvent {

}

/// The request of a leader.
pub type AppendEntriesReq = AppendEntriesRequest;

/// The answer to the request of a leader.
pub type AppendEntriesRes = AppendEntriesResponse;

/// The command of a client.
pub type ApplicationReq = ClientMsg;

/// A request to stop.
pub struct StopReq;

/// A request for a vote.
pub struct VoteReq;

/// The answer to a request for a vote.
pub struct VoteRes;

/// A request to hand leadership over.
pub struct HandoffReq;

/// The answer to a request to hand leadership over.
pub struct HandoffRes;

/// The answer to a client.
pub struct ApplicationRes {
    pub reply: String,
}

impl RaftEvent for AppendEntriesReq {

}

impl RaftEvent for AppendEntriesRes {

}

impl RaftEvent for VoteReq {

}

impl RaftEvent for VoteRes {

}

impl RaftEvent for HandoffReq {

}

impl RaftEvent for HandoffRes {

}

impl RaftEvent for ApplicationReq {

}

impl RaftEvent for ApplicationRes {

}

impl RaftEvent for StopReq {

}

/// Any event, so that one channel can carry them all.
pub enum RaftEventMsg {
    ARQ(AppendEntriesReq),
    ARS(AppendEntriesRes),
    VRQ(VoteReq),
    VRS(VoteRes),
    HRQ(HandoffReq),
    HRS(HandoffRes),
    APRQ(ApplicationReq),
    APRS(ApplicationRes),
    SRQ(StopReq),
}

} // verus!
