//! Message 0x0001: the terminal's general response.
use vstd::prelude::*;
use crate::model::base::MsgMeta;

verus! {

/// General response.
#[derive(Debug, Clone, Hash, PartialEq, Default, Eq, Ord, PartialOrd)]
pub struct CommonResp {
    meta: MsgMeta,  // header
    msgid: u16,  // serial number of the message answered
    respid: u16,  // id of the message answered, as sent by the platform
    result: u8,  // 0 success, anything else failure
    body: Vec<u8>,  // body
}

} // verus!
