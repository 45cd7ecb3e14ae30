//! A remoting command as this library reads it: the request code and the
//! custom header that the transport layer decoded from the wire, held as
//! plain values. The wire-level framing and codec belong to the transport
//! collaborator and stay outside this crate.

use vstd::prelude::*;
use crate::send_message_header::SendMessageRequestHeader;
use crate::send_message_header::SendMessageRequestHeaderV2;
use crate::send_message_header::v2_converts_to_v1;

verus! {

/// Request codes that the send-message path distinguishes.
#[derive(Debug, Clone, Copy, PartialEq, Eq, Structural)]
pub enum RequestCode {
    SendMessage,
    SendMessageV2,
    SendBatchMessage,
}

impl RequestCode {
    pub open spec fn spec_to_i32(self) -> i32 {
        match self {
            RequestCode::SendMessage => 10,
            RequestCode::SendMessageV2 => 310,
            RequestCode::SendBatchMessage => 320,
        }
    }

    pub fn to_i32(&self) -> (r: i32)
        ensures
            r == self.spec_to_i32(),
    {
        match self {
            RequestCode::SendMessage => 10,
            RequestCode::SendMessageV2 => 310,
            RequestCode::SendBatchMessage => 320,
        }
    }
}

/// A received command: its request code and whichever custom header shape
/// the transport layer could decode for it.
#[derive(Debug, Clone)]
pub struct RemotingCommand {
    pub code: i32,
    pub header: Option<SendMessageRequestHeader>,
    pub header_v2: Option<SendMessageRequestHeaderV2>,
}

impl RemotingCommand {
    pub open spec fn spec_code(self) -> i32 {
        self.code
    }

    pub open spec fn spec_header(self) -> Option<SendMessageRequestHeader> {
        self.header
    }

    pub open spec fn spec_header_v2(self) -> Option<SendMessageRequestHeaderV2> {
        self.header_v2
    }

    /// A fresh response command: code 0, no custom header attached.
    pub fn create_response_command() -> (r: Self)
        ensures
            r.spec_code() == 0,
            r.spec_header() is None,
            r.spec_header_v2() is None,
    {
        RemotingCommand { code: 0, header: None, header_v2: None }
    }

    pub fn set_code(self, code: i32) -> (r: Self)
        ensures
            r.spec_code() == code,
            r.spec_header() == self.spec_header(),
            r.spec_header_v2() == self.spec_header_v2(),
    {
        RemotingCommand { code, header: self.header, header_v2: self.header_v2 }
    }

    pub fn set_header(self, header: SendMessageRequestHeader) -> (r: Self)
        ensures
            r.spec_code() == self.spec_code(),
            r.spec_header() == Some(header),
            r.spec_header_v2() == self.spec_header_v2(),
    {
        RemotingCommand { code: self.code, header: Some(header), header_v2: self.header_v2 }
    }

    pub fn set_header_v2(self, header_v2: SendMessageRequestHeaderV2) -> (r: Self)
        ensures
            r.spec_code() == self.spec_code(),
            r.spec_header() == self.spec_header(),
            r.spec_header_v2() == Some(header_v2),
    {
        RemotingCommand { code: self.code, header: self.header, header_v2: Some(header_v2) }
    }

    pub fn code(&self) -> (r: i32)
        ensures
            r == self.spec_code(),
    {
        self.code
    }

    /// The long-named header decoded for this command, if any.
    pub fn decode_header(&self) -> (r: Option<SendMessageRequestHeader>)
        ensures
            r == self.spec_header(),
    {
        match &self.header {
            Some(h) => Some(h.clone_header()),
            None => None,
        }
    }

    /// The abbreviated header decoded for this command, if any.
    pub fn decode_header_v2(&self) -> (r: Option<SendMessageRequestHeaderV2>)
        ensures
            r == self.spec_header_v2(),
    {
        match &self.header_v2 {
            Some(h) => Some(h.clone_header()),
            None => None,
        }
    }
}

/// What `parse_request_header` returns, stated over the command alone:
/// for the compact request codes a decodable abbreviated header wins and is
/// converted; otherwise the long-named header, decoded as it stands.
pub open spec fn parse_ok(request: RemotingCommand, r: Option<SendMessageRequestHeader>) -> bool {
    if (request.spec_code() == RequestCode::SendMessageV2.spec_to_i32()
        || request.spec_code() == RequestCode::SendBatchMessage.spec_to_i32())
        && request.spec_header_v2() is Some {
        r is Some && v2_converts_to_v1(request.spec_header_v2()->0, r->0)
    } else {
        r == request.spec_header()
    }
}

/// Extracts the send-message header from a command: commands carrying a
/// compact request code are read through the abbreviated header shape and
/// converted; everything else is read as the long-named shape.
pub fn parse_request_header(request: &RemotingCommand) -> (r: Option<SendMessageRequestHeader>)
    ensures
        parse_ok(*request, r),
{
    let mut request_header_v2: Option<SendMessageRequestHeaderV2> = None;
    if RequestCode::SendMessageV2.to_i32() == request.code()
        || RequestCode::SendBatchMessage.to_i32() == request.code()
    {
        request_header_v2 = request.decode_header_v2();
    }

    match request_header_v2 {
        Some(header) => Some(header.create_send_message_request_header_v1()),
        None => request.decode_header(),
    }
}

} // verus!
