//! CLI-protocol message types.
//!
//! An operator client sends the coordinator exactly one state operation per
//! connection: bring an environment up to a desired-state document, tear it
//! down, or preview.  The coordinator answers nothing on this channel; it
//! closes the socket after the exchange.

use vstd::prelude::*;

use crate::codec::string_from_utf8;
use crate::errors::ProtocolError;
use vstd::utf8::{decode_utf8, encode_utf8, valid_utf8};

verus! {

broadcast use {vstd::utf8::encode_utf8_valid_utf8, vstd::utf8::encode_utf8_decode_utf8};

/// A pending change to a tracked item, by name.
#[derive(Debug, Clone)]
pub enum Transaction {
    Add(String),
    Delete(String),
    Update(String),
}

/// What the operator asks the coordinator to do with an environment.
#[derive(PartialEq, Eq, Structural, Clone, Copy, Debug)]
pub enum StateAction {
    Up,
    Down,
    Preview,
}

/// The one message a CLI connection carries.
pub struct StateOperationMessage {
    pub environment: String,
    pub action: StateAction,
    pub state: Option<String>,
    pub project: String,
}

pub struct StateOperationMessageView {
    pub environment: Seq<char>,
    pub action: StateAction,
    pub state: Option<Seq<char>>,
    pub project: Seq<char>,
}

impl View for StateOperationMessage {
    type V = StateOperationMessageView;

    open spec fn view(&self) -> StateOperationMessageView {
        StateOperationMessageView {
            environment: self.environment@,
            action: self.action,
            state: self.state.deep_view(),
            project: self.project@,
        }
    }
}

/// The first-generation device protocol: one opcode byte, then for a state
/// update the raw UTF-8 document.
pub enum RequestOperations {
    RequestState,
    UpdateState(String),
    DestroyState,
}

pub enum RequestOperationsView {
    RequestState,
    UpdateState(Seq<char>),
    DestroyState,
}

impl View for RequestOperations {
    type V = RequestOperationsView;

    open spec fn view(&self) -> RequestOperationsView {
        match self {
            RequestOperations::RequestState => RequestOperationsView::RequestState,
            RequestOperations::UpdateState(s) => RequestOperationsView::UpdateState(s@),
            RequestOperations::DestroyState => RequestOperationsView::DestroyState,
        }
    }
}

/// The frame for a first-generation message.
pub open spec fn enc_state_op(v: RequestOperationsView) -> Seq<u8> {
    match v {
        RequestOperationsView::RequestState => seq![1u8],
        RequestOperationsView::UpdateState(s) => seq![2u8] + encode_utf8(s),
        RequestOperationsView::DestroyState => seq![3u8],
    }
}

/// What decoding a first-generation frame must yield: the opcode picks the
/// message and a state update carries the rest of the frame as its
/// document.
pub open spec fn dec_state_op(b: Seq<u8>) -> Result<RequestOperationsView, ProtocolError> {
    if b.len() < 1 {
        Err(ProtocolError::Truncated)
    } else if b[0] == 1u8 {
        Ok(RequestOperationsView::RequestState)
    } else if b[0] == 2u8 {
        if valid_utf8(b.skip(1)) {
            Ok(RequestOperationsView::UpdateState(decode_utf8(b.skip(1))))
        } else {
            Err(ProtocolError::MalformedText)
        }
    } else if b[0] == 3u8 {
        Ok(RequestOperationsView::DestroyState)
    } else {
        Err(ProtocolError::UnknownOpcode)
    }
}

/// Encodes a first-generation message.
pub fn encode_state_operation(m: &RequestOperations) -> (out: Vec<u8>)
    ensures
        out@ == enc_state_op(m@),
{
    let mut out: Vec<u8> = Vec::new();
    match m {
        RequestOperations::RequestState => {
            out.push(1u8);
            proof {
                assert(out@ =~= enc_state_op(m@));
            }
        },
        RequestOperations::UpdateState(s) => {
            out.push(2u8);
            let mut payload = s.as_str().as_bytes_vec();
            out.append(&mut payload);
            proof {
                assert(out@ =~= enc_state_op(m@));
            }
        },
        RequestOperations::DestroyState => {
            out.push(3u8);
            proof {
                assert(out@ =~= enc_state_op(m@));
            }
        },
    }
    out
}

/// Decodes a first-generation frame.
pub fn decode_state_operation(bytes: &Vec<u8>) -> (r: Result<RequestOperations, ProtocolError>)
    ensures
        match r {
            Ok(m) => dec_state_op(bytes@) == Ok::<RequestOperationsView, ProtocolError>(m@),
            Err(e) => dec_state_op(bytes@) == Err::<RequestOperationsView, ProtocolError>(e),
        },
{
    if bytes.len() < 1 {
        return Err(ProtocolError::Truncated);
    }
    let opcode = bytes[0];
    if opcode == 1u8 {
        Ok(RequestOperations::RequestState)
    } else if opcode == 2u8 {
        let mut payload: Vec<u8> = Vec::new();
        let n = bytes.len();
        let mut j: usize = 1;
        while j < n
            invariant
                1 <= j <= n,
                n == bytes@.len(),
                payload@ == bytes@.subrange(1, j as int),
            decreases n - j,
        {
            payload.push(bytes[j]);
            proof {
                assert(payload@ =~= bytes@.subrange(1, j + 1));
            }
            j += 1;
        }
        proof {
            assert(payload@ =~= bytes@.skip(1));
        }
        match string_from_utf8(payload) {
            Some(s) => Ok(RequestOperations::UpdateState(s)),
            None => Err(ProtocolError::MalformedText),
        }
    } else if opcode == 3u8 {
        Ok(RequestOperations::DestroyState)
    } else {
        Err(ProtocolError::UnknownOpcode)
    }
}

/// Law: a first-generation frame decodes back to the message that was
/// encoded.
pub proof fn lemma_state_op_round_trip(v: RequestOperationsView)
    ensures
        dec_state_op(enc_state_op(v)) == Ok::<RequestOperationsView, ProtocolError>(v),
{
    match v {
        RequestOperationsView::RequestState => {},
        RequestOperationsView::UpdateState(s) => {
            let b = enc_state_op(v);
            assert(b[0] == 2u8);
            assert(b.skip(1) =~= encode_utf8(s));
        },
        RequestOperationsView::DestroyState => {},
    }
}

} // verus!
