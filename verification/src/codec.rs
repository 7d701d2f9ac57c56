//! The binary device-protocol codec.
//!
//! Every device message travels as one self-describing binary frame: a
//! single opcode byte, then length-prefixed fields, little-endian 32-bit
//! lengths and counts, UTF-8 text and raw 16-byte hashes.  Decoding is the
//! exact inverse of encoding: an unknown opcode, a frame that ends before
//! its announced content, bytes left over after it, or text that is not
//! UTF-8 are each a fatal [`ProtocolError`] for the connection.

use vstd::prelude::*;

use crate::errors::ProtocolError;
use crate::wire::{
    CurrentStatusResponse, CurrentStatusResponseView, DeviceStatus, EnvironmentUpdate,
    EnvironmentUpdateOperation, EnvironmentUpdateView, RequestOperations, RequestOperationsView,
    StateHash,
};
use vstd::utf8::{decode_utf8, encode_utf8, valid_utf8};

verus! {

broadcast use {vstd::utf8::encode_utf8_valid_utf8, vstd::utf8::encode_utf8_decode_utf8};

/// A 32-bit value from its four little-endian bytes.
pub open spec fn u32_from_le(b0: u8, b1: u8, b2: u8, b3: u8) -> u32 {
    (b0 as u32) | ((b1 as u32) << 8) | ((b2 as u32) << 16) | ((b3 as u32) << 24)
}

/// The four little-endian bytes of a 32-bit value.
pub open spec fn enc_u32(n: u32) -> Seq<u8> {
    seq![
        (n & 0xff) as u8,
        ((n >> 8) & 0xff) as u8,
        ((n >> 16) & 0xff) as u8,
        ((n >> 24) & 0xff) as u8,
    ]
}

proof fn lemma_u32_le_round_trip(n: u32)
    ensures
        u32_from_le(
            (n & 0xff) as u8,
            ((n >> 8) & 0xff) as u8,
            ((n >> 16) & 0xff) as u8,
            ((n >> 24) & 0xff) as u8,
        ) == n,
{
    assert((((n & 0xff) as u8) as u32) | (((((n >> 8) & 0xff) as u8) as u32) << 8) | (((((n >> 16)
        & 0xff) as u8) as u32) << 16) | (((((n >> 24) & 0xff) as u8) as u32) << 24) == n)
        by (bit_vector);
}

/// Text fits a frame when its UTF-8 form fits a 32-bit length.
pub open spec fn text_fits(s: Seq<char>) -> bool {
    encode_utf8(s).len() <= u32::MAX
}

/// A length-prefixed UTF-8 text field.
pub open spec fn enc_text(s: Seq<char>) -> Seq<u8> {
    enc_u32(encode_utf8(s).len() as u32) + encode_utf8(s)
}

/// An optional text field: one presence byte, then the text if present.
pub open spec fn enc_opt_text(s: Option<Seq<char>>) -> Seq<u8> {
    match s {
        None => seq![0u8],
        Some(t) => seq![1u8] + enc_text(t),
    }
}

pub open spec fn enc_operation(op: EnvironmentUpdateOperation) -> Seq<u8> {
    match op {
        EnvironmentUpdateOperation::Create => seq![1u8],
        EnvironmentUpdateOperation::Update => seq![2u8],
        EnvironmentUpdateOperation::Destroy => seq![3u8],
    }
}

pub open spec fn enc_device_status(st: DeviceStatus) -> Seq<u8> {
    match st {
        DeviceStatus::Idle => seq![1u8],
        DeviceStatus::InProgress => seq![2u8],
        DeviceStatus::Ready => seq![3u8],
    }
}

pub open spec fn enc_env_update(u: EnvironmentUpdateView) -> Seq<u8> {
    enc_operation(u.operation) + enc_opt_text(u.state)
}

pub open spec fn enc_update_entries(s: Seq<(Seq<char>, EnvironmentUpdateView)>) -> Seq<u8>
    decreases s.len(),
{
    if s.len() == 0 {
        Seq::empty()
    } else {
        enc_text(s.first().0) + enc_env_update(s.first().1) + enc_update_entries(s.drop_first())
    }
}

pub open spec fn enc_hash_entries(s: Seq<(Seq<char>, Seq<u8>)>) -> Seq<u8>
    decreases s.len(),
{
    if s.len() == 0 {
        Seq::empty()
    } else {
        enc_text(s.first().0) + s.first().1 + enc_hash_entries(s.drop_first())
    }
}

/// An update map fits a frame: its size and every name and document do.
pub open spec fn update_entries_fit(s: Seq<(Seq<char>, EnvironmentUpdateView)>) -> bool {
    &&& s.len() <= u32::MAX
    &&& forall|i: int|
        0 <= i < s.len() ==> text_fits((#[trigger] s[i]).0) && (match s[i].1.state {
            Some(t) => text_fits(t),
            None => true,
        })
}

/// A status report fits a frame: its size and every name do, and every
/// hash is exactly 16 bytes.
pub open spec fn hash_entries_fit(s: Seq<(Seq<char>, Seq<u8>)>) -> bool {
    &&& s.len() <= u32::MAX
    &&& forall|i: int|
        0 <= i < s.len() ==> text_fits((#[trigger] s[i]).0) && s[i].1.len() == 16
}

/// The frame for a coordinator-to-device message.
pub open spec fn enc_request(v: RequestOperationsView) -> Seq<u8> {
    match v {
        RequestOperationsView::StatusRequest => seq![1u8],
        RequestOperationsView::UpdateEnvironmentsRequest(m) => seq![2u8] + enc_u32(
            m.len() as u32,
        ) + enc_update_entries(m),
    }
}

/// A coordinator-to-device message fits a frame.
pub open spec fn request_fits(v: RequestOperationsView) -> bool {
    match v {
        RequestOperationsView::StatusRequest => true,
        RequestOperationsView::UpdateEnvironmentsRequest(m) => update_entries_fit(m),
    }
}

/// The frame for a device's status report.
pub open spec fn enc_status_response(v: CurrentStatusResponseView) -> Seq<u8> {
    enc_device_status(v.status) + enc_text(v.timestamp) + enc_u32(v.state_hashes.len() as u32)
        + enc_hash_entries(v.state_hashes)
}

/// A status report fits a frame.
pub open spec fn status_response_fits(v: CurrentStatusResponseView) -> bool {
    &&& text_fits(v.timestamp)
    &&& hash_entries_fit(v.state_hashes)
}

// ------------------------------------------------------------------
// Spec decoders: each consumes a prefix of the bytes and returns the
// value with the rest, or the protocol error the frame earns.
pub open spec fn take_u32(b: Seq<u8>) -> Result<(u32, Seq<u8>), ProtocolError> {
    if b.len() < 4 {
        Err(ProtocolError::Truncated)
    } else {
        Ok((u32_from_le(b[0], b[1], b[2], b[3]), b.skip(4)))
    }
}

pub open spec fn take_text(b: Seq<u8>) -> Result<(Seq<char>, Seq<u8>), ProtocolError> {
    match take_u32(b) {
        Err(e) => Err(e),
        Ok((n, rest)) => {
            if rest.len() < n {
                Err(ProtocolError::Truncated)
            } else {
                let sb = rest.take(n as int);
                if valid_utf8(sb) {
                    Ok((decode_utf8(sb), rest.skip(n as int)))
                } else {
                    Err(ProtocolError::MalformedText)
                }
            }
        },
    }
}

pub open spec fn take_opt_text(b: Seq<u8>) -> Result<(Option<Seq<char>>, Seq<u8>), ProtocolError> {
    if b.len() < 1 {
        Err(ProtocolError::Truncated)
    } else if b[0] == 0u8 {
        Ok((None, b.skip(1)))
    } else if b[0] == 1u8 {
        match take_text(b.skip(1)) {
            Err(e) => Err(e),
            Ok((t, rest)) => Ok((Some(t), rest)),
        }
    } else {
        Err(ProtocolError::UnknownOpcode)
    }
}

pub open spec fn take_operation(b: Seq<u8>) -> Result<
    (EnvironmentUpdateOperation, Seq<u8>),
    ProtocolError,
> {
    if b.len() < 1 {
        Err(ProtocolError::Truncated)
    } else if b[0] == 1u8 {
        Ok((EnvironmentUpdateOperation::Create, b.skip(1)))
    } else if b[0] == 2u8 {
        Ok((EnvironmentUpdateOperation::Update, b.skip(1)))
    } else if b[0] == 3u8 {
        Ok((EnvironmentUpdateOperation::Destroy, b.skip(1)))
    } else {
        Err(ProtocolError::UnknownOpcode)
    }
}

pub open spec fn take_device_status(b: Seq<u8>) -> Result<(DeviceStatus, Seq<u8>), ProtocolError> {
    if b.len() < 1 {
        Err(ProtocolError::Truncated)
    } else if b[0] == 1u8 {
        Ok((DeviceStatus::Idle, b.skip(1)))
    } else if b[0] == 2u8 {
        Ok((DeviceStatus::InProgress, b.skip(1)))
    } else if b[0] == 3u8 {
        Ok((DeviceStatus::Ready, b.skip(1)))
    } else {
        Err(ProtocolError::UnknownOpcode)
    }
}

pub open spec fn take_env_update(b: Seq<u8>) -> Result<
    (EnvironmentUpdateView, Seq<u8>),
    ProtocolError,
> {
    match take_operation(b) {
        Err(e) => Err(e),
        Ok((op, rest)) => match take_opt_text(rest) {
            Err(e) => Err(e),
            Ok((st, rest2)) => Ok((EnvironmentUpdateView { state: st, operation: op }, rest2)),
        },
    }
}

pub open spec fn take_update_entries(b: Seq<u8>, n: nat) -> Result<
    (Seq<(Seq<char>, EnvironmentUpdateView)>, Seq<u8>),
    ProtocolError,
>
    decreases n,
{
    if n == 0 {
        Ok((Seq::empty(), b))
    } else {
        match take_text(b) {
            Err(e) => Err(e),
            Ok((name, rest)) => match take_env_update(rest) {
                Err(e) => Err(e),
                Ok((u, rest2)) => match take_update_entries(rest2, (n - 1) as nat) {
                    Err(e) => Err(e),
                    Ok((tail, rest3)) => Ok((seq![(name, u)] + tail, rest3)),
                },
            },
        }
    }
}

pub open spec fn take_hash(b: Seq<u8>) -> Result<(Seq<u8>, Seq<u8>), ProtocolError> {
    if b.len() < 16 {
        Err(ProtocolError::Truncated)
    } else {
        Ok((b.take(16), b.skip(16)))
    }
}

pub open spec fn take_hash_entries(b: Seq<u8>, n: nat) -> Result<
    (Seq<(Seq<char>, Seq<u8>)>, Seq<u8>),
    ProtocolError,
>
    decreases n,
{
    if n == 0 {
        Ok((Seq::empty(), b))
    } else {
        match take_text(b) {
            Err(e) => Err(e),
            Ok((name, rest)) => match take_hash(rest) {
                Err(e) => Err(e),
                Ok((h, rest2)) => match take_hash_entries(rest2, (n - 1) as nat) {
                    Err(e) => Err(e),
                    Ok((tail, rest3)) => Ok((seq![(name, h)] + tail, rest3)),
                },
            },
        }
    }
}

/// What decoding a coordinator-to-device frame must yield.
pub open spec fn dec_request(b: Seq<u8>) -> Result<RequestOperationsView, ProtocolError> {
    if b.len() < 1 {
        Err(ProtocolError::Truncated)
    } else if b[0] == 1u8 {
        if b.len() == 1 {
            Ok(RequestOperationsView::StatusRequest)
        } else {
            Err(ProtocolError::TrailingBytes)
        }
    } else if b[0] == 2u8 {
        match take_u32(b.skip(1)) {
            Err(e) => Err(e),
            Ok((n, rest)) => match take_update_entries(rest, n as nat) {
                Err(e) => Err(e),
                Ok((m, rest2)) => if rest2.len() == 0 {
                    Ok(RequestOperationsView::UpdateEnvironmentsRequest(m))
                } else {
                    Err(ProtocolError::TrailingBytes)
                },
            },
        }
    } else {
        Err(ProtocolError::UnknownOpcode)
    }
}

/// What decoding a status-report frame must yield.
pub open spec fn dec_status_response(b: Seq<u8>) -> Result<
    CurrentStatusResponseView,
    ProtocolError,
> {
    match take_device_status(b) {
        Err(e) => Err(e),
        Ok((st, rest)) => match take_text(rest) {
            Err(e) => Err(e),
            Ok((ts, rest2)) => match take_u32(rest2) {
                Err(e) => Err(e),
                Ok((n, rest3)) => match take_hash_entries(rest3, n as nat) {
                    Err(e) => Err(e),
                    Ok((hs, rest4)) => if rest4.len() == 0 {
                        Ok(
                            CurrentStatusResponseView {
                                status: st,
                                timestamp: ts,
                                state_hashes: hs,
                            },
                        )
                    } else {
                        Err(ProtocolError::TrailingBytes)
                    },
                },
            },
        },
    }
}

// ------------------------------------------------------------------
// Round trip: decoding an encoded frame yields the message back.
proof fn lemma_take_u32_enc(n: u32, rest: Seq<u8>)
    ensures
        take_u32(enc_u32(n) + rest) == Ok::<(u32, Seq<u8>), ProtocolError>((n, rest)),
{
    let b = enc_u32(n) + rest;
    assert(b[0] == (n & 0xff) as u8);
    assert(b[1] == ((n >> 8) & 0xff) as u8);
    assert(b[2] == ((n >> 16) & 0xff) as u8);
    assert(b[3] == ((n >> 24) & 0xff) as u8);
    lemma_u32_le_round_trip(n);
    assert(b.skip(4) =~= rest);
}

proof fn lemma_take_text_enc(t: Seq<char>, rest: Seq<u8>)
    requires
        text_fits(t),
    ensures
        take_text(enc_text(t) + rest) == Ok::<(Seq<char>, Seq<u8>), ProtocolError>((t, rest)),
{
    let e = encode_utf8(t);
    let n = e.len() as u32;
    assert(enc_text(t) + rest =~= enc_u32(n) + (e + rest));
    lemma_take_u32_enc(n, e + rest);
    assert((e + rest).take(n as int) =~= e);
    assert((e + rest).skip(n as int) =~= rest);
    assert(valid_utf8(e));
    assert(decode_utf8(encode_utf8(t)) == t);
}

proof fn lemma_take_opt_text_enc(o: Option<Seq<char>>, rest: Seq<u8>)
    requires
        match o {
            Some(t) => text_fits(t),
            None => true,
        },
    ensures
        take_opt_text(enc_opt_text(o) + rest) == Ok::<
            (Option<Seq<char>>, Seq<u8>),
            ProtocolError,
        >((o, rest)),
{
    match o {
        None => {
            let b = enc_opt_text(o) + rest;
            assert(b[0] == 0u8);
            assert(b.skip(1) =~= rest);
        },
        Some(t) => {
            let b = enc_opt_text(o) + rest;
            assert(b[0] == 1u8);
            assert(b.skip(1) =~= enc_text(t) + rest);
            lemma_take_text_enc(t, rest);
        },
    }
}

proof fn lemma_take_operation_enc(op: EnvironmentUpdateOperation, rest: Seq<u8>)
    ensures
        take_operation(enc_operation(op) + rest) == Ok::<
            (EnvironmentUpdateOperation, Seq<u8>),
            ProtocolError,
        >((op, rest)),
{
    let b = enc_operation(op) + rest;
    assert(b.skip(1) =~= rest);
}

proof fn lemma_take_device_status_enc(st: DeviceStatus, rest: Seq<u8>)
    ensures
        take_device_status(enc_device_status(st) + rest) == Ok::<
            (DeviceStatus, Seq<u8>),
            ProtocolError,
        >((st, rest)),
{
    let b = enc_device_status(st) + rest;
    assert(b.skip(1) =~= rest);
}

proof fn lemma_take_env_update_enc(u: EnvironmentUpdateView, rest: Seq<u8>)
    requires
        match u.state {
            Some(t) => text_fits(t),
            None => true,
        },
    ensures
        take_env_update(enc_env_update(u) + rest) == Ok::<
            (EnvironmentUpdateView, Seq<u8>),
            ProtocolError,
        >((u, rest)),
{
    assert(enc_env_update(u) + rest =~= enc_operation(u.operation) + (enc_opt_text(u.state)
        + rest));
    lemma_take_operation_enc(u.operation, enc_opt_text(u.state) + rest);
    lemma_take_opt_text_enc(u.state, rest);
}

#[verifier::rlimit(60)]
proof fn lemma_take_update_entries_enc(s: Seq<(Seq<char>, EnvironmentUpdateView)>, rest: Seq<u8>)
    requires
        update_entries_fit(s),
    ensures
        take_update_entries(enc_update_entries(s) + rest, s.len() as nat) == Ok::<
            (Seq<(Seq<char>, EnvironmentUpdateView)>, Seq<u8>),
            ProtocolError,
        >((s, rest)),
    decreases s.len(),
{
    if s.len() == 0 {
        assert(enc_update_entries(s) + rest =~= rest);
        assert(s =~= Seq::<(Seq<char>, EnvironmentUpdateView)>::empty());
    } else {
        let e = s.first();
        let tail = s.drop_first();
        assert(e == s[0]);
        assert((e.0, e.1) == e);
        let r2 = enc_update_entries(tail) + rest;
        let r1 = enc_env_update(e.1) + r2;
        assert(enc_update_entries(s) + rest =~= enc_text(e.0) + r1);
        lemma_take_text_enc(e.0, r1);
        assert(take_text(enc_update_entries(s) + rest) == Ok::<
            (Seq<char>, Seq<u8>),
            ProtocolError,
        >((e.0, r1)));
        lemma_take_env_update_enc(e.1, r2);
        assert(update_entries_fit(tail)) by {
            assert forall|i: int| 0 <= i < tail.len() implies text_fits((#[trigger] tail[i]).0)
                && (match tail[i].1.state {
                Some(t) => text_fits(t),
                None => true,
            }) by {
                assert(tail[i] == s[i + 1]);
            }
        }
        lemma_take_update_entries_enc(tail, rest);
        assert(seq![(e.0, e.1)] + tail =~= s);
    }
}

#[verifier::rlimit(60)]
proof fn lemma_take_hash_entries_enc(s: Seq<(Seq<char>, Seq<u8>)>, rest: Seq<u8>)
    requires
        hash_entries_fit(s),
    ensures
        take_hash_entries(enc_hash_entries(s) + rest, s.len() as nat) == Ok::<
            (Seq<(Seq<char>, Seq<u8>)>, Seq<u8>),
            ProtocolError,
        >((s, rest)),
    decreases s.len(),
{
    if s.len() == 0 {
        assert(enc_hash_entries(s) + rest =~= rest);
        assert(s =~= Seq::<(Seq<char>, Seq<u8>)>::empty());
    } else {
        let e = s.first();
        let tail = s.drop_first();
        assert(e == s[0]);
        assert((e.0, e.1) == e);
        let r2 = enc_hash_entries(tail) + rest;
        let r1 = e.1 + r2;
        assert(enc_hash_entries(s) + rest =~= enc_text(e.0) + r1);
        lemma_take_text_enc(e.0, r1);
        assert(take_text(enc_hash_entries(s) + rest) == Ok::<(Seq<char>, Seq<u8>), ProtocolError>(
            (e.0, r1),
        ));
        assert(e.1.len() == 16);
        assert(r1.take(16) =~= e.1);
        assert(r1.skip(16) =~= r2);
        assert(take_hash(r1) == Ok::<(Seq<u8>, Seq<u8>), ProtocolError>((e.1, r2)));
        assert(hash_entries_fit(tail)) by {
            assert forall|i: int| 0 <= i < tail.len() implies text_fits((#[trigger] tail[i]).0)
                && tail[i].1.len() == 16 by {
                assert(tail[i] == s[i + 1]);
            }
        }
        lemma_take_hash_entries_enc(tail, rest);
        assert(seq![(e.0, e.1)] + tail =~= s);
    }
}

/// Law: a coordinator-to-device frame decodes back to the message that was
/// encoded, for every message that fits a frame.
pub proof fn lemma_request_round_trip(v: RequestOperationsView)
    requires
        request_fits(v),
    ensures
        dec_request(enc_request(v)) == Ok::<RequestOperationsView, ProtocolError>(v),
{
    match v {
        RequestOperationsView::StatusRequest => {},
        RequestOperationsView::UpdateEnvironmentsRequest(m) => {
            let b = enc_request(v);
            assert(b[0] == 2u8);
            assert(b.skip(1) =~= enc_u32(m.len() as u32) + (enc_update_entries(m)
                + Seq::<u8>::empty()));
            lemma_take_u32_enc(m.len() as u32, enc_update_entries(m) + Seq::<u8>::empty());
            assert(enc_update_entries(m) + Seq::<u8>::empty() =~= enc_update_entries(m)
                + Seq::<u8>::empty());
            lemma_take_update_entries_enc(m, Seq::<u8>::empty());
        },
    }
}

/// Law: a status-report frame decodes back to the report that was encoded,
/// for every report that fits a frame.
pub proof fn lemma_status_response_round_trip(v: CurrentStatusResponseView)
    requires
        status_response_fits(v),
    ensures
        dec_status_response(enc_status_response(v)) == Ok::<
            CurrentStatusResponseView,
            ProtocolError,
        >(v),
{
    let b = enc_status_response(v);
    let hs = v.state_hashes;
    assert(b =~= enc_device_status(v.status) + (enc_text(v.timestamp) + (enc_u32(hs.len() as u32)
        + (enc_hash_entries(hs) + Seq::<u8>::empty()))));
    lemma_take_device_status_enc(
        v.status,
        enc_text(v.timestamp) + (enc_u32(hs.len() as u32) + (enc_hash_entries(hs)
            + Seq::<u8>::empty())),
    );
    lemma_take_text_enc(
        v.timestamp,
        enc_u32(hs.len() as u32) + (enc_hash_entries(hs) + Seq::<u8>::empty()),
    );
    lemma_take_u32_enc(hs.len() as u32, enc_hash_entries(hs) + Seq::<u8>::empty());
    lemma_take_hash_entries_enc(hs, Seq::<u8>::empty());
}

// ------------------------------------------------------------------
// Executable codec.
/// Relies on String::from_utf8: it accepts exactly the valid UTF-8 byte
/// vectors and yields the characters they encode.
#[verifier::external_body]
pub(crate) fn string_from_utf8(bytes: Vec<u8>) -> (r: Option<String>)
    ensures
        r is Some <==> valid_utf8(bytes@),
        r matches Some(s) ==> s@ == decode_utf8(bytes@),
{
    match String::from_utf8(bytes) {
        Ok(s) => Some(s),
        Err(_) => None,
    }
}

fn append_u32(out: &mut Vec<u8>, n: u32)
    ensures
        final(out)@ == old(out)@ + enc_u32(n),
{
    proof {
        assert(n & 0xff < 256) by (bit_vector);
        assert((n >> 8) & 0xff < 256) by (bit_vector);
        assert((n >> 16) & 0xff < 256) by (bit_vector);
        assert((n >> 24) & 0xff < 256) by (bit_vector);
    }
    out.push((n & 0xff) as u8);
    out.push(((n >> 8) & 0xff) as u8);
    out.push(((n >> 16) & 0xff) as u8);
    out.push(((n >> 24) & 0xff) as u8);
    proof {
        assert(out@ =~= old(out)@ + enc_u32(n));
    }
}

fn append_text(out: &mut Vec<u8>, s: &String)
    requires
        text_fits(s@),
    ensures
        final(out)@ == old(out)@ + enc_text(s@),
{
    let mut bytes = s.as_str().as_bytes_vec();
    let n = bytes.len() as u32;
    append_u32(out, n);
    out.append(&mut bytes);
    proof {
        assert(out@ =~= old(out)@ + enc_text(s@));
    }
}

fn append_opt_text(out: &mut Vec<u8>, s: &Option<String>)
    requires
        match s {
            Some(t) => text_fits(t@),
            None => true,
        },
    ensures
        final(out)@ == old(out)@ + enc_opt_text(s.deep_view()),
{
    match s {
        None => {
            out.push(0u8);
            proof {
                assert(out@ =~= old(out)@ + enc_opt_text(s.deep_view()));
            }
        },
        Some(t) => {
            out.push(1u8);
            append_text(out, t);
            proof {
                assert(out@ =~= old(out)@ + enc_opt_text(s.deep_view()));
            }
        },
    }
}

proof fn lemma_enc_update_entries_snoc(
    s: Seq<(Seq<char>, EnvironmentUpdateView)>,
    e: (Seq<char>, EnvironmentUpdateView),
)
    ensures
        enc_update_entries(s.push(e)) == enc_update_entries(s) + enc_text(e.0) + enc_env_update(
            e.1,
        ),
    decreases s.len(),
{
    reveal_with_fuel(enc_update_entries, 3);
    if s.len() == 0 {
        assert(s.push(e).first() == e);
        assert(s.push(e).drop_first() =~= Seq::<(Seq<char>, EnvironmentUpdateView)>::empty());
        assert(enc_update_entries(s.push(e)) =~= enc_update_entries(s) + enc_text(e.0)
            + enc_env_update(e.1));
    } else {
        let t = s.drop_first();
        let f = s.first();
        assert(s.push(e).first() == f);
        assert(s.push(e).drop_first() =~= t.push(e));
        lemma_enc_update_entries_snoc(t, e);
        assert(enc_update_entries(s.push(e)) == enc_text(f.0) + enc_env_update(f.1)
            + enc_update_entries(t.push(e)));
        assert(enc_update_entries(s) == enc_text(f.0) + enc_env_update(f.1)
            + enc_update_entries(t));
        assert(enc_update_entries(s.push(e)) =~= enc_update_entries(s) + enc_text(e.0)
            + enc_env_update(e.1));
    }
}

proof fn lemma_enc_hash_entries_snoc(s: Seq<(Seq<char>, Seq<u8>)>, e: (Seq<char>, Seq<u8>))
    ensures
        enc_hash_entries(s.push(e)) == enc_hash_entries(s) + enc_text(e.0) + e.1,
    decreases s.len(),
{
    reveal_with_fuel(enc_hash_entries, 3);
    if s.len() == 0 {
        assert(s.push(e).first() == e);
        assert(s.push(e).drop_first() =~= Seq::<(Seq<char>, Seq<u8>)>::empty());
        assert(enc_hash_entries(s.push(e)) =~= enc_hash_entries(s) + enc_text(e.0) + e.1);
    } else {
        let t = s.drop_first();
        let f = s.first();
        assert(s.push(e).first() == f);
        assert(s.push(e).drop_first() =~= t.push(e));
        lemma_enc_hash_entries_snoc(t, e);
        assert(enc_hash_entries(s.push(e)) == enc_text(f.0) + f.1 + enc_hash_entries(t.push(e)));
        assert(enc_hash_entries(s) == enc_text(f.0) + f.1 + enc_hash_entries(t));
        assert(enc_hash_entries(s.push(e)) =~= enc_hash_entries(s) + enc_text(e.0) + e.1);
    }
}

/// Encodes a coordinator-to-device message as one binary frame.
pub fn encode_request(m: &RequestOperations) -> (out: Vec<u8>)
    requires
        request_fits(m@),
    ensures
        out@ == enc_request(m@),
{
    let mut out: Vec<u8> = Vec::new();
    match m {
        RequestOperations::StatusRequest => {
            out.push(1u8);
            proof {
                assert(out@ =~= enc_request(m@));
            }
        },
        RequestOperations::UpdateEnvironmentsRequest(entries) => {
            let ghost mv = (m@)->UpdateEnvironmentsRequest_0;
            out.push(2u8);
            append_u32(&mut out, entries.len() as u32);
            let n = entries.len();
            let mut i: usize = 0;
            while i < n
                invariant
                    i <= n,
                    n == entries@.len(),
                    mv.len() == entries@.len(),
                    forall|j: int| 0 <= j < entries@.len() ==> #[trigger] mv[j] == (
                        entries@[j].0@,
                        entries@[j].1@,
                    ),
                    update_entries_fit(mv),
                    out@ == seq![2u8] + enc_u32(mv.len() as u32) + enc_update_entries(
                        mv.take(i as int),
                    ),
                decreases n - i,
            {
                let ghost pre = out@;
                proof {
                    assert(mv[i as int] == (entries@[i as int].0@, entries@[i as int].1@));
                    assert(text_fits(mv[i as int].0));
                }
                append_text(&mut out, &entries[i].0);
                match &entries[i].1.operation {
                    EnvironmentUpdateOperation::Create => out.push(1u8),
                    EnvironmentUpdateOperation::Update => out.push(2u8),
                    EnvironmentUpdateOperation::Destroy => out.push(3u8),
                }
                proof {
                    assert(match mv[i as int].1.state {
                        Some(t) => text_fits(t),
                        None => true,
                    });
                    assert(entries@[i as int].1@.state == entries@[i as int].1.state.deep_view());
                }
                append_opt_text(&mut out, &entries[i].1.state);
                proof {
                    assert(mv.take(i + 1) =~= mv.take(i as int).push(mv[i as int]));
                    lemma_enc_update_entries_snoc(mv.take(i as int), mv[i as int]);
                    assert(out@ =~= seq![2u8] + enc_u32(mv.len() as u32) + enc_update_entries(
                        mv.take(i + 1),
                    ));
                }
                i += 1;
            }
            proof {
                assert(mv.take(n as int) =~= mv);
            }
        },
    }
    out
}

/// Encodes a device's status report as one binary frame.
pub fn encode_status_response(m: &CurrentStatusResponse) -> (out: Vec<u8>)
    requires
        status_response_fits(m@),
    ensures
        out@ == enc_status_response(m@),
{
    let mut out: Vec<u8> = Vec::new();
    match m.status {
        DeviceStatus::Idle => out.push(1u8),
        DeviceStatus::InProgress => out.push(2u8),
        DeviceStatus::Ready => out.push(3u8),
    }
    append_text(&mut out, &m.timestamp);
    append_u32(&mut out, m.state_hashes.len() as u32);
    let ghost hv = m@.state_hashes;
    let ghost base = out@;
    let n = m.state_hashes.len();
    let mut i: usize = 0;
    while i < n
        invariant
            i <= n,
            n == m.state_hashes@.len(),
            hv.len() == m.state_hashes@.len(),
            forall|j: int| 0 <= j < m.state_hashes@.len() ==> #[trigger] hv[j] == (
                m.state_hashes@[j].0@,
                m.state_hashes@[j].1@,
            ),
            hash_entries_fit(hv),
            base == enc_device_status(m@.status) + enc_text(m@.timestamp) + enc_u32(
                hv.len() as u32,
            ),
            out@ == base + enc_hash_entries(hv.take(i as int)),
        decreases n - i,
    {
        proof {
            assert(hv[i as int] == (m.state_hashes@[i as int].0@, m.state_hashes@[i as int].1@));
            assert(text_fits(hv[i as int].0));
        }
        append_text(&mut out, &m.state_hashes[i].0);
        let mut j: usize = 0;
        let ghost mid = out@;
        while j < 16
            invariant
                j <= 16,
                i < m.state_hashes@.len(),
                out@ == mid + m.state_hashes@[i as int].1@.take(j as int),
            decreases 16 - j,
        {
            out.push(m.state_hashes[i].1[j]);
            proof {
                assert(out@ =~= mid + m.state_hashes@[i as int].1@.take(j + 1));
            }
            j += 1;
        }
        proof {
            assert(m.state_hashes@[i as int].1@.take(16) =~= m.state_hashes@[i as int].1@);
            assert(hv.take(i + 1) =~= hv.take(i as int).push(hv[i as int]));
            lemma_enc_hash_entries_snoc(hv.take(i as int), hv[i as int]);
            assert(out@ =~= base + enc_hash_entries(hv.take(i + 1)));
        }
        i += 1;
    }
    proof {
        assert(hv.take(n as int) =~= hv);
        assert(out@ =~= enc_status_response(m@));
    }
    out
}

fn read_u32(bytes: &Vec<u8>, pos: usize) -> (r: Result<(u32, usize), ProtocolError>)
    requires
        pos <= bytes@.len(),
    ensures
        match r {
            Ok((n, p2)) => pos <= p2 <= bytes@.len() && take_u32(bytes@.skip(pos as int)) == Ok::<
                (u32, Seq<u8>),
                ProtocolError,
            >((n, bytes@.skip(p2 as int))),
            Err(e) => take_u32(bytes@.skip(pos as int)) == Err::<(u32, Seq<u8>), ProtocolError>(e),
        },
{
    if bytes.len() < 4 || pos > bytes.len() - 4 {
        return Err(ProtocolError::Truncated);
    }
    let n = (bytes[pos] as u32) | ((bytes[pos + 1] as u32) << 8) | ((bytes[pos + 2] as u32) << 16)
        | ((bytes[pos + 3] as u32) << 24);
    proof {
        let sb = bytes@.skip(pos as int);
        assert(sb[0] == bytes@[pos as int]);
        assert(sb[1] == bytes@[pos + 1]);
        assert(sb[2] == bytes@[pos + 2]);
        assert(sb[3] == bytes@[pos + 3]);
        assert(sb.skip(4) =~= bytes@.skip(pos + 4));
    }
    Ok((n, pos + 4))
}

fn read_text(bytes: &Vec<u8>, pos: usize) -> (r: Result<(String, usize), ProtocolError>)
    requires
        pos <= bytes@.len(),
    ensures
        match r {
            Ok((t, p2)) => pos <= p2 <= bytes@.len() && take_text(bytes@.skip(pos as int)) == Ok::<
                (Seq<char>, Seq<u8>),
                ProtocolError,
            >((t@, bytes@.skip(p2 as int))),
            Err(e) => take_text(bytes@.skip(pos as int)) == Err::<
                (Seq<char>, Seq<u8>),
                ProtocolError,
            >(e),
        },
{
    let (n, p1) = match read_u32(bytes, pos) {
        Ok(v) => v,
        Err(e) => {
            return Err(e);
        },
    };
    let len = n as usize;
    if bytes.len() - p1 < len {
        proof {
            assert(bytes@.skip(p1 as int).len() < n);
        }
        return Err(ProtocolError::Truncated);
    }
    let mut buf: Vec<u8> = Vec::new();
    let mut j: usize = 0;
    while j < len
        invariant
            j <= len,
            p1 + len <= bytes@.len(),
            bytes@.len() <= usize::MAX,
            buf@ == bytes@.subrange(p1 as int, p1 + j),
        decreases len - j,
    {
        buf.push(bytes[p1 + j]);
        proof {
            assert(buf@ =~= bytes@.subrange(p1 as int, p1 + j + 1));
        }
        j += 1;
    }
    proof {
        assert(buf@ =~= bytes@.skip(p1 as int).take(n as int));
        assert(bytes@.skip(p1 as int).skip(n as int) =~= bytes@.skip(p1 + len));
    }
    match string_from_utf8(buf) {
        Some(t) => Ok((t, p1 + len)),
        None => Err(ProtocolError::MalformedText),
    }
}

fn read_opt_text(bytes: &Vec<u8>, pos: usize) -> (r: Result<(Option<String>, usize), ProtocolError>)
    requires
        pos <= bytes@.len(),
    ensures
        match r {
            Ok((t, p2)) => pos <= p2 <= bytes@.len() && take_opt_text(bytes@.skip(pos as int))
                == Ok::<(Option<Seq<char>>, Seq<u8>), ProtocolError>((
                t.deep_view(),
                bytes@.skip(p2 as int),
            )),
            Err(e) => take_opt_text(bytes@.skip(pos as int)) == Err::<
                (Option<Seq<char>>, Seq<u8>),
                ProtocolError,
            >(e),
        },
{
    if pos >= bytes.len() {
        return Err(ProtocolError::Truncated);
    }
    let tag = bytes[pos];
    proof {
        assert(bytes@.skip(pos as int)[0] == bytes@[pos as int]);
        assert(bytes@.skip(pos as int).skip(1) =~= bytes@.skip(pos + 1));
    }
    if tag == 0u8 {
        Ok((None, pos + 1))
    } else if tag == 1u8 {
        match read_text(bytes, pos + 1) {
            Ok((t, p2)) => Ok((Some(t), p2)),
            Err(e) => Err(e),
        }
    } else {
        Err(ProtocolError::UnknownOpcode)
    }
}

fn read_operation(bytes: &Vec<u8>, pos: usize) -> (r: Result<
    (EnvironmentUpdateOperation, usize),
    ProtocolError,
>)
    requires
        pos <= bytes@.len(),
    ensures
        match r {
            Ok((op, p2)) => pos <= p2 <= bytes@.len() && take_operation(bytes@.skip(pos as int))
                == Ok::<(EnvironmentUpdateOperation, Seq<u8>), ProtocolError>((
                op,
                bytes@.skip(p2 as int),
            )),
            Err(e) => take_operation(bytes@.skip(pos as int)) == Err::<
                (EnvironmentUpdateOperation, Seq<u8>),
                ProtocolError,
            >(e),
        },
{
    if pos >= bytes.len() {
        return Err(ProtocolError::Truncated);
    }
    let tag = bytes[pos];
    proof {
        assert(bytes@.skip(pos as int)[0] == bytes@[pos as int]);
        assert(bytes@.skip(pos as int).skip(1) =~= bytes@.skip(pos + 1));
    }
    if tag == 1u8 {
        Ok((EnvironmentUpdateOperation::Create, pos + 1))
    } else if tag == 2u8 {
        Ok((EnvironmentUpdateOperation::Update, pos + 1))
    } else if tag == 3u8 {
        Ok((EnvironmentUpdateOperation::Destroy, pos + 1))
    } else {
        Err(ProtocolError::UnknownOpcode)
    }
}

fn read_device_status(bytes: &Vec<u8>, pos: usize) -> (r: Result<
    (DeviceStatus, usize),
    ProtocolError,
>)
    requires
        pos <= bytes@.len(),
    ensures
        match r {
            Ok((st, p2)) => pos <= p2 <= bytes@.len() && take_device_status(
                bytes@.skip(pos as int),
            ) == Ok::<(DeviceStatus, Seq<u8>), ProtocolError>((st, bytes@.skip(p2 as int))),
            Err(e) => take_device_status(bytes@.skip(pos as int)) == Err::<
                (DeviceStatus, Seq<u8>),
                ProtocolError,
            >(e),
        },
{
    if pos >= bytes.len() {
        return Err(ProtocolError::Truncated);
    }
    let tag = bytes[pos];
    proof {
        assert(bytes@.skip(pos as int)[0] == bytes@[pos as int]);
        assert(bytes@.skip(pos as int).skip(1) =~= bytes@.skip(pos + 1));
    }
    if tag == 1u8 {
        Ok((DeviceStatus::Idle, pos + 1))
    } else if tag == 2u8 {
        Ok((DeviceStatus::InProgress, pos + 1))
    } else if tag == 3u8 {
        Ok((DeviceStatus::Ready, pos + 1))
    } else {
        Err(ProtocolError::UnknownOpcode)
    }
}

fn read_hash(bytes: &Vec<u8>, pos: usize) -> (r: Result<(StateHash, usize), ProtocolError>)
    requires
        pos <= bytes@.len(),
    ensures
        match r {
            Ok((h, p2)) => pos <= p2 <= bytes@.len() && take_hash(bytes@.skip(pos as int)) == Ok::<
                (Seq<u8>, Seq<u8>),
                ProtocolError,
            >((h@, bytes@.skip(p2 as int))),
            Err(e) => take_hash(bytes@.skip(pos as int)) == Err::<
                (Seq<u8>, Seq<u8>),
                ProtocolError,
            >(e),
        },
{
    if bytes.len() - pos < 16 {
        return Err(ProtocolError::Truncated);
    }
    let mut h: StateHash = [0u8;16];
    let mut j: usize = 0;
    while j < 16
        invariant
            j <= 16,
            pos + 16 <= bytes@.len(),
            bytes@.len() <= usize::MAX,
            forall|k: int| 0 <= k < j ==> h@[k] == bytes@[pos + k],
        decreases 16 - j,
    {
        h[j] = bytes[pos + j];
        j += 1;
    }
    proof {
        assert(h@ =~= bytes@.skip(pos as int).take(16));
        assert(bytes@.skip(pos as int).skip(16) =~= bytes@.skip(pos + 16));
    }
    Ok((h, pos + 16))
}

/// Decodes a coordinator-to-device frame, the exact inverse of
/// [`encode_request`].
pub fn decode_request(bytes: &Vec<u8>) -> (r: Result<RequestOperations, ProtocolError>)
    ensures
        match r {
            Ok(m) => dec_request(bytes@) == Ok::<RequestOperationsView, ProtocolError>(m@),
            Err(e) => dec_request(bytes@) == Err::<RequestOperationsView, ProtocolError>(e),
        },
{
    if bytes.len() < 1 {
        return Err(ProtocolError::Truncated);
    }
    let opcode = bytes[0];
    if opcode == 1u8 {
        if bytes.len() == 1 {
            Ok(RequestOperations::StatusRequest)
        } else {
            Err(ProtocolError::TrailingBytes)
        }
    } else if opcode == 2u8 {
        proof {
            assert(bytes@.skip(1).len() == bytes@.len() - 1);
        }
        let (n, p0) = match read_u32(bytes, 1) {
            Ok(v) => v,
            Err(e) => {
                return Err(e);
            },
        };
        let mut acc: Vec<(String, EnvironmentUpdate)> = Vec::new();
        let mut pos = p0;
        let mut i: u32 = 0;
        proof {
            assert(acc.deep_view() =~= Seq::<(Seq<char>, EnvironmentUpdateView)>::empty());
            assert(match take_update_entries(bytes@.skip(pos as int), (n - i) as nat) {
                Ok((tail, rest)) => Ok::<_, ProtocolError>((acc.deep_view() + tail, rest))
                    == take_update_entries(bytes@.skip(p0 as int), n as nat),
                Err(e) => take_update_entries(bytes@.skip(p0 as int), n as nat) == Err::<
                    (Seq<(Seq<char>, EnvironmentUpdateView)>, Seq<u8>),
                    ProtocolError,
                >(e),
            }) by {
                match take_update_entries(bytes@.skip(pos as int), (n - i) as nat) {
                    Ok((tail, rest)) => {
                        assert(acc.deep_view() + tail =~= tail);
                    },
                    Err(_) => {},
                }
            }
        }
        while i < n
            invariant
                i <= n,
                pos <= bytes@.len(),
                bytes@.len() <= usize::MAX,
                bytes@.len() >= 1,
                bytes@[0] == 2u8,
                take_u32(bytes@.skip(1)) == Ok::<(u32, Seq<u8>), ProtocolError>((
                    n,
                    bytes@.skip(p0 as int),
                )),
                match take_update_entries(bytes@.skip(pos as int), (n - i) as nat) {
                    Ok((tail, rest)) => Ok::<_, ProtocolError>((acc.deep_view() + tail, rest))
                        == take_update_entries(bytes@.skip(p0 as int), n as nat),
                    Err(e) => take_update_entries(bytes@.skip(p0 as int), n as nat) == Err::<
                        (Seq<(Seq<char>, EnvironmentUpdateView)>, Seq<u8>),
                        ProtocolError,
                    >(e),
                },
            decreases n - i,
        {
            let (name, p1) = match read_text(bytes, pos) {
                Ok(v) => v,
                Err(e) => {
                    return Err(e);
                },
            };
            let (op, p2) = match read_operation(bytes, p1) {
                Ok(v) => v,
                Err(e) => {
                    return Err(e);
                },
            };
            let (st, p3) = match read_opt_text(bytes, p2) {
                Ok(v) => v,
                Err(e) => {
                    return Err(e);
                },
            };
            let ghost pre = acc.deep_view();
            let upd = EnvironmentUpdate { state: st, operation: op };
            proof {
                assert(upd@ == EnvironmentUpdateView { state: st.deep_view(), operation: op });
            }
            acc.push((name, upd));
            proof {
                assert(acc.deep_view() =~= pre.push((name@, upd@)));
                assert(match take_update_entries(bytes@.skip(p3 as int), (n - i - 1) as nat) {
                    Ok((tail2, rest2)) => acc.deep_view() + tail2 =~= pre + (seq![(name@, upd@)]
                        + tail2) && take_update_entries(bytes@.skip(pos as int), (n - i) as nat)
                        == Ok::<_, ProtocolError>((seq![(name@, upd@)] + tail2, rest2)),
                    Err(_) => take_update_entries(bytes@.skip(pos as int), (n - i) as nat)
                        == take_update_entries(bytes@.skip(p3 as int), (n - i - 1) as nat),
                }) by {
                    match take_update_entries(bytes@.skip(p3 as int), (n - i - 1) as nat) {
                        Ok((tail2, rest2)) => {
                            assert(acc.deep_view() + tail2 =~= pre + (seq![(name@, upd@)]
                                + tail2));
                        },
                        Err(_) => {},
                    }
                }
            }
            pos = p3;
            i += 1;
        }
        proof {
            assert(take_update_entries(bytes@.skip(pos as int), 0) == Ok::<
                (Seq<(Seq<char>, EnvironmentUpdateView)>, Seq<u8>),
                ProtocolError,
            >((Seq::empty(), bytes@.skip(pos as int))));
            assert(acc.deep_view() + Seq::<(Seq<char>, EnvironmentUpdateView)>::empty()
                =~= acc.deep_view());
        }
        if pos != bytes.len() {
            proof {
                assert(bytes@.skip(pos as int).len() != 0);
            }
            return Err(ProtocolError::TrailingBytes);
        }
        let m = RequestOperations::UpdateEnvironmentsRequest(acc);
        proof {
            assert(bytes@.skip(pos as int).len() == 0);
            assert((m@)->UpdateEnvironmentsRequest_0 =~= acc.deep_view());
        }
        Ok(m)
    } else {
        Err(ProtocolError::UnknownOpcode)
    }
}

/// Decodes a status-report frame, the exact inverse of
/// [`encode_status_response`].
pub fn decode_status_response(bytes: &Vec<u8>) -> (r: Result<
    CurrentStatusResponse,
    ProtocolError,
>)
    ensures
        match r {
            Ok(m) => dec_status_response(bytes@) == Ok::<
                CurrentStatusResponseView,
                ProtocolError,
            >(m@),
            Err(e) => dec_status_response(bytes@) == Err::<
                CurrentStatusResponseView,
                ProtocolError,
            >(e),
        },
{
    let total = bytes.len();
    proof {
        assert(bytes@.skip(0) =~= bytes@);
    }
    let (status, pa) = match read_device_status(bytes, 0) {
        Ok(v) => v,
        Err(e) => {
            return Err(e);
        },
    };
    let (timestamp, pb) = match read_text(bytes, pa) {
        Ok(v) => v,
        Err(e) => {
            return Err(e);
        },
    };
    let (n, p0) = match read_u32(bytes, pb) {
        Ok(v) => v,
        Err(e) => {
            return Err(e);
        },
    };
    let mut acc: Vec<(String, StateHash)> = Vec::new();
    let mut pos = p0;
    let mut i: u32 = 0;
    proof {
        assert(acc.deep_view() =~= Seq::<(Seq<char>, Seq<u8>)>::empty());
        assert(match take_hash_entries(bytes@.skip(pos as int), (n - i) as nat) {
            Ok((tail, rest)) => Ok::<_, ProtocolError>((acc.deep_view() + tail, rest))
                == take_hash_entries(bytes@.skip(p0 as int), n as nat),
            Err(e) => take_hash_entries(bytes@.skip(p0 as int), n as nat) == Err::<
                (Seq<(Seq<char>, Seq<u8>)>, Seq<u8>),
                ProtocolError,
            >(e),
        }) by {
            match take_hash_entries(bytes@.skip(pos as int), (n - i) as nat) {
                Ok((tail, rest)) => {
                    assert(acc.deep_view() + tail =~= tail);
                },
                Err(_) => {},
            }
        }
    }
    while i < n
        invariant
            i <= n,
            pos <= bytes@.len(),
            bytes@.len() <= usize::MAX,
            take_device_status(bytes@) == Ok::<(DeviceStatus, Seq<u8>), ProtocolError>((
                status,
                bytes@.skip(pa as int),
            )),
            take_text(bytes@.skip(pa as int)) == Ok::<(Seq<char>, Seq<u8>), ProtocolError>((
                timestamp@,
                bytes@.skip(pb as int),
            )),
            take_u32(bytes@.skip(pb as int)) == Ok::<(u32, Seq<u8>), ProtocolError>((
                n,
                bytes@.skip(p0 as int),
            )),
            match take_hash_entries(bytes@.skip(pos as int), (n - i) as nat) {
                Ok((tail, rest)) => Ok::<_, ProtocolError>((acc.deep_view() + tail, rest))
                    == take_hash_entries(bytes@.skip(p0 as int), n as nat),
                Err(e) => take_hash_entries(bytes@.skip(p0 as int), n as nat) == Err::<
                    (Seq<(Seq<char>, Seq<u8>)>, Seq<u8>),
                    ProtocolError,
                >(e),
            },
        decreases n - i,
    {
        let (name, p1) = match read_text(bytes, pos) {
            Ok(v) => v,
            Err(e) => {
                return Err(e);
            },
        };
        let (h, p2) = match read_hash(bytes, p1) {
            Ok(v) => v,
            Err(e) => {
                return Err(e);
            },
        };
        let ghost pre = acc.deep_view();
        acc.push((name, h));
        proof {
            assert(acc.deep_view() =~~= pre.push((name@, h@)));
            assert(match take_hash_entries(bytes@.skip(p2 as int), (n - i - 1) as nat) {
                Ok((tail2, rest2)) => acc.deep_view() + tail2 =~= pre + (seq![(name@, h@)] + tail2)
                    && take_hash_entries(bytes@.skip(pos as int), (n - i) as nat) == Ok::<
                    _,
                    ProtocolError,
                >((seq![(name@, h@)] + tail2, rest2)),
                Err(_) => take_hash_entries(bytes@.skip(pos as int), (n - i) as nat)
                    == take_hash_entries(bytes@.skip(p2 as int), (n - i - 1) as nat),
            }) by {
                match take_hash_entries(bytes@.skip(p2 as int), (n - i - 1) as nat) {
                    Ok((tail2, rest2)) => {
                        assert(acc.deep_view() + tail2 =~= pre + (seq![(name@, h@)] + tail2));
                    },
                    Err(_) => {},
                }
            }
        }
        pos = p2;
        i += 1;
    }
    proof {
        assert(take_hash_entries(bytes@.skip(pos as int), 0) == Ok::<
            (Seq<(Seq<char>, Seq<u8>)>, Seq<u8>),
            ProtocolError,
        >((Seq::empty(), bytes@.skip(pos as int))));
        assert(acc.deep_view() + Seq::<(Seq<char>, Seq<u8>)>::empty() =~= acc.deep_view());
    }
    if pos != total {
        proof {
            assert(bytes@.skip(pos as int).len() != 0);
        }
        return Err(ProtocolError::TrailingBytes);
    }
    let m = CurrentStatusResponse { status, timestamp, state_hashes: acc };
    proof {
        assert(bytes@.skip(pos as int).len() == 0);
        assert(m@.state_hashes =~~= acc.deep_view());
    }
    Ok(m)
}

} // verus!
