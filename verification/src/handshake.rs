//! The ZMTP handshake decisions: validating the peer's greeting halves,
//! building the local `READY` command, and reading the peer's.
//!
//! The exchange itself is plain blocking I/O and lives outside the
//! library; these functions decide, from the bytes read, whether the
//! handshake proceeds and what is sent next.

use crate::command::{
    cmd_wf, props_wf, spec_cmd_name, spec_cmd_props_bytes, spec_prop_entry, spec_props_encode,
    spec_props_parse, spec_ready_name, spec_short_command,
};
use crate::endian::lemma_be_bytes_len;
use crate::error::ZmtpError;
use crate::frame::{bytes_eq, copy_slice, frame_wf, spec_tag_command, Command, FrameBuf};
use crate::greeting::spec_greeting;
use crate::socket_type::{
    spec_pub_name, spec_pull_name, spec_push_name, spec_rep_name, spec_req_name, spec_sub_name,
    SocketType,
};
use vstd::prelude::*;
use vstd::slice::slice_subrange;

verus! {

/// The 20-byte security-mechanism field a NULL-mechanism greeting
/// carries: `"NULL"` padded with NUL bytes.
pub open spec fn spec_null_mechanism() -> Seq<u8> {
    Seq::new(
        20,
        |i: int|
            if i == 0 {
                0x4Eu8
            } else if i == 1 {
                0x55
            } else if i == 2 {
                0x4C
            } else if i == 3 {
                0x4C
            } else {
                0
            },
    )
}

/// The greeting this library sends passes its own remainder check: its
/// mechanism field is exactly the NULL mechanism.
pub proof fn lemma_own_greeting_mechanism(as_server: bool)
    ensures
        spec_greeting(as_server).subrange(12, 64).len() == 52,
        spec_greeting(as_server).subrange(12, 64).subrange(0, 20) == spec_null_mechanism(),
{
    assert(spec_greeting(as_server).subrange(12, 64).subrange(0, 20) =~= spec_null_mechanism());
}

/// Validates the peer's 12-byte partial greeting: signature bytes `0xFF`
/// and `0x7F` in place, major version 3.  Returns the peer's version
/// pair.  A peer minor above ours is fine: the peer downgrades to 3.0.
pub fn check_partial_greeting(buf: &[u8]) -> (r: Result<(u8, u8), ZmtpError>)
    ensures
        match r {
            Ok(v) => {
                &&& buf@.len() == 12
                &&& buf@[0] == 0xFF
                &&& buf@[9] == 0x7F
                &&& buf@[10] == 3
                &&& v.0 == 3u8
                &&& v.1 == buf@[11]
            },
            Err(e) => if buf@.len() != 12 || buf@[0] != 0xFF || buf@[9] != 0x7F {
                e == ZmtpError::ProtocolViolation
            } else {
                buf@[10] != 3 && e == ZmtpError::VersionMismatch
            },
        },
{
    if buf.len() != 12 {
        return Err(ZmtpError::ProtocolViolation);
    }
    if buf[0] != 0xFF || buf[9] != 0x7F {
        return Err(ZmtpError::ProtocolViolation);
    }
    if buf[10] != 3 {
        return Err(ZmtpError::VersionMismatch);
    }
    Ok((3, buf[11]))
}

/// Validates the peer's 52-byte greeting remainder: only the NULL
/// security mechanism is supported.
pub fn check_greeting_remainder(buf: &[u8]) -> (r: Result<(), ZmtpError>)
    ensures
        match r {
            Ok(_) => buf@.len() == 52 && buf@.subrange(0, 20) == spec_null_mechanism(),
            Err(e) => {
                &&& e == ZmtpError::ProtocolViolation
                &&& buf@.len() != 52 || buf@.subrange(0, 20) != spec_null_mechanism()
            },
        },
{
    if buf.len() != 52 {
        return Err(ZmtpError::ProtocolViolation);
    }
    let mut expected: Vec<u8> = Vec::new();
    expected.push(0x4E);
    expected.push(0x55);
    expected.push(0x4C);
    expected.push(0x4C);
    let mut i: usize = 4;
    while i < 20
        invariant
            4 <= i <= 20,
            expected@.len() == i,
            forall|j: int| 0 <= j < i ==> expected@[j] == spec_null_mechanism()[j],
        decreases 20 - i,
    {
        expected.push(0);
        i = i + 1;
    }
    proof {
        assert(expected@ =~= spec_null_mechanism());
    }
    if bytes_eq(slice_subrange(buf, 0, 20), expected.as_slice()) {
        Ok(())
    } else {
        Err(ZmtpError::ProtocolViolation)
    }
}

/// `"Socket-Type"` as bytes: the property name the `READY` command
/// carries.
pub open spec fn spec_socket_type_prop_name() -> Seq<u8> {
    seq![0x53u8, 0x6F, 0x63, 0x6B, 0x65, 0x74, 0x2D, 0x54, 0x79, 0x70, 0x65]
}

/// The full `READY` command frame advertising `socket_type`.
pub open spec fn spec_ready_command_frame(socket_type: Seq<u8>) -> Seq<u8> {
    spec_short_command(
        spec_ready_name(),
        seq![(spec_socket_type_prop_name(), socket_type)],
    )
}

/// `"READY"` as owned bytes.
fn ready_name_bytes() -> (r: Vec<u8>)
    ensures
        r@ == spec_ready_name(),
{
    let mut v: Vec<u8> = Vec::new();
    v.push(0x52);
    v.push(0x45);
    v.push(0x41);
    v.push(0x44);
    v.push(0x59);
    proof {
        assert(v@ =~= spec_ready_name());
    }
    v
}

/// `"Socket-Type"` as owned bytes.
fn socket_type_prop_name_bytes() -> (r: Vec<u8>)
    ensures
        r@ == spec_socket_type_prop_name(),
{
    let mut v: Vec<u8> = Vec::new();
    v.push(0x53);
    v.push(0x6F);
    v.push(0x63);
    v.push(0x6B);
    v.push(0x65);
    v.push(0x74);
    v.push(0x2D);
    v.push(0x54);
    v.push(0x79);
    v.push(0x70);
    v.push(0x65);
    proof {
        assert(v@ =~= spec_socket_type_prop_name());
    }
    v
}

/// Builds the `READY` command that completes the handshake, carrying
/// `Socket-Type = socket_type`.  The socket-type names are a few bytes;
/// the bound keeps the whole command within a short frame.
pub fn ready_command(socket_type: &[u8]) -> (r: FrameBuf)
    requires
        socket_type@.len() <= 233,
    ensures
        r@ == spec_ready_command_frame(socket_type@),
        frame_wf(r@),
        cmd_wf(r@),
        spec_cmd_name(r@) == spec_ready_name(),
{
    let name = ready_name_bytes();
    let pname = socket_type_prop_name_bytes();
    let pvalue = copy_slice(socket_type);
    let mut props: Vec<(Vec<u8>, Vec<u8>)> = Vec::new();
    props.push((pname, pvalue));
    proof {
        let dv = props.deep_view();
        assert(dv =~~= seq![(spec_socket_type_prop_name(), socket_type@)]);
        assert(dv.drop_first() =~= Seq::<(Seq<u8>, Seq<u8>)>::empty());
        reveal_with_fuel(spec_props_encode, 3);
        assert(spec_props_encode(dv) =~= spec_prop_entry(
            spec_socket_type_prop_name(),
            socket_type@,
        ));
        lemma_be_bytes_len(socket_type@.len() as int, 4);
        assert(spec_prop_entry(spec_socket_type_prop_name(), socket_type@).len() == 16
            + socket_type@.len());
    }
    FrameBuf::short_command(name.as_slice(), Some(&props))
}

/// Whether a peer's socket type is the partner of ours: PULL pairs with
/// PUSH, REQ with REP, SUB with PUB.
pub open spec fn spec_socket_type_compatible(local: Seq<u8>, peer: Seq<u8>) -> bool {
    ||| local == spec_pull_name() && peer == spec_push_name()
    ||| local == spec_push_name() && peer == spec_pull_name()
    ||| local == spec_req_name() && peer == spec_rep_name()
    ||| local == spec_rep_name() && peer == spec_req_name()
    ||| local == spec_sub_name() && peer == spec_pub_name()
    ||| local == spec_pub_name() && peer == spec_sub_name()
}

/// Decides [`spec_socket_type_compatible`].  A mismatch is reported to
/// the caller, who may proceed anyway: ZMTP lets the peer close instead.
pub fn socket_types_compatible(local: &[u8], peer: &[u8]) -> (r: bool)
    ensures
        r == spec_socket_type_compatible(local@, peer@),
{
    let pull = crate::pull_t::Pull::name();
    let push = crate::push_t::Push::name();
    let req = crate::req_t::Req::name();
    let rep = crate::rep_t::Rep::name();
    let sub = crate::sub_t::Sub::name();
    let mut pub_name: Vec<u8> = Vec::new();
    pub_name.push(0x50);
    pub_name.push(0x55);
    pub_name.push(0x42);
    proof {
        assert(pub_name@ =~= spec_pub_name());
    }
    (bytes_eq(local, pull.as_slice()) && bytes_eq(peer, push.as_slice())) || (bytes_eq(
        local,
        push.as_slice(),
    ) && bytes_eq(peer, pull.as_slice())) || (bytes_eq(local, req.as_slice()) && bytes_eq(
        peer,
        rep.as_slice(),
    )) || (bytes_eq(local, rep.as_slice()) && bytes_eq(peer, req.as_slice())) || (bytes_eq(
        local,
        sub.as_slice(),
    ) && bytes_eq(peer, pub_name.as_slice())) || (bytes_eq(local, pub_name.as_slice())
        && bytes_eq(peer, sub.as_slice()))
}

/// The value of the first property named `name`, if any.
pub open spec fn spec_prop_lookup(props: Seq<(Seq<u8>, Seq<u8>)>, name: Seq<u8>) -> Option<
    Seq<u8>,
>
    decreases props.len(),
{
    if props.len() == 0 {
        None
    } else if props[0].0 == name {
        Some(props[0].1)
    } else {
        spec_prop_lookup(props.drop_first(), name)
    }
}

/// Reads the peer's handshake command: it must be `READY`, and its
/// `Socket-Type` property, when present, is returned for the caller's
/// compatibility check.
pub fn ready_peer_socket_type(cmd: &Command) -> (r: Result<Option<Vec<u8>>, ZmtpError>)
    requires
        frame_wf(cmd@),
        spec_tag_command(cmd@[0]),
    ensures
        match r {
            Ok(opt) => {
                &&& cmd_wf(cmd@)
                &&& spec_cmd_name(cmd@) == spec_ready_name()
                &&& props_wf(spec_cmd_props_bytes(cmd@))
                &&& match opt {
                    Some(v) => spec_prop_lookup(
                        spec_props_parse(spec_cmd_props_bytes(cmd@)),
                        spec_socket_type_prop_name(),
                    ) == Some(v@),
                    None => spec_prop_lookup(
                        spec_props_parse(spec_cmd_props_bytes(cmd@)),
                        spec_socket_type_prop_name(),
                    ) is None,
                }
            },
            Err(e) => if !cmd_wf(cmd@) {
                e == ZmtpError::MalformedCommand
            } else if spec_cmd_name(cmd@) != spec_ready_name() {
                e == ZmtpError::ProtocolViolation
            } else {
                !props_wf(spec_cmd_props_bytes(cmd@)) && e == ZmtpError::MalformedCommand
            },
        },
{
    let nm = match cmd.name() {
        Ok(nm) => nm,
        Err(e) => {
            return Err(e);
        },
    };
    let ready = ready_name_bytes();
    if !bytes_eq(nm, ready.as_slice()) {
        return Err(ZmtpError::ProtocolViolation);
    }
    let props = match cmd.properties() {
        Ok(ps) => ps,
        Err(e) => {
            return Err(e);
        },
    };
    let st_name = socket_type_prop_name_bytes();
    let ghost parsed = spec_props_parse(spec_cmd_props_bytes(cmd@));
    proof {
        assert(props.deep_view() == parsed);
        assert(parsed.skip(0) =~= parsed);
    }
    let n = props.len();
    let mut i: usize = 0;
    while i < n
        invariant
            n == props@.len(),
            i <= n,
            cmd_wf(cmd@),
            spec_cmd_name(cmd@) == spec_ready_name(),
            props_wf(spec_cmd_props_bytes(cmd@)),
            parsed == spec_props_parse(spec_cmd_props_bytes(cmd@)),
            props.deep_view() == parsed,
            parsed.len() == n,
            st_name@ == spec_socket_type_prop_name(),
            spec_prop_lookup(parsed, spec_socket_type_prop_name()) == spec_prop_lookup(
                parsed.skip(i as int),
                spec_socket_type_prop_name(),
            ),
        decreases n - i,
    {
        proof {
            assert(parsed.skip(i as int)[0] == parsed[i as int]);
            assert(parsed[i as int] == (props@[i as int].0@, props@[i as int].1@)) by {
                assert(parsed[i as int].0 =~= props@[i as int].0@);
                assert(parsed[i as int].1 =~= props@[i as int].1@);
            }
        }
        if bytes_eq(props[i].0.as_slice(), st_name.as_slice()) {
            let v = copy_slice(props[i].1.as_slice());
            proof {
                assert(parsed[i as int].0 == spec_socket_type_prop_name());
                assert(spec_prop_lookup(
                    parsed.skip(i as int),
                    spec_socket_type_prop_name(),
                ) == Some(parsed[i as int].1));
                assert(v@ == parsed[i as int].1);
            }
            return Ok(Some(v));
        }
        proof {
            assert(parsed.skip(i as int).drop_first() =~= parsed.skip(i + 1));
        }
        i = i + 1;
    }
    proof {
        assert(parsed.skip(n as int) =~= Seq::<(Seq<u8>, Seq<u8>)>::empty());
    }
    Ok(None)
}

/// Completes the handshake decision for a socket pattern: the `READY`
/// frame it sends.
pub fn ready_command_for<S: SocketType>() -> (r: Result<FrameBuf, ZmtpError>)
    ensures
        match r {
            Ok(f) => S::spec_name().len() <= 233 && f@ == spec_ready_command_frame(
                S::spec_name(),
            ),
            Err(e) => e == ZmtpError::InvalidInput && S::spec_name().len() > 233,
        },
{
    let name = S::name();
    if name.len() > 233 {
        return Err(ZmtpError::InvalidInput);
    }
    Ok(ready_command(name.as_slice()))
}

} // verus!
