//! Command frames: a length-prefixed ASCII name followed by a property
//! list of `(name-length: u8, name, value-length: u32 big-endian, value)`
//! entries.  The handshake's `READY` command is the main producer and
//! consumer.

use crate::endian::{
    be_decode_u32, be_encode_u32, lemma_be_bytes_len, lemma_be_val_bound, lemma_be_val_of_bytes,
    lemma_pow256_values, pow256, spec_be_bytes, spec_be_val,
};
use crate::error::ZmtpError;
use crate::frame::{
    copy_slice, frame_body, frame_wf, lemma_spec_frame_wf, push_all, spec_frame,
    spec_header_len, spec_tag_command, Command, FrameBuf,
};
use vstd::prelude::*;
use vstd::slice::slice_subrange;

verus! {

// -- property list encoding

/// One encoded property: name length, name bytes, 4-byte big-endian value
/// length, value bytes.
pub open spec fn spec_prop_entry(name: Seq<u8>, value: Seq<u8>) -> Seq<u8> {
    seq![name.len() as u8] + name + spec_be_bytes(value.len() as int, 4) + value
}

/// The concatenation of the encodings of `props`, in order.
pub open spec fn spec_props_encode(props: Seq<(Seq<u8>, Seq<u8>)>) -> Seq<u8>
    decreases props.len(),
{
    if props.len() == 0 {
        Seq::empty()
    } else {
        spec_prop_entry(props[0].0, props[0].1) + spec_props_encode(props.drop_first())
    }
}

/// Bounds under which a property survives encoding intact: the name
/// length fits one byte and the value length four.
pub open spec fn spec_props_bounded(props: Seq<(Seq<u8>, Seq<u8>)>) -> bool {
    forall|i: int|
        0 <= i < props.len() ==> (#[trigger] props[i]).0.len() <= 255 && props[i].1.len()
            <= 0xFFFF_FFFF
}

/// Whether `s` is a property list that ends exactly at the end of `s`:
/// no trailing bytes, no entry overrunning the end.  The value length is
/// read from bytes, so it is never negative; the guard on its sign only
/// keeps the recursion's measure visibly decreasing.
pub open spec fn props_wf(s: Seq<u8>) -> bool
    decreases s.len(),
{
    if s.len() == 0 {
        true
    } else {
        let nl = s[0] as int;
        if s.len() < 1 + nl + 4 {
            false
        } else {
            let vl = spec_be_val(s.subrange(1 + nl, 1 + nl + 4));
            if vl < 0 || s.len() < 1 + nl + 4 + vl {
                false
            } else {
                props_wf(s.subrange(1 + nl + 4 + vl, s.len() as int))
            }
        }
    }
}

/// The `(name, value)` pairs a property list holds, in order.
pub open spec fn spec_props_parse(s: Seq<u8>) -> Seq<(Seq<u8>, Seq<u8>)>
    recommends
        props_wf(s),
    decreases s.len(),
{
    if s.len() == 0 {
        Seq::empty()
    } else {
        let nl = s[0] as int;
        if s.len() < 1 + nl + 4 {
            Seq::empty()
        } else {
            let vl = spec_be_val(s.subrange(1 + nl, 1 + nl + 4));
            if vl < 0 || s.len() < 1 + nl + 4 + vl {
                Seq::empty()
            } else {
                seq![(s.subrange(1, 1 + nl), s.subrange(1 + nl + 4, 1 + nl + 4 + vl))]
                    + spec_props_parse(s.subrange(1 + nl + 4 + vl, s.len() as int))
            }
        }
    }
}

/// Parsing a property list inverts encoding it: the same pairs come back,
/// in the same order.
pub proof fn lemma_props_round_trip(props: Seq<(Seq<u8>, Seq<u8>)>)
    requires
        spec_props_bounded(props),
    ensures
        props_wf(spec_props_encode(props)),
        spec_props_parse(spec_props_encode(props)) == props,
    decreases props.len(),
{
    if props.len() == 0 {
        assert(spec_props_parse(spec_props_encode(props)) =~= props);
    } else {
        let name = props[0].0;
        let value = props[0].1;
        let entry = spec_prop_entry(name, value);
        let rest = spec_props_encode(props.drop_first());
        let s = spec_props_encode(props);
        assert(s == entry + rest);
        lemma_be_bytes_len(value.len() as int, 4);
        let nl = name.len() as int;
        assert(entry.len() == 1 + nl + 4 + value.len());
        assert(s[0] == name.len() as u8);
        assert(s[0] as int == nl);
        assert(s.subrange(1, 1 + nl) =~= name);
        assert(s.subrange(1 + nl, 1 + nl + 4) =~= spec_be_bytes(value.len() as int, 4));
        lemma_pow256_values();
        lemma_be_val_of_bytes(value.len() as int, 4);
        let vl = spec_be_val(s.subrange(1 + nl, 1 + nl + 4));
        assert(vl == value.len());
        assert(s.subrange(1 + nl + 4, 1 + nl + 4 + vl) =~= value);
        assert(s.subrange(1 + nl + 4 + vl, s.len() as int) =~= rest);
        assert(spec_props_bounded(props.drop_first())) by {
            assert(forall|i: int|
                0 <= i < props.drop_first().len() ==> props.drop_first()[i] == props[i + 1]);
        }
        lemma_props_round_trip(props.drop_first());
        assert(spec_props_parse(s) =~= props);
    }
}

// -- command layout

/// The body of a command frame: a length-prefixed name followed by the
/// encoded property list.
pub open spec fn spec_cmd_body(name: Seq<u8>, props: Seq<(Seq<u8>, Seq<u8>)>) -> Seq<u8> {
    seq![name.len() as u8] + name + spec_props_encode(props)
}

/// The full serialization of a short command frame.
pub open spec fn spec_short_command(name: Seq<u8>, props: Seq<(Seq<u8>, Seq<u8>)>) -> Seq<u8> {
    spec_frame(0x04, spec_cmd_body(name, props))
}

/// A well-formed command frame: well formed as a frame, carrying a
/// command tag, and holding a complete name field.
pub open spec fn cmd_wf(b: Seq<u8>) -> bool {
    &&& frame_wf(b)
    &&& spec_tag_command(b[0])
    &&& frame_body(b).len() >= 1
    &&& frame_body(b).len() >= 1 + frame_body(b)[0]
}

/// The command's name bytes.
pub open spec fn spec_cmd_name(b: Seq<u8>) -> Seq<u8>
    recommends
        cmd_wf(b),
{
    frame_body(b).subrange(1, 1 + frame_body(b)[0])
}

/// The bytes after the name: the command's property list region.
pub open spec fn spec_cmd_props_bytes(b: Seq<u8>) -> Seq<u8>
    recommends
        cmd_wf(b),
{
    frame_body(b).subrange(1 + frame_body(b)[0], frame_body(b).len() as int)
}

/// The name of the handshake-completion command.
pub open spec fn spec_ready_name() -> Seq<u8> {
    seq![0x52u8, 0x45, 0x41, 0x44, 0x59]
}

impl<'a> Command<'a> {
    /// The command's name: the length-prefixed byte string at the start of
    /// the body.  Fails when the name field overruns the body.
    pub fn name(&self) -> (r: Result<&'a [u8], ZmtpError>)
        requires
            frame_wf(self@),
            spec_tag_command(self@[0]),
        ensures
            match r {
                Ok(nm) => cmd_wf(self@) && nm@ == spec_cmd_name(self@),
                Err(e) => e == ZmtpError::MalformedCommand && !cmd_wf(self@),
            },
    {
        let b = self.raw();
        let hdr: usize = if b[0] == 0x04 {
            2
        } else {
            9
        };
        if b.len() - hdr < 1 {
            return Err(ZmtpError::MalformedCommand);
        }
        let nl = b[hdr] as usize;
        if nl > b.len() - hdr - 1 {
            return Err(ZmtpError::MalformedCommand);
        }
        let nm = slice_subrange(b, hdr + 1, hdr + 1 + nl);
        proof {
            assert(nm@ =~= spec_cmd_name(self@));
        }
        Ok(nm)
    }

    /// Every `(name, value)` property the command carries, in order.
    /// Fails when the name field or a property overruns the body, or the
    /// list stops short of the body's end.
    pub fn properties(&self) -> (r: Result<Vec<(Vec<u8>, Vec<u8>)>, ZmtpError>)
        requires
            frame_wf(self@),
            spec_tag_command(self@[0]),
        ensures
            match r {
                Ok(ps) => {
                    &&& cmd_wf(self@)
                    &&& props_wf(spec_cmd_props_bytes(self@))
                    &&& ps.deep_view() == spec_props_parse(spec_cmd_props_bytes(self@))
                },
                Err(e) => {
                    &&& e == ZmtpError::MalformedCommand
                    &&& !(cmd_wf(self@) && props_wf(spec_cmd_props_bytes(self@)))
                },
            },
    {
        let b = self.raw();
        let hdr: usize = if b[0] == 0x04 {
            2
        } else {
            9
        };
        if b.len() - hdr < 1 {
            return Err(ZmtpError::MalformedCommand);
        }
        let nl = b[hdr] as usize;
        if nl > b.len() - hdr - 1 {
            return Err(ZmtpError::MalformedCommand);
        }
        let ghost region = spec_cmd_props_bytes(self@);
        let start: usize = hdr + 1 + nl;
        let mut pos: usize = start;
        let mut out: Vec<(Vec<u8>, Vec<u8>)> = Vec::new();
        proof {
            assert(b@.subrange(pos as int, b@.len() as int) =~= region);
        }
        loop
            invariant
                frame_wf(self@),
                spec_tag_command(self@[0]),
                cmd_wf(self@),
                b@ == self@,
                start as int == spec_header_len(self@[0]) + 1 + frame_body(self@)[0],
                start <= pos <= b@.len(),
                region == spec_cmd_props_bytes(self@),
                props_wf(region) == props_wf(b@.subrange(pos as int, b@.len() as int)),
                props_wf(b@.subrange(pos as int, b@.len() as int)) ==> spec_props_parse(region)
                    == out.deep_view() + spec_props_parse(
                    b@.subrange(pos as int, b@.len() as int),
                ),
            decreases b@.len() - pos,
        {
            if pos >= b.len() {
                proof {
                    assert(b@.subrange(pos as int, b@.len() as int) =~= Seq::<u8>::empty());
                    assert(out.deep_view() + spec_props_parse(
                        b@.subrange(pos as int, b@.len() as int),
                    ) =~= out.deep_view());
                }
                return Ok(out);
            }
            let ghost r_old = b@.subrange(pos as int, b@.len() as int);
            let rem = b.len() - pos;
            let nl2 = b[pos] as usize;
            if rem < nl2 + 5 {
                proof {
                    assert(!props_wf(r_old));
                }
                return Err(ZmtpError::MalformedCommand);
            }
            let len_field = slice_subrange(b, pos + 1 + nl2, pos + 1 + nl2 + 4);
            proof {
                assert(len_field@ =~= r_old.subrange(1 + nl2 as int, 1 + nl2 as int + 4));
            }
            let vl32 = be_decode_u32(len_field);
            proof {
                lemma_be_val_bound(len_field@);
                lemma_pow256_values();
            }
            if (vl32 as u64) > (rem - nl2 - 5) as u64 {
                proof {
                    assert(!props_wf(r_old));
                }
                return Err(ZmtpError::MalformedCommand);
            }
            let vl = vl32 as usize;
            let pname = copy_slice(slice_subrange(b, pos + 1, pos + 1 + nl2));
            let pvalue = copy_slice(slice_subrange(b, pos + 1 + nl2 + 4, pos + 1 + nl2 + 4 + vl));
            proof {
                assert(pname@ =~= r_old.subrange(1, 1 + nl2 as int));
                assert(pvalue@ =~= r_old.subrange(
                    1 + nl2 as int + 4,
                    1 + nl2 as int + 4 + vl as int,
                ));
            }
            let ghost out_old = out.deep_view();
            out.push((pname, pvalue));
            let new_pos = pos + 1 + nl2 + 4 + vl;
            proof {
                assert(props_wf(r_old) == props_wf(
                    b@.subrange(new_pos as int, b@.len() as int),
                )) by {
                    assert(b@.subrange(new_pos as int, b@.len() as int) =~= r_old.subrange(
                        1 + nl2 as int + 4 + vl as int,
                        r_old.len() as int,
                    ));
                }
                assert(out.deep_view() =~~= out_old.push((pname@, pvalue@)));
                if props_wf(b@.subrange(new_pos as int, b@.len() as int)) {
                    assert(spec_props_parse(r_old) == seq![(pname@, pvalue@)]
                        + spec_props_parse(b@.subrange(new_pos as int, b@.len() as int))) by {
                        assert(b@.subrange(new_pos as int, b@.len() as int) =~= r_old.subrange(
                            1 + nl2 as int + 4 + vl as int,
                            r_old.len() as int,
                        ));
                    }
                    assert(spec_props_parse(region) =~= out.deep_view() + spec_props_parse(
                        b@.subrange(new_pos as int, b@.len() as int),
                    ));
                }
            }
            pos = new_pos;
        }
    }

    /// The `READY` command's properties, or `None` when this command is
    /// not `READY`.  The inner result fails as [`Command::properties`]
    /// does.
    pub fn null_ready_properties(&self) -> (r: Option<
        Result<Vec<(Vec<u8>, Vec<u8>)>, ZmtpError>,
    >)
        requires
            frame_wf(self@),
            spec_tag_command(self@[0]),
        ensures
            match r {
                None => !(cmd_wf(self@) && spec_cmd_name(self@) == spec_ready_name()),
                Some(res) => {
                    &&& cmd_wf(self@)
                    &&& spec_cmd_name(self@) == spec_ready_name()
                    &&& match res {
                        Ok(ps) => props_wf(spec_cmd_props_bytes(self@)) && ps.deep_view()
                            == spec_props_parse(spec_cmd_props_bytes(self@)),
                        Err(e) => e == ZmtpError::MalformedCommand && !props_wf(
                            spec_cmd_props_bytes(self@),
                        ),
                    }
                },
            },
    {
        let nm = match self.name() {
            Ok(nm) => nm,
            Err(_) => {
                return None;
            },
        };
        let is_ready = nm.len() == 5 && nm[0] == 0x52 && nm[1] == 0x45 && nm[2] == 0x41
            && nm[3] == 0x44 && nm[4] == 0x59;
        proof {
            if nm@.len() == 5 {
                assert(is_ready == (nm@ =~= spec_ready_name()));
            }
        }
        if !is_ready {
            return None;
        }
        Some(self.properties())
    }
}

impl FrameBuf {
    /// Builds a short command frame: tag `0x04`, one length byte, then
    /// the name and the encoded properties.  The caller keeps the body
    /// within the one-byte length field's reach.
    pub fn short_command(name: &[u8], properties: Option<&Vec<(Vec<u8>, Vec<u8>)>>) -> (r:
        FrameBuf)
        requires
            name@.len() <= 255,
            spec_props_bounded(spec_opt_props(properties)),
            1 + name@.len() + spec_props_encode(spec_opt_props(properties)).len() <= 255,
        ensures
            r@ == spec_short_command(name@, spec_opt_props(properties)),
            frame_wf(r@),
            cmd_wf(r@),
            spec_cmd_name(r@) == name@,
            spec_cmd_props_bytes(r@) == spec_props_encode(spec_opt_props(properties)),
    {
        let ghost props = spec_opt_props(properties);
        let mut body: Vec<u8> = Vec::new();
        body.push(name.len() as u8);
        push_all(&mut body, name);
        match properties {
            None => {
                proof {
                    assert(body@ =~= spec_cmd_body(name@, props));
                }
            },
            Some(ps) => {
                let mut i: usize = 0;
                while i < ps.len()
                    invariant
                        i <= ps@.len(),
                        props == ps.deep_view(),
                        spec_props_bounded(props),
                        ps.deep_view().len() == ps@.len(),
                        1 + name@.len() + spec_props_encode(props).len() <= 255,
                        body@ == seq![name@.len() as u8] + name@ + spec_props_encode(
                            props.take(i as int),
                        ),
                    decreases ps@.len() - i,
                {
                    let pname: &Vec<u8> = &ps[i].0;
                    let pvalue: &Vec<u8> = &ps[i].1;
                    proof {
                        assert(props[i as int] == (pname@, pvalue@));
                        lemma_props_encode_prefix_len(props, i as int);
                    }
                    body.push(pname.len() as u8);
                    push_all(&mut body, pname.as_slice());
                    let mut len_field = be_encode_u32(pvalue.len() as u32);
                    body.append(&mut len_field);
                    push_all(&mut body, pvalue.as_slice());
                    proof {
                        lemma_props_encode_push(props.take(i as int), props[i as int]);
                        assert(props.take(i + 1) =~= props.take(i as int).push(props[i as int]));
                        assert(body@ =~= seq![name@.len() as u8] + name@ + spec_props_encode(
                            props.take(i + 1),
                        ));
                    }
                    i = i + 1;
                }
                proof {
                    assert(props.take(props.len() as int) =~= props);
                    assert(body@ =~= spec_cmd_body(name@, props));
                }
            },
        }
        proof {
            lemma_pow256_values();
        }
        let r = match FrameBuf::from_parts(0x04, body.as_slice()) {
            Ok(f) => f,
            Err(_) => {
                proof {
                    assert(false);
                }
                vstd::pervasive::unreached()
            },
        };
        proof {
            lemma_spec_frame_wf(0x04, body@);
            assert(spec_cmd_name(r@) =~= name@);
            assert(spec_cmd_props_bytes(r@) =~= spec_props_encode(props));
        }
        r
    }
}

/// The property pairs an optional borrowed list denotes: none means the
/// empty list.
pub open spec fn spec_opt_props(properties: Option<&Vec<(Vec<u8>, Vec<u8>)>>) -> Seq<
    (Seq<u8>, Seq<u8>),
> {
    match properties {
        None => Seq::empty(),
        Some(ps) => ps.deep_view(),
    }
}

/// Encoding one more property appends its entry to the encoding.
pub proof fn lemma_props_encode_push(props: Seq<(Seq<u8>, Seq<u8>)>, p: (Seq<u8>, Seq<u8>))
    ensures
        spec_props_encode(props.push(p)) == spec_props_encode(props) + spec_prop_entry(p.0, p.1),
    decreases props.len(),
{
    reveal_with_fuel(spec_props_encode, 3);
    if props.len() == 0 {
        assert(props.push(p).drop_first() =~= Seq::<(Seq<u8>, Seq<u8>)>::empty());
        assert(spec_props_encode(props.push(p)) =~= spec_props_encode(props) + spec_prop_entry(
            p.0,
            p.1,
        ));
    } else {
        assert(props.push(p).drop_first() =~= props.drop_first().push(p));
        lemma_props_encode_push(props.drop_first(), p);
        assert(spec_props_encode(props.push(p)) =~= spec_props_encode(props) + spec_prop_entry(
            p.0,
            p.1,
        ));
    }
}

/// The encoding of a prefix is no longer than the encoding of the whole
/// list.
pub proof fn lemma_props_encode_prefix_len(props: Seq<(Seq<u8>, Seq<u8>)>, i: int)
    requires
        0 <= i <= props.len(),
    ensures
        spec_props_encode(props.take(i)).len() <= spec_props_encode(props).len(),
    decreases props.len(),
{
    if props.len() == 0 || i == 0 {
        assert(props.take(0) =~= Seq::<(Seq<u8>, Seq<u8>)>::empty());
    } else {
        assert(props.take(i).drop_first() =~= props.drop_first().take(i - 1));
        lemma_props_encode_prefix_len(props.drop_first(), i - 1);
    }
}

/// Parsing a short command built from a name and bounded properties gives
/// the name and the properties back.
pub proof fn lemma_short_command_round_trip(name: Seq<u8>, props: Seq<(Seq<u8>, Seq<u8>)>)
    requires
        name.len() <= 255,
        spec_props_bounded(props),
        1 + name.len() + spec_props_encode(props).len() <= 255,
    ensures
        cmd_wf(spec_short_command(name, props)),
        spec_cmd_name(spec_short_command(name, props)) == name,
        props_wf(spec_cmd_props_bytes(spec_short_command(name, props))),
        spec_props_parse(spec_cmd_props_bytes(spec_short_command(name, props))) == props,
{
    let body = spec_cmd_body(name, props);
    lemma_pow256_values();
    lemma_spec_frame_wf(0x04, body);
    let f = spec_short_command(name, props);
    assert(frame_body(f) == body);
    assert(spec_cmd_name(f) =~= name);
    assert(spec_cmd_props_bytes(f) =~= spec_props_encode(props));
    lemma_props_round_trip(props);
}

} // verus!
