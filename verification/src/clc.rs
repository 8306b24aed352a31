//! Messages from client to server.
use vstd::prelude::*;
use vstd::string::StringSliceAdditionalSpecFns;
use crate::msg::{SizeBuf, SizeBufError, SizeBufView, spec_write};
use crate::protocol::{Clc, clc_number};
use crate::msg::{byte_parts, write_all, write_parts};
use crate::svc::{UserCmd, append_parts, p_u8, push_u8, usercmd_parts, usercmd_parts_exec, zero_cmd};

verus! {

/// A movement message: the sequence it goes out with, the loss count, the
/// last three commands (oldest first) and the frame to take a delta from.
#[derive(Debug, Clone, Copy, PartialEq, Eq)]
pub struct MoveMessage {
    pub sequence: u32,
    pub lost: u8,
    pub cmds: [UserCmd; 3],
    pub delta_sequence: Option<u8>,
}

/// Writes a string command: its code, then the text and a terminating
/// zero, each write as `spec_write` says, stopping at the first refused.
pub fn write_string_cmd(buf: &mut SizeBuf, text: &str) -> (r: Result<(), SizeBufError>)
    requires
        old(buf).wf(),
    ensures
        final(buf).wf(),
        ({
            let w1 = spec_write(old(buf)@, seq![clc_number(Clc::StringCmd)]);
            let w2 = spec_write(w1.0, text.spec_bytes());
            if w1.1 is Err {
                (final(buf)@, r) == w1
            } else if w2.1 is Err {
                (final(buf)@, r) == w2
            } else {
                (final(buf)@, r) == spec_write(w2.0, seq![0u8])
            }
        }),
{
    match buf.write_u8(Clc::StringCmd.to_u8()) {
        Ok(()) => {},
        Err(e) => {
            return Err(e);
        },
    }
    buf.write_string(Some(text))
}

/// Writes a no-op command.
pub fn write_nop(buf: &mut SizeBuf) -> (r: Result<(), SizeBufError>)
    requires
        old(buf).wf(),
    ensures
        final(buf).wf(),
        (final(buf)@, r) == spec_write(old(buf)@, seq![clc_number(Clc::Nop)]),
{
    buf.write_u8(Clc::Nop.to_u8())
}

/// The writes of a movement message whose checksum byte is `checksum`:
/// the code, the checksum, the loss count, each command as its changes
/// from the one before (the first from the empty command), then the frame
/// to delta from when there is one.
pub open spec fn move_parts(m: MoveMessage, checksum: u8) -> Seq<Seq<u8>> {
    p_u8(clc_number(Clc::Move)) + p_u8(checksum) + p_u8(m.lost) + usercmd_parts(zero_cmd(), m.cmds[0])
        + usercmd_parts(m.cmds[0], m.cmds[1]) + usercmd_parts(m.cmds[1], m.cmds[2])
        + match m.delta_sequence {
            Some(d) => p_u8(clc_number(Clc::Delta)) + p_u8(d),
            None => Seq::empty(),
        }
}

/// Writes a movement message with the given checksum byte, each write as
/// `spec_write` says, stopping at the first refused. The sequence
/// checksum over the bytes after it is the caller's to give: its table is
/// not part of this code base.
pub fn write_move_message(buf: &mut SizeBuf, message: &MoveMessage, checksum: u8) -> (r: Result<(), SizeBufError>)
    requires
        old(buf).wf(),
    ensures
        final(buf).wf(),
        (final(buf)@, r) == write_all(old(buf)@, move_parts(*message, checksum)),
{
    let mut parts: Vec<Vec<u8>> = Vec::new();
    push_u8(&mut parts, Clc::Move.to_u8());
    push_u8(&mut parts, checksum);
    push_u8(&mut parts, message.lost);
    let nullcmd = UserCmd::default();
    let mut c0 = usercmd_parts_exec(&nullcmd, &message.cmds[0]);
    append_parts(&mut parts, &mut c0);
    let mut c1 = usercmd_parts_exec(&message.cmds[0], &message.cmds[1]);
    append_parts(&mut parts, &mut c1);
    let mut c2 = usercmd_parts_exec(&message.cmds[1], &message.cmds[2]);
    append_parts(&mut parts, &mut c2);
    let ghost before = byte_parts(parts@);
    match message.delta_sequence {
        Some(d) => {
            push_u8(&mut parts, Clc::Delta.to_u8());
            push_u8(&mut parts, d);
        },
        None => {
            assert(byte_parts(parts@) =~= before + Seq::<Seq<u8>>::empty());
        },
    }
    proof {
        assert(byte_parts(parts@) =~= move_parts(*message, checksum));
    }
    write_parts(buf, &parts)
}

} // verus!
