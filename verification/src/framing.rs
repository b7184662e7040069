//! The browser's native messaging wire format.
//!
//! Every message is a 32-bit length in *native* byte order, followed by that
//! many *bytes*, not characters, of UTF-8. Nothing else may ever be written to
//! the stream.

use vstd::prelude::*;

use crate::error::{joined, IoFault, IoFaultView};
use crate::frame;
use crate::frame::{framed, invalid_data, read_result, ByteOrder, ByteReader};
use crate::text;

verus! {

/// Refuse to allocate for a length prefix larger than this.
pub const MAX_INCOMING: u32 = 67108864;

/// The browser hard-caps a single host-to-extension message and drops the port
/// when it is exceeded. Better to fail loudly here.
pub const MAX_OUTGOING: usize = 1048576;

/// Read one message. `Ok(None)` means the browser closed the pipe, which is the
/// normal way a native messaging session ends.
pub fn read_message(reader: &mut ByteReader, order: ByteOrder) -> (r: Result<
    Option<Vec<u8>>,
    IoFault,
>)
    requires
        old(reader).wf(),
    ensures
        final(reader).wf(),
        ({
            let (outcome, used) = read_result(order, old(reader)@, MAX_INCOMING, "message"@);
            &&& final(reader)@ == old(reader)@.skip(used)
            &&& match outcome {
                Ok(Some(body)) => r matches Ok(Some(v)) && v@ == body,
                Ok(None) => r matches Ok(None),
                Err(f) => r matches Err(e) && e@ == f,
            }
        }),
{
    reader.read(order, MAX_INCOMING, "message")
}

/// What is wrong with a reply that is to be sent, if anything.
pub open spec fn reply_fault(len: nat) -> Option<IoFaultView> {
    if len > MAX_OUTGOING {
        Some(
            invalid_data(
                "response of "@ + text::decimal(len) + " bytes exceeds Chrome's "@ + text::decimal(
                    MAX_OUTGOING as nat,
                ) + " byte limit"@,
            ),
        )
    } else {
        None
    }
}

/// Write one message.
pub fn write_message(writer: &mut Vec<u8>, body: &[u8], order: ByteOrder) -> (r: Result<
    (),
    IoFault,
>)
    ensures
        match reply_fault(body@.len()) {
            Some(f) => final(writer)@ == old(writer)@ && (r matches Err(e) && e@ == f),
            None => final(writer)@ == old(writer)@ + framed(order, body@) && r is Ok,
        },
{
    let len: usize = body.len();
    if len > MAX_OUTGOING {
        let mut m = joined("response of ", text::decimal_of(len as u64).as_str());
        m.append(" bytes exceeds Chrome's ");
        m.append(text::decimal_of(MAX_OUTGOING as u64).as_str());
        m.append(" byte limit");
        return Err(frame::invalid_data_of(m));
    }
    let mut head: Vec<u8> = frame::prefix_of(order, len as u32);
    writer.append(&mut head);
    writer.extend_from_slice(body);
    assert(writer@ =~= old(writer)@ + framed(order, body@));
    Ok(())
}

/// Every message that can be written can be read back: the outgoing limit lies
/// within the incoming one.
pub proof fn law_a_message_round_trips(order: ByteOrder, body: Seq<u8>, rest: Seq<u8>)
    requires
        reply_fault(body.len()) is None,
    ensures
        ({
            let (outcome, used) = read_result(
                order,
                framed(order, body) + rest,
                MAX_INCOMING,
                "message"@,
            );
            outcome == Ok::<Option<Seq<u8>>, IoFaultView>(Some(body)) && (framed(order, body)
                + rest).skip(used) == rest
        }),
{
    frame::law_a_frame_round_trips(order, body, rest, MAX_INCOMING, "message"@);
}

/// A reply is sent exactly if the browser takes one of that size.
pub proof fn law_what_the_browser_takes_is_sent(len: nat)
    ensures
        reply_fault(len) is None <==> len <= 1048576,
{
}

} // verus!
