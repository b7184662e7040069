//! Length-prefixed framing over a byte stream.
//!
//! A message is a 32-bit length in the machine's byte order, then that many
//! bytes. A stream can hand over half a frame or two and a half, so the prefix
//! is the only thing that says where a message ends.

use vstd::prelude::*;
use vstd::slice::slice_subrange;

use crate::error::{joined, IoFault, IoFaultView, IoKind};
use crate::text;

verus! {

/// Refuse to allocate for a prefix larger than this. A corrupt prefix would
/// otherwise have us reserve 4 GiB before reading a byte.
pub const MAX_FRAME: u32 = 33554432;

/// The order in which a machine lays out the bytes of an integer.
#[derive(Debug, Clone, Copy, PartialEq, Eq, Structural)]
pub enum ByteOrder {
    Little,
    Big,
}

/// The four bytes of a length, in a machine's order.
pub open spec fn prefix(order: ByteOrder, n: int) -> Seq<u8> {
    let b0 = (n % 256) as u8;
    let b1 = ((n / 0x100) % 256) as u8;
    let b2 = ((n / 0x1_0000) % 256) as u8;
    let b3 = ((n / 0x100_0000) % 256) as u8;
    match order {
        ByteOrder::Little => seq![b0, b1, b2, b3],
        ByteOrder::Big => seq![b3, b2, b1, b0],
    }
}

/// The length four bytes give, in a machine's order.
pub open spec fn prefix_value(order: ByteOrder, b: Seq<u8>) -> int {
    match order {
        ByteOrder::Little => b[0] + 0x100 * b[1] + 0x1_0000 * b[2] + 0x100_0000 * b[3],
        ByteOrder::Big => b[3] + 0x100 * b[2] + 0x1_0000 * b[1] + 0x100_0000 * b[0],
    }
}

/// A length survives its prefix.
pub proof fn law_prefix_round_trips(order: ByteOrder, n: int)
    requires
        0 <= n <= u32::MAX,
    ensures
        prefix(order, n).len() == 4,
        prefix_value(order, prefix(order, n)) == n,
{
}

/// The four bytes of a length.
pub fn prefix_of(order: ByteOrder, n: u32) -> (r: Vec<u8>)
    ensures
        r@ == prefix(order, n as int),
{
    let b0: u8 = (n % 256) as u8;
    let b1: u8 = ((n / 0x100) % 256) as u8;
    let b2: u8 = ((n / 0x1_0000) % 256) as u8;
    let b3: u8 = ((n / 0x100_0000) % 256) as u8;
    let r: Vec<u8> = match order {
        ByteOrder::Little => vec![b0, b1, b2, b3],
        ByteOrder::Big => vec![b3, b2, b1, b0],
    };
    assert(r@ =~= prefix(order, n as int));
    r
}

/// The length four bytes give.
pub fn prefix_value_of(order: ByteOrder, b: &[u8]) -> (r: u32)
    requires
        b@.len() == 4,
    ensures
        r == prefix_value(order, b@),
{
    match order {
        ByteOrder::Little => b[0] as u32 + 0x100 * b[1] as u32 + 0x1_0000 * b[2] as u32
            + 0x100_0000 * b[3] as u32,
        ByteOrder::Big => b[3] as u32 + 0x100 * b[2] as u32 + 0x1_0000 * b[1] as u32 + 0x100_0000
            * b[0] as u32,
    }
}

/// A message in its frame.
pub open spec fn framed(order: ByteOrder, body: Seq<u8>) -> Seq<u8> {
    prefix(order, body.len() as int) + body
}

/// A complaint about data that makes no sense.
pub open spec fn invalid_data(message: Seq<char>) -> IoFaultView {
    IoFaultView { kind: IoKind::InvalidData, code: None, message }
}

pub fn invalid_data_of(message: String) -> (r: IoFault)
    ensures
        r@ == invalid_data(message@),
{
    IoFault { kind: IoKind::InvalidData, code: None, message }
}

/// A complaint that a stream ended inside a message.
pub open spec fn truncated() -> IoFaultView {
    IoFaultView {
        kind: IoKind::UnexpectedEof,
        code: None,
        message: "failed to fill whole buffer"@,
    }
}

/// The complaint about a prefix over the limit, in the words of its reader.
pub open spec fn too_long(noun: Seq<char>, len: nat, limit: nat) -> Seq<char> {
    noun + " length "@ + text::decimal(len) + " exceeds the "@ + text::decimal(limit)
        + " byte limit"@
}

fn too_long_of(noun: &str, len: u32, limit: u32) -> (r: String)
    ensures
        r@ == too_long(noun@, len as nat, limit as nat),
{
    let mut out = joined(noun, " length ");
    out.append(text::decimal_of(len as u64).as_str());
    out.append(" exceeds the ");
    out.append(text::decimal_of(limit as u64).as_str());
    out.append(" byte limit");
    out
}

/// How many bytes follow a prefix, or why it is refused.
pub open spec fn judged(order: ByteOrder, b: Seq<u8>, limit: u32, noun: Seq<char>) -> Result<
    int,
    IoFaultView,
> {
    let n = prefix_value(order, b);
    if n > limit {
        Err(invalid_data(too_long(noun, n as nat, limit as nat)))
    } else {
        Ok(n)
    }
}

/// Judge a prefix before anything is allocated for it: how many bytes follow.
pub fn judge_prefix(order: ByteOrder, b: &[u8], limit: u32, noun: &str) -> (r: Result<u32, IoFault>)
    requires
        b@.len() == 4,
    ensures
        match judged(order, b@, limit, noun@) {
            Ok(n) => r matches Ok(len) && len == n,
            Err(f) => r matches Err(e) && e@ == f,
        },
{
    let n: u32 = prefix_value_of(order, b);
    if n > limit {
        Err(invalid_data_of(too_long_of(noun, n, limit)))
    } else {
        Ok(n)
    }
}

/// What reading one message off a stream gives, and how much of it is used.
pub open spec fn read_result(
    order: ByteOrder,
    rest: Seq<u8>,
    limit: u32,
    noun: Seq<char>,
) -> (Result<Option<Seq<u8>>, IoFaultView>, int) {
    if rest.len() < 4 {
        // The peer hung up between messages.
        (Ok(None), rest.len() as int)
    } else {
        let n = prefix_value(order, rest.take(4));
        if n > limit {
            (Err(invalid_data(too_long(noun, n as nat, limit as nat))), 4)
        } else if rest.len() < 4 + n {
            // The sender promised n bytes and delivered fewer: the stream is out
            // of step and cannot be resynchronised.
            (Err(truncated()), rest.len() as int)
        } else {
            (Ok(Some(rest.subrange(4, 4 + n))), 4 + n)
        }
    }
}

/// Bytes that have arrived, and how many of them were read.
pub struct ByteReader {
    data: Vec<u8>,
    at: usize,
}

impl View for ByteReader {
    type V = Seq<u8>;

    /// What is left to read.
    closed spec fn view(&self) -> Seq<u8> {
        self.data@.skip(self.at as int)
    }
}

impl ByteReader {
    pub closed spec fn wf(self) -> bool {
        self.at <= self.data.len()
    }

    pub fn new(data: Vec<u8>) -> (r: ByteReader)
        ensures
            r@ == data@,
            r.wf(),
    {
        let r = ByteReader { data, at: 0 };
        assert(r@ =~= data@);
        r
    }

    /// Read one message.
    pub fn read(&mut self, order: ByteOrder, limit: u32, noun: &str) -> (r: Result<
        Option<Vec<u8>>,
        IoFault,
    >)
        requires
            old(self).wf(),
        ensures
            final(self).wf(),
            ({
                let (outcome, used) = read_result(order, old(self)@, limit, noun@);
                &&& final(self)@ == old(self)@.skip(used)
                &&& match outcome {
                    Ok(Some(body)) => r matches Ok(Some(v)) && v@ == body,
                    Ok(None) => r matches Ok(None),
                    Err(f) => r matches Err(e) && e@ == f,
                }
            }),
    {
        let ghost rest = self@;
        let left: usize = self.data.len() - self.at;
        if left < 4 {
            self.at = self.data.len();
            assert(self@ =~= rest.skip(rest.len() as int));
            return Ok(None);
        }
        let head = slice_subrange(self.data.as_slice(), self.at, self.at + 4);
        assert(head@ =~= rest.take(4));
        let n: u32 = match judge_prefix(order, head, limit, noun) {
            Ok(n) => n,
            Err(e) => {
                self.at = self.at + 4;
                assert(self@ =~= rest.skip(4));
                return Err(e);
            },
        };
        if left - 4 < n as usize {
            self.at = self.data.len();
            assert(self@ =~= rest.skip(rest.len() as int));
            return Err(
                IoFault {
                    kind: IoKind::UnexpectedEof,
                    code: None,
                    message: "failed to fill whole buffer".to_owned(),
                },
            );
        }
        let from: usize = self.at + 4;
        let body = vstd::slice::slice_to_vec(
            slice_subrange(self.data.as_slice(), from, from + n as usize),
        );
        self.at = from + n as usize;
        assert(body@ =~= rest.subrange(4, 4 + n));
        assert(self@ =~= rest.skip(4 + n));
        Ok(Some(body))
    }
}

/// Read one frame. `Ok(None)` is a clean disconnect, which is how every
/// well-behaved client ends a session.
pub fn read_frame(reader: &mut ByteReader, order: ByteOrder) -> (r: Result<
    Option<Vec<u8>>,
    IoFault,
>)
    requires
        old(reader).wf(),
    ensures
        final(reader).wf(),
        ({
            let (outcome, used) = read_result(order, old(reader)@, MAX_FRAME, "frame"@);
            &&& final(reader)@ == old(reader)@.skip(used)
            &&& match outcome {
                Ok(Some(body)) => r matches Ok(Some(v)) && v@ == body,
                Ok(None) => r matches Ok(None),
                Err(f) => r matches Err(e) && e@ == f,
            }
        }),
{
    reader.read(order, MAX_FRAME, "frame")
}

/// What is wrong with a body that is to be sent as a frame, if anything.
pub open spec fn frame_fault(len: nat) -> Option<IoFaultView> {
    if len > u32::MAX {
        Some(
            invalid_data(
                "frame of "@ + text::decimal(len) + " bytes does not fit a 32-bit prefix"@,
            ),
        )
    } else if len > MAX_FRAME {
        Some(
            invalid_data(
                "frame of "@ + text::decimal(len) + " bytes exceeds the "@ + text::decimal(
                    MAX_FRAME as nat,
                ) + " byte limit"@,
            ),
        )
    } else {
        None
    }
}

/// Write one frame. Prefix and body go out together: a writer that got in
/// between them would desynchronise the stream.
pub fn write_frame(writer: &mut Vec<u8>, body: &[u8], order: ByteOrder) -> (r: Result<(), IoFault>)
    ensures
        match frame_fault(body@.len()) {
            Some(f) => final(writer)@ == old(writer)@ && (r matches Err(e) && e@ == f),
            None => final(writer)@ == old(writer)@ + framed(order, body@) && r is Ok,
        },
{
    let len: usize = body.len();
    if len as u64 > u32::MAX as u64 {
        let mut m = joined("frame of ", text::decimal_of(len as u64).as_str());
        m.append(" bytes does not fit a 32-bit prefix");
        return Err(invalid_data_of(m));
    }
    if len as u64 > MAX_FRAME as u64 {
        let mut m = joined("frame of ", text::decimal_of(len as u64).as_str());
        m.append(" bytes exceeds the ");
        m.append(text::decimal_of(MAX_FRAME as u64).as_str());
        m.append(" byte limit");
        return Err(invalid_data_of(m));
    }
    let mut head: Vec<u8> = prefix_of(order, len as u32);
    writer.append(&mut head);
    writer.extend_from_slice(body);
    assert(writer@ =~= old(writer)@ + framed(order, body@));
    Ok(())
}

/// Whether a failure is the peer having gone away rather than something wrong.
pub open spec fn is_disconnect_fault(e: IoFaultView) -> bool {
    ||| e.kind == IoKind::BrokenPipe
    ||| e.kind == IoKind::ConnectionReset
    ||| e.kind == IoKind::UnexpectedEof
    ||| e.code == Some(109i32)
    ||| e.code == Some(233i32)
}

/// Whether this error is the peer having gone away rather than something wrong.
///
/// The raw codes are what a Windows named pipe actually returns, and at least
/// one of them has no kind of its own.
pub fn is_disconnect(e: &IoFault) -> (r: bool)
    ensures
        r == is_disconnect_fault(e@),
{
    let by_kind = match e.kind {
        IoKind::BrokenPipe | IoKind::ConnectionReset | IoKind::UnexpectedEof => true,
        _ => false,
    };
    let by_code = match e.code {
        Some(c) => c == 109 || c == 233,
        None => false,
    };
    by_kind || by_code
}

/// Reading gives back what writing wrote: a message written in front of anything
/// else is read whole, and what follows it is left for the next read. Holds for
/// every message within the reader's limit, in either byte order.
pub proof fn law_a_frame_round_trips(
    order: ByteOrder,
    body: Seq<u8>,
    rest: Seq<u8>,
    limit: u32,
    noun: Seq<char>,
)
    requires
        body.len() <= limit,
    ensures
        ({
            let (outcome, used) = read_result(order, framed(order, body) + rest, limit, noun);
            outcome == Ok::<Option<Seq<u8>>, IoFaultView>(Some(body)) && (framed(order, body)
                + rest).skip(used) == rest
        }),
{
    let whole = framed(order, body) + rest;
    let n = body.len() as int;
    law_prefix_round_trips(order, n);
    assert(whole.take(4) =~= prefix(order, n));
    assert(whole.subrange(4, 4 + n) =~= body);
    assert(whole.skip(4 + n) =~= rest);
}

/// A stream that ends between messages, or inside a prefix, ends cleanly; one
/// that ends inside a body never does.
pub proof fn law_only_a_truncated_body_is_an_error(
    order: ByteOrder,
    body: Seq<u8>,
    kept: int,
    limit: u32,
    noun: Seq<char>,
)
    requires
        body.len() <= limit,
        0 <= kept < framed(order, body).len(),
    ensures
        ({
            let (outcome, used) = read_result(order, framed(order, body).take(kept), limit, noun);
            if kept < 4 {
                outcome == Ok::<Option<Seq<u8>>, IoFaultView>(None)
            } else {
                outcome == Err::<Option<Seq<u8>>, IoFaultView>(truncated())
            }
        }),
{
    let part = framed(order, body).take(kept);
    law_prefix_round_trips(order, body.len() as int);
    if kept >= 4 {
        assert(part.take(4) =~= prefix(order, body.len() as int));
    }
}

/// A length within the limit is taken, one over it is refused before anything is read
/// for it.
pub proof fn law_only_a_length_over_the_limit_is_refused(
    order: ByteOrder,
    n: int,
    rest: Seq<u8>,
    limit: u32,
    noun: Seq<char>,
)
    requires
        0 <= n <= u32::MAX,
    ensures
        n <= limit ==> judged(order, prefix(order, n), limit, noun) == Ok::<int, IoFaultView>(n),
        n > limit ==> judged(order, prefix(order, n), limit, noun) is Err,
        n > limit ==> ({
            let (outcome, used) = read_result(order, prefix(order, n) + rest, limit, noun);
            used == 4 && (outcome matches Err(e) && e.kind == IoKind::InvalidData)
        }),
{
    law_prefix_round_trips(order, n);
    assert((prefix(order, n) + rest).take(4) =~= prefix(order, n));
}

/// A small length is its first byte on a machine that begins with the low end, and
/// its last on one that begins with the high end; each is the other backwards.
pub proof fn law_the_orders_are_opposite(n: int)
    requires
        0 <= n <= u32::MAX,
    ensures
        prefix(ByteOrder::Big, n) == prefix(ByteOrder::Little, n).reverse(),
        n < 256 ==> prefix(ByteOrder::Little, n) == seq![n as u8, 0u8, 0u8, 0u8],
        n < 256 ==> prefix(ByteOrder::Big, n) == seq![0u8, 0u8, 0u8, n as u8],
{
    assert(prefix(ByteOrder::Big, n) =~= prefix(ByteOrder::Little, n).reverse());
}

/// A body is sent exactly if it is within the limit that its reader has.
pub proof fn law_what_can_be_read_is_sent(len: nat)
    ensures
        frame_fault(len) is None <==> len <= MAX_FRAME,
        frame_fault(len) matches Some(e) ==> e.kind == IoKind::InvalidData,
{
}

/// A peer that has gone away is no fault; a stream that makes no sense is.
pub proof fn law_a_peer_that_left_is_no_fault(e: IoFaultView)
    ensures
        e.kind == IoKind::BrokenPipe || e.kind == IoKind::ConnectionReset
            ==> is_disconnect_fault(e),
        is_disconnect_fault(truncated()),
        e.kind == IoKind::InvalidData && e.code is None ==> !is_disconnect_fault(e),
        e.kind == IoKind::PermissionDenied && e.code is None ==> !is_disconnect_fault(e),
        e.kind == IoKind::TimedOut && e.code is None ==> !is_disconnect_fault(e),
{
}

} // verus!
