//! Writes at a position.
//!
//! Every segment is written to its own place in one file, so nothing is left to
//! merge when the last byte lands. The system may take a write in pieces.

use vstd::prelude::*;

use crate::error::{IoFault, IoKind};

verus! {

/// The size a file has to be given before the first write, if it is not that
/// already. A file of the right size is left alone: it may hold data to resume.
pub fn must_resize(current: u64, wanted: Option<u64>) -> (r: Option<u64>)
    ensures
        r == (match wanted {
            Some(size) => if size != current {
                Some(size)
            } else {
                None
            },
            None => None,
        }),
{
    match wanted {
        Some(size) => if size != current {
            Some(size)
        } else {
            None
        },
        None => None,
    }
}

/// A buffer on its way into a file.
pub struct PositionedWrite {
    offset: u64,
    len: usize,
    written: usize,
}

/// What a buffer on its way is, mathematically: where its first byte goes, how
/// long it is, and how much of it is there.
#[verifier::ext_equal]
pub struct WriteView {
    pub offset: int,
    pub len: int,
    pub written: int,
}

impl View for PositionedWrite {
    type V = WriteView;

    closed spec fn view(&self) -> WriteView {
        WriteView { offset: self.offset as int, len: self.len as int, written: self.written as int }
    }
}

impl WriteView {
    /// What is left to write: from where in the buffer, to where in the file.
    pub open spec fn left(self) -> Option<(int, int)> {
        if self.written < self.len {
            Some((self.written, self.offset + self.written))
        } else {
            None
        }
    }

    /// After the system took the next `n` bytes.
    pub open spec fn taken(self, n: int) -> WriteView {
        WriteView { written: self.written + n, ..self }
    }

    pub open spec fn wf(self) -> bool {
        0 <= self.offset && 0 <= self.written <= self.len && self.offset + self.len <= u64::MAX
    }
}

/// What is left to write: from where in the buffer, to where in the file.
#[derive(Debug, Clone, Copy, PartialEq, Eq, Structural)]
pub struct Rest {
    pub from: usize,
    pub at: u64,
}

impl PositionedWrite {
    pub fn new(offset: u64, len: usize) -> (r: PositionedWrite)
        requires
            offset + len <= u64::MAX,
        ensures
            r@ == (WriteView { offset: offset as int, len: len as int, written: 0 }),
            r@.wf(),
    {
        PositionedWrite { offset, len, written: 0 }
    }

    /// What to write next; nothing once everything is there.
    pub fn rest(&self) -> (r: Option<Rest>)
        requires
            self@.wf(),
        ensures
            match r {
                Some(rest) => self@.left() == Some((rest.from as int, rest.at as int)),
                None => self@.left() is None,
            },
    {
        if self.written < self.len {
            Some(Rest { from: self.written, at: self.offset + self.written as u64 })
        } else {
            None
        }
    }

    /// The system took `n` bytes. A write that makes no progress is an error, not
    /// something to try forever.
    pub fn took(&mut self, n: usize) -> (r: Result<(), IoFault>)
        requires
            old(self)@.wf(),
            n <= old(self)@.len - old(self)@.written,
        ensures
            final(self)@.wf(),
            final(self)@ == old(self)@.taken(n as int),
            match r {
                Ok(_) => n > 0,
                Err(e) => n == 0 && e@.kind == IoKind::Other && e@.code is None && e@.message
                    == "positioned write made no progress"@,
            },
    {
        if n == 0 {
            return Err(
                IoFault {
                    kind: IoKind::Other,
                    code: None,
                    message: "positioned write made no progress".to_owned(),
                },
            );
        }
        self.written = self.written + n;
        Ok(())
    }
}

/// A file, byte by byte, after the system took the next `n` bytes of a buffer.
pub open spec fn stored(file: Map<int, u8>, w: WriteView, buf: Seq<u8>, n: int) -> Map<int, u8> {
    Map::new(
        |p: int|
            file.dom().contains(p) || w.offset + w.written <= p < w.offset + w.written + n,
        |p: int|
            if w.offset + w.written <= p < w.offset + w.written + n {
                buf[p - w.offset]
            } else {
                file[p]
            },
    )
}

/// Whether a file holds what was written of a buffer, each byte in its place.
pub open spec fn holds(file: Map<int, u8>, w: WriteView, buf: Seq<u8>) -> bool {
    forall|p: int|
        w.offset <= p < w.offset + w.written ==> #[trigger] file.dom().contains(p) && file[p]
            == buf[p - w.offset]
}

/// In whatever pieces the system takes a buffer, every byte ends up in its own
/// place, and nothing outside the buffer's range is touched.
pub proof fn law_every_byte_goes_to_its_place(
    file: Map<int, u8>,
    w: WriteView,
    buf: Seq<u8>,
    n: int,
)
    requires
        w.wf(),
        buf.len() == w.len,
        0 <= n <= w.len - w.written,
        holds(file, w, buf),
    ensures
        holds(stored(file, w, buf, n), WriteView { written: w.written + n, ..w }, buf),
        forall|p: int|
            !(w.offset <= p < w.offset + w.len) ==> (#[trigger] stored(
                file,
                w,
                buf,
                n,
            ).dom().contains(p) <==> file.dom().contains(p)) && (file.dom().contains(p) ==> stored(
                file,
                w,
                buf,
                n,
            )[p] == file[p]),
{
    let after = stored(file, w, buf, n);
    assert forall|p: int| w.offset <= p < w.offset + w.written + n implies
        #[trigger] after.dom().contains(p) && after[p] == buf[p - w.offset] by {
        if p < w.offset + w.written {
            assert(file.dom().contains(p));
        }
    }
}

/// What is left to write is what comes next, and nothing is left exactly when the file
/// holds every byte of the buffer in its place.
pub proof fn law_what_is_left_comes_next(file: Map<int, u8>, w: WriteView, buf: Seq<u8>, n: int)
    requires
        w.wf(),
        buf.len() == w.len,
        holds(file, w, buf),
    ensures
        w.left() matches Some((from, at)) ==> {
            &&& 0 <= from < buf.len()
            &&& at - w.offset == from
            &&& from == w.written
            &&& 0 < n <= w.len - from ==> w.taken(n).wf() && w.taken(n).written == from + n
                && w.taken(n).offset == w.offset && w.taken(n).len == w.len
        },
        w.left() is None ==> forall|i: int|
            0 <= i < buf.len() ==> file.dom().contains(w.offset + i) && #[trigger] buf[i]
                == file[w.offset + i],
        w.left() is None <==> w.written == w.len,
{
    if w.left() is None {
        assert forall|i: int| 0 <= i < buf.len() implies file.dom().contains(w.offset + i)
            && #[trigger] buf[i] == file[w.offset + i] by {
            assert(file.dom().contains(w.offset + i));
        }
    }
}

} // verus!
