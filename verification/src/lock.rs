//! One exclusive claim per URL, so two host processes cannot write the same
//! partial file.
//!
//! The lock is the operating system's: a file that only one process can hold
//! open. What is decided here is its name, and what a failure to open it means.

use vstd::prelude::*;
use vstd::utf8::encode_utf8;

use crate::digest::{sha256, sha256_of, MAX_HASHED};
use crate::error::{IoFault, IoFaultView, IoKind};
use crate::text;

verus! {

/// The name of the lock file for a digest.
pub fn lock_name_for(digest: &[u8]) -> (r: String)
    ensures
        r@ == text::hex_text(digest@) + ".lock"@,
{
    let mut out = text::hex(digest);
    out.append(".lock");
    out
}

/// The name of the lock file for a URL.
///
/// Hashed rather than sanitised: URLs routinely exceed the filename limit and
/// contain forbidden characters, and a lossy sanitisation would make two
/// different URLs collide onto one lock.
pub fn lock_name(url: &str) -> (r: String)
    requires
        encode_utf8(url@).len() <= MAX_HASHED,
    ensures
        r@ == text::hex_text(sha256(encode_utf8(url@))) + ".lock"@,
        r@.len() == 69,
{
    let digest = sha256_of(url.as_bytes());
    proof {
        text::lemma_hex_text_len(digest@);
        reveal_strlit(".lock");
    }
    lock_name_for(digest.as_slice())
}

/// Different digests give different lock files.
pub proof fn law_lock_names_tell_digests_apart(a: Seq<u8>, b: Seq<u8>)
    requires
        a.len() == b.len(),
        text::hex_text(a) + ".lock"@ == text::hex_text(b) + ".lock"@,
    ensures
        a == b,
{
    text::lemma_hex_text_len(a);
    text::lemma_hex_text_len(b);
    let n = text::hex_text(a).len() as int;
    assert(text::hex_text(a) =~= (text::hex_text(a) + ".lock"@).take(n));
    assert(text::hex_text(b) =~= (text::hex_text(b) + ".lock"@).take(n));
    lemma_hex_text_injective(a, b);
}

proof fn lemma_hex_char_injective(a: int, b: int)
    requires
        0 <= a < 16,
        0 <= b < 16,
        text::hex_char(a) == text::hex_char(b),
    ensures
        a == b,
{
}

proof fn lemma_hex_text_injective(a: Seq<u8>, b: Seq<u8>)
    requires
        a.len() == b.len(),
        text::hex_text(a) == text::hex_text(b),
    ensures
        a == b,
    decreases a.len(),
{
    if a.len() == 0 {
        assert(a =~= b);
    } else {
        let x = text::hex_text(a);
        let y = text::hex_text(b);
        let n = a.len() - 1;
        text::lemma_hex_text_len(a.drop_last());
        text::lemma_hex_text_len(b.drop_last());
        assert(text::hex_text(a.drop_last()) =~= x.take(2 * n));
        assert(text::hex_text(b.drop_last()) =~= y.take(2 * n));
        lemma_hex_text_injective(a.drop_last(), b.drop_last());
        assert(x[2 * n] == text::hex_char(a.last() as int / 16));
        assert(y[2 * n] == text::hex_char(b.last() as int / 16));
        assert(x[2 * n + 1] == text::hex_char(a.last() as int % 16));
        assert(y[2 * n + 1] == text::hex_char(b.last() as int % 16));
        lemma_hex_char_injective(a.last() as int / 16, b.last() as int / 16);
        lemma_hex_char_injective(a.last() as int % 16, b.last() as int % 16);
        assert(a =~= a.drop_last().push(a.last()));
        assert(b =~= b.drop_last().push(b.last()));
    }
}

/// Whether a failure to open the lock means that someone else holds it.
pub open spec fn is_held(e: IoFaultView, windows: bool) -> bool {
    ||| windows && (e.code == Some(32i32) || e.code == Some(33i32))
    ||| e.kind == IoKind::PermissionDenied
    ||| e.kind == IoKind::AlreadyExists
}

/// Whether this error means "someone else holds the lock" rather than "the lock
/// is broken".
///
/// Deliberately keyed on the raw code on Windows: a share-mode violation has no
/// kind of its own, and taking it for a hard error would tell the user a
/// download failed when it was merely already running.
pub fn is_contention(e: &IoFault, windows: bool) -> (r: bool)
    ensures
        r == is_held(e@, windows),
{
    if windows {
        if let Some(c) = e.code {
            if c == 32 || c == 33 {
                return true;
            }
        }
    }
    match e.kind {
        IoKind::PermissionDenied | IoKind::AlreadyExists => true,
        _ => false,
    }
}

/// What an attempt to claim a URL came to.
pub enum Claim {
    /// The claim is ours for as long as the file stays open.
    Held,
    /// Another live host already owns it, which is a normal answer.
    Taken,
    Failed(IoFault),
}

/// Whether this is what an attempt to open the lock file came to.
pub open spec fn is_claim(opened: Result<(), IoFault>, windows: bool, r: Claim) -> bool {
    match opened {
        Ok(_) => r is Held,
        Err(e) => if is_held(e@, windows) {
            r is Taken
        } else {
            r matches Claim::Failed(f) && f@ == e@
        },
    }
}

/// Judge the attempt to open the lock file exclusively.
pub fn acquire(opened: Result<(), IoFault>, windows: bool) -> (r: Claim)
    ensures
        is_claim(opened, windows, r),
{
    match opened {
        Ok(_) => Claim::Held,
        Err(e) => if is_contention(&e, windows) {
            Claim::Taken
        } else {
            Claim::Failed(e)
        },
    }
}

/// Only who could open the lock holds it; who could not because it is in use finds it
/// taken, and any other failure is reported as it is.
pub proof fn law_only_who_opened_the_lock_holds_it(
    opened: Result<(), IoFault>,
    windows: bool,
    r: Claim,
)
    requires
        is_claim(opened, windows, r),
    ensures
        opened is Ok <==> r is Held,
        opened matches Err(e) ==> (windows && (e@.code == Some(32i32) || e@.code == Some(33i32))
            ==> r is Taken),
        opened matches Err(e) ==> (e@.kind == IoKind::AlreadyExists || e@.kind
            == IoKind::PermissionDenied ==> r is Taken),
        opened matches Err(e) ==> (e@.kind == IoKind::NotFound && e@.code is None ==> (
        r matches Claim::Failed(f) && f@ == e@)),
        opened matches Err(e) ==> (!windows && e@.kind == IoKind::Other ==> r is Failed),
{
}

} // verus!
