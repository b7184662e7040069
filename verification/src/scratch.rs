//! Where partial downloads live, and how a finished one reaches its destination.
//!
//! Resume has to find the same `.part` file on the next run, so its name is
//! derived from the download's identity rather than allocated: a hash of the
//! URL, the destination directory and the *requested* filename. Not the final
//! de-duplicated path, because that may change between attempts and would
//! orphan the partial data.

use vstd::prelude::*;
use vstd::utf8::encode_utf8;

use crate::error::{IoFault, IoFaultView};
use crate::naming;
use crate::naming::{FilePath, PathView};
use crate::text;
use crate::text::Fringe;

verus! {

/// Longest readable prefix kept in a scratch filename. Enough to recognise a
/// download in the temp folder without risking the component limit once the
/// hash and extension are added.
pub const STEM_LIMIT: usize = 48;

pub const FNV_OFFSET: u64 = 0xcbf2_9ce4_8422_2325;

pub const FNV_PRIME: u64 = 0x0000_0100_0000_01b3;

/// FNV-1a, 64-bit: each byte is folded in by exclusive or, then the value is
/// multiplied by the prime, modulo 2^64.
pub open spec fn fnv(bytes: Seq<u8>) -> u64
    decreases bytes.len(),
{
    if bytes.len() == 0 {
        FNV_OFFSET
    } else {
        let h = fnv(bytes.drop_last()) ^ (bytes.last() as u64);
        ((h as int * FNV_PRIME as int) % 0x1_0000_0000_0000_0000) as u64
    }
}

/// FNV-1a, 64-bit.
///
/// The value has to mean the same thing on the next run of a possibly newer
/// build: a changed hash silently orphans every partial download on the user's
/// disk.
pub fn fnv1a64(bytes: &[u8]) -> (r: u64)
    ensures
        r == fnv(bytes@),
{
    let mut h: u64 = FNV_OFFSET;
    let mut i: usize = 0;
    assert(bytes@.take(0) =~= Seq::<u8>::empty());
    while i < bytes.len()
        invariant
            i <= bytes.len(),
            h == fnv(bytes@.take(i as int)),
        decreases bytes.len() - i,
    {
        proof {
            assert(bytes@.take(i + 1).drop_last() =~= bytes@.take(i as int));
        }
        h = h ^ (bytes[i] as u64);
        h = h.wrapping_mul(FNV_PRIME);
        i = i + 1;
    }
    assert(bytes@.take(i as int) =~= bytes@);
    h
}

/// A character that stays readable in a scratch name.
pub open spec fn is_plain(c: char) -> bool {
    'a' <= c <= 'z' || 'A' <= c <= 'Z' || '0' <= c <= '9' || c == '-' || c == '_'
}

pub open spec fn plain_char(c: char) -> char {
    if is_plain(c) {
        c
    } else {
        '_'
    }
}

/// The stem of the sanitised name, every odd character replaced, cut to the
/// limit.
pub open spec fn plain_stem(filename: Seq<char>) -> Seq<char> {
    let safe = naming::sanitized(filename);
    let stem = match naming::file_stem(safe, false) {
        Some(s) => s,
        None => safe,
    };
    let plain = stem.map_values(|c: char| plain_char(c));
    if plain.len() > STEM_LIMIT {
        plain.take(STEM_LIMIT as int)
    } else {
        plain
    }
}

/// A short, safe, recognisable version of the filename for the scratch name.
pub open spec fn stem_for(filename: Seq<char>) -> Seq<char> {
    let stem = text::trimmed(plain_stem(filename), Fringe::Margin);
    if stem.len() == 0 {
        "download"@
    } else {
        stem
    }
}

fn plain_char_of(c: char) -> (r: char)
    ensures
        r == plain_char(c),
{
    if ('a' <= c && c <= 'z') || ('A' <= c && c <= 'Z') || ('0' <= c && c <= '9') || c == '-' || c
        == '_' {
        c
    } else {
        '_'
    }
}

/// A short, safe, recognisable version of the filename for the scratch name.
pub fn readable_stem(filename: &str) -> (r: String)
    ensures
        r@ == stem_for(filename@),
{
    let safe = text::chars_of(naming::sanitize_filename(filename).as_str());
    let stem: &[char] = match naming::file_stem_of(safe.as_slice(), false) {
        Some(s) => s,
        None => safe.as_slice(),
    };
    let mut out: Vec<char> = Vec::new();
    let mut i: usize = 0;
    while i < stem.len() && i < STEM_LIMIT
        invariant
            i <= stem.len(),
            i <= STEM_LIMIT,
            out.len() == i,
            forall|k: int| 0 <= k < i ==> #[trigger] out[k] == plain_char(stem@[k]),
        decreases stem.len() - i,
    {
        out.push(plain_char_of(stem[i]));
        i = i + 1;
    }
    assert(out@ =~= plain_stem(filename@));
    let trimmed = text::trim(out.as_slice(), Fringe::Margin);
    if trimmed.len() == 0 {
        "download".to_owned()
    } else {
        text::text_of(trimmed)
    }
}

/// What a download is known by: URL, directory and filename, told apart by a
/// character none of them holds.
pub open spec fn identity(url: Seq<char>, dir: Seq<char>, filename: Seq<char>) -> Seq<char> {
    url + seq!['\0'] + dir + seq!['\0'] + filename
}

/// The name of the `.part` file of a download.
pub open spec fn part_name(url: Seq<char>, dir: Seq<char>, filename: Seq<char>) -> Seq<char> {
    stem_for(filename) + seq!['-'] + text::hex_digits(
        fnv(encode_utf8(identity(url, dir, filename))) as int,
        16,
    ) + ".part"@
}

/// Path of the `.part` file for one download inside `temp_dir`.
///
/// `dir` and `filename` are the *intended* destination, before de-duplication.
pub fn part_path(temp_dir: &str, url: &str, dir: &str, filename: &str) -> (r: FilePath)
    ensures
        r@ == (PathView { dir: temp_dir@, name: part_name(url@, dir@, filename@) }),
{
    let mut key = url.to_owned();
    key.push('\0');
    key.append(dir);
    key.push('\0');
    key.append(filename);
    assert(key@ =~= identity(url@, dir@, filename@));
    let hash: u64 = fnv1a64(key.as_str().as_bytes());
    let mut name = readable_stem(filename);
    name.push('-');
    name.append(text::hex_digits_of(hash, 16).as_str());
    name.append(".part");
    assert(name@ =~= part_name(url@, dir@, filename@));
    FilePath { dir: temp_dir.to_owned(), name }
}

/// Windows reports a cross-volume rename as error 17, Unix as error 18. Keyed on
/// the raw code, because the matching kind is not available everywhere.
pub open spec fn crosses_volumes(e: IoFaultView, windows: bool) -> bool {
    e.code == Some(if windows { 17i32 } else { 18i32 })
}

pub fn is_cross_volume(e: &IoFault, windows: bool) -> (r: bool)
    ensures
        r == crosses_volumes(e@, windows),
{
    let code: i32 = if windows { 17 } else { 18 };
    match e.code {
        Some(c) => c == code,
        None => false,
    }
}

/// What to do once a rename onto the final path has been tried.
#[derive(Debug, Clone, Copy, PartialEq, Eq, Structural)]
pub enum MoveStep {
    /// The file is in place.
    Done,
    /// The two paths are on different volumes: copy, then unlink the source. A
    /// source that will not go is litter, not a failed download.
    CopyThenDelete,
    /// A real failure, to be reported as it is.
    Fail,
}

/// How the finished `.part` file reaches its final path, given what the rename said.
pub open spec fn move_step(rename: Result<(), IoFault>, windows: bool) -> MoveStep {
    match rename {
        Ok(_) => MoveStep::Done,
        Err(e) => if crosses_volumes(e@, windows) {
            MoveStep::CopyThenDelete
        } else {
            MoveStep::Fail
        },
    }
}

/// Decide how the finished `.part` file reaches its final path, given what the
/// rename said.
///
/// Only a cross-volume failure falls back to a copy; a permission error still
/// surfaces as a permission error rather than as a slow copy that fails for the
/// same reason.
pub fn move_into_place(rename: &Result<(), IoFault>, windows: bool) -> (r: MoveStep)
    ensures
        r == move_step(*rename, windows),
{
    match rename {
        Ok(_) => MoveStep::Done,
        Err(e) => if is_cross_volume(e, windows) {
            MoveStep::CopyThenDelete
        } else {
            MoveStep::Fail
        },
    }
}

proof fn lemma_hex_digits(value: int, n: nat)
    requires
        value >= 0,
    ensures
        text::hex_digits(value, n).len() == n,
        forall|i: int| 0 <= i < n ==> is_plain(#[trigger] text::hex_digits(value, n)[i]),
    decreases n,
{
    if n > 0 {
        lemma_hex_digits(value / 16, (n - 1) as nat);
        let front = text::hex_digits(value / 16, (n - 1) as nat);
        let all = text::hex_digits(value, n);
        assert forall|i: int| 0 <= i < n implies is_plain(#[trigger] all[i]) by {
            if i < n - 1 {
                assert(all[i] == front[i]);
            }
        }
    }
}

proof fn lemma_stem_is_plain(filename: Seq<char>)
    ensures
        0 < stem_for(filename).len() <= STEM_LIMIT,
        forall|i: int| 0 <= i < stem_for(filename).len() ==> is_plain(#[trigger] stem_for(filename)[i]),
{
    reveal_strlit("download");
    let plain = plain_stem(filename);
    let safe = naming::sanitized(filename);
    let stem = match naming::file_stem(safe, false) {
        Some(s) => s,
        None => safe,
    };
    assert forall|i: int| 0 <= i < plain.len() implies is_plain(#[trigger] plain[i]) by {
        assert(plain[i] == plain_char(stem[i]));
    }
    let front = text::trimmed_start(plain, Fringe::Margin);
    text::lemma_trimmed(plain, Fringe::Margin);
    text::lemma_trimmed(front, Fringe::Margin);
    let out = text::trimmed(plain, Fringe::Margin);
    assert forall|i: int| 0 <= i < out.len() implies is_plain(#[trigger] out[i]) by {
        assert(out[i] == front[i]);
        assert(front[i] == plain[i + (plain.len() - front.len())]);
    }
}

/// Whatever the filename, the scratch name is a single valid component: letters,
/// digits, dashes and underscores, then `.part`, well inside the component
/// limit.
pub proof fn law_part_name_is_one_component(url: Seq<char>, dir: Seq<char>, filename: Seq<char>)
    ensures
        ({
            let name = part_name(url, dir, filename);
            &&& stem_for(filename).is_prefix_of(name)
            &&& ".part"@.is_suffix_of(name)
            &&& 22 < name.len() <= STEM_LIMIT + 22
            &&& forall|i: int| 0 <= i < name.len() - 5 ==> is_plain(#[trigger] name[i])
        }),
{
    reveal_strlit(".part");
    lemma_stem_is_plain(filename);
    let value = fnv(encode_utf8(identity(url, dir, filename))) as int;
    lemma_hex_digits(value, 16);
    let stem = stem_for(filename);
    let digits = text::hex_digits(value, 16);
    let name = part_name(url, dir, filename);
    assert(name =~= stem + (seq!['-'] + digits + ".part"@));
    assert(stem =~= name.subrange(0, stem.len() as int));
    assert(".part"@ =~= name.subrange(name.len() - 5, name.len() as int));
    assert forall|i: int| 0 <= i < name.len() - 5 implies is_plain(#[trigger] name[i]) by {
        if i < stem.len() {
            assert(name[i] == stem[i]);
        } else if i > stem.len() {
            assert(name[i] == digits[i - stem.len() - 1]);
        }
    }
}

/// Two downloads that differ in URL, directory or filename hash different bytes,
/// as long as none of these texts holds the separator.
pub proof fn law_identity_tells_downloads_apart(
    url1: Seq<char>,
    dir1: Seq<char>,
    name1: Seq<char>,
    url2: Seq<char>,
    dir2: Seq<char>,
    name2: Seq<char>,
)
    requires
        !url1.contains('\0') && !dir1.contains('\0') && !name1.contains('\0'),
        !url2.contains('\0') && !dir2.contains('\0') && !name2.contains('\0'),
        encode_utf8(identity(url1, dir1, name1)) == encode_utf8(identity(url2, dir2, name2)),
    ensures
        url1 == url2,
        dir1 == dir2,
        name1 == name2,
{
    let a = identity(url1, dir1, name1);
    let b = identity(url2, dir2, name2);
    vstd::utf8::encode_utf8_decode_utf8(a);
    vstd::utf8::encode_utf8_decode_utf8(b);
    assert(a == b);
    lemma_same_front(url1, dir1 + seq!['\0'] + name1, url2, dir2 + seq!['\0'] + name2, a);
    lemma_same_front(dir1, name1, dir2, name2, dir1 + seq!['\0'] + name1);
}

/// What stands before the first separator, and after it, is determined.
proof fn lemma_same_front(
    front1: Seq<char>,
    back1: Seq<char>,
    front2: Seq<char>,
    back2: Seq<char>,
    whole: Seq<char>,
)
    requires
        !front1.contains('\0'),
        !front2.contains('\0'),
        whole =~= front1 + seq!['\0'] + back1,
        whole =~= front2 + seq!['\0'] + back2,
    ensures
        front1 == front2,
        back1 == back2,
{
    let n1 = front1.len() as int;
    let n2 = front2.len() as int;
    assert(whole[n1] == '\0');
    assert(whole[n2] == '\0');
    if n1 < n2 {
        assert(whole[n1] == front2[n1]);
    }
    if n2 < n1 {
        assert(whole[n2] == front1[n2]);
    }
    assert(front1 =~= whole.take(n1));
    assert(front2 =~= whole.take(n2));
    assert(back1 =~= whole.skip(n1 + 1));
    assert(back2 =~= whole.skip(n2 + 1));
}

/// A file that was renamed is in place; one that is on another volume is copied; every
/// other failure is one.
pub proof fn law_only_another_volume_means_a_copy(rename: Result<(), IoFault>, windows: bool)
    ensures
        rename is Ok <==> move_step(rename, windows) == MoveStep::Done,
        rename matches Err(e) ==> (move_step(rename, windows) == MoveStep::CopyThenDelete <==> (
        windows && e@.code == Some(17i32) || !windows && e@.code == Some(18i32))),
        rename matches Err(e) ==> (e@.code is None ==> move_step(rename, windows)
            == MoveStep::Fail),
{
}

/// A scratch name begins with what the file is called, where that is plain, and ends
/// in the extension of partial data.
pub proof fn law_a_scratch_name_is_recognisable(
    url: Seq<char>,
    dir: Seq<char>,
    a: Seq<char>,
    e: Seq<char>,
)
    requires
        0 < a.len() <= STEM_LIMIT,
        0 < e.len(),
        forall|i: int| 0 <= i < a.len() ==> is_plain(#[trigger] a[i]),
        forall|i: int| 0 <= i < e.len() ==> is_plain(#[trigger] e[i]),
        a[0] != '_' && a.last() != '_',
        naming::is_good_name(a + seq!['.'] + e),
    ensures
        stem_for(a + seq!['.'] + e) == a,
        a.is_prefix_of(part_name(url, dir, a + seq!['.'] + e)),
        part_name(url, dir, a + seq!['.'] + e)[a.len() as int] == '-',
        ".part"@.is_suffix_of(part_name(url, dir, a + seq!['.'] + e)),
{
    let name = a + seq!['.'] + e;
    naming::law_a_good_name_stays(name);
    assert forall|i: int| 0 <= i < a.len() implies !naming::is_forbidden(#[trigger] a[i]) by {
        assert(is_plain(a[i]));
    }
    assert forall|i: int| 0 <= i < e.len() implies !naming::is_forbidden(#[trigger] e[i]) by {
        assert(is_plain(e[i]));
    }
    if e.contains('.') {
        let i = choose|i: int| 0 <= i < e.len() && e[i] == '.';
        assert(is_plain(e[i]));
    }
    naming::law_an_extension_follows_the_last_dot(a, e, false);
    let mapped = a.map_values(|c: char| plain_char(c));
    assert forall|i: int| 0 <= i < a.len() implies mapped[i] == a[i] by {
        assert(is_plain(a[i]));
    }
    assert(mapped =~= a);
    assert(is_plain(a[0]) && is_plain(a[a.len() - 1]));
    text::law_trimming_leaves_the_rest(a, Fringe::Margin);
    let whole = part_name(url, dir, name);
    assert(whole.take(a.len() as int) =~= a);
    assert(whole.skip(whole.len() - ".part"@.len()) =~= ".part"@);
}

} // verus!
