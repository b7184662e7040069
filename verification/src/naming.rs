//! Filename derivation and Windows-safe path handling.
//!
//! Filenames here come from a remote server, so every one of them is untrusted
//! input: path traversal, NTFS reserved device names, trailing dots that Windows
//! silently strips, and path length limits all have to be handled before the
//! name touches the filesystem.

use vstd::prelude::*;
use vstd::slice::slice_subrange;
use vstd::utf8::encode_utf8;

use crate::link::{Link, LinkView};
use crate::text;
use crate::text::Fringe;

verus! {

// ---------------------------------------------------------------------- paths
/// A file in a directory. Joining the two is left to the platform.
#[derive(Debug, Clone, PartialEq, Eq)]
pub struct FilePath {
    pub dir: String,
    pub name: String,
}

/// What a file path is, mathematically.
#[verifier::ext_equal]
pub struct PathView {
    pub dir: Seq<char>,
    pub name: Seq<char>,
}

impl View for FilePath {
    type V = PathView;

    open spec fn view(&self) -> PathView {
        PathView { dir: self.dir@, name: self.name@ }
    }
}

impl FilePath {
    pub fn new(dir: &str, name: &str) -> (r: FilePath)
        ensures
            r@ == (PathView { dir: dir@, name: name@ }),
    {
        FilePath { dir: dir.to_owned(), name: name.to_owned() }
    }

    /// A copy of this path.
    pub fn copied(&self) -> (r: FilePath)
        ensures
            r@ == self@,
    {
        FilePath { dir: self.dir.clone(), name: self.name.clone() }
    }
}

/// How a path is read.
#[derive(Debug, Clone, Copy, PartialEq, Eq, Structural)]
pub enum Style {
    /// Parted by `/` alone.
    Unix,
    /// Parted by `/` and `\`.
    Windows,
    /// A Windows path that begins with `\\?\`: parted by `\` alone, and taken as it
    /// is written.
    Verbatim,
}

/// Whether a character parts the components of a path.
pub open spec fn is_separator(c: char, style: Style) -> bool {
    ||| c == '/' && style != Style::Verbatim
    ||| c == '\\' && style != Style::Unix
}

/// How a path is read on a platform.
pub open spec fn style_of(path: Seq<char>, windows: bool) -> Style {
    if !windows {
        Style::Unix
    } else if seq!['\\', '\\', '?', '\\'].is_prefix_of(path) {
        Style::Verbatim
    } else {
        Style::Windows
    }
}

/// How many characters there are in front of the first separator.
pub open spec fn span(path: Seq<char>, style: Style) -> int
    decreases path.len(),
{
    if path.len() == 0 || is_separator(path[0], style) {
        0
    } else {
        1 + span(path.drop_first(), style)
    }
}

/// Whether a path begins with a drive, such as `C:`.
pub open spec fn has_drive(path: Seq<char>) -> bool {
    path.len() >= 2 && ('a' <= path[0] <= 'z' || 'A' <= path[0] <= 'Z') && path[1] == ':'
}

/// How many characters of a path name a server and, behind a separator, a share.
pub open spec fn share_len(path: Seq<char>, style: Style) -> int {
    let server = span(path, style);
    if server < path.len() && span(path.skip(server + 1), style) > 0 {
        server + 1 + span(path.skip(server + 1), style)
    } else {
        server
    }
}

/// How many characters of a path say which drive, share or device it is on:
/// `C:`, `\\server\share`, `\\.\device`, and behind `\\?\` a drive,
/// `UNC\server\share` or any other component.
pub open spec fn prefix_len(path: Seq<char>, windows: bool) -> int {
    match style_of(path, windows) {
        Style::Unix => 0,
        Style::Verbatim => {
            let rest = path.skip(4);
            if seq!['U', 'N', 'C', '\\'].is_prefix_of(rest) {
                8 + share_len(rest.skip(4), Style::Verbatim)
            } else if has_drive(rest) && span(rest, Style::Windows) == 2 {
                6
            } else {
                4 + span(rest, Style::Verbatim)
            }
        },
        Style::Windows => if path.len() >= 2 && is_separator(path[0], Style::Windows)
            && is_separator(path[1], Style::Windows) {
            let rest = path.skip(2);
            let server = span(rest, Style::Windows);
            if rest.len() >= 2 && rest[0] == '.' && is_separator(rest[1], Style::Windows) {
                4 + span(path.skip(4), Style::Windows)
            } else if server > 0 && share_len(rest, Style::Windows) > server {
                2 + share_len(rest, Style::Windows)
            } else {
                0
            }
        } else if has_drive(path) {
            2
        } else {
            0
        },
    }
}

/// Where the last separator of a path stands.
pub open spec fn last_separator(path: Seq<char>, style: Style) -> Option<int>
    decreases path.len(),
{
    if path.len() == 0 {
        None
    } else if is_separator(path.last(), style) {
        Some(path.len() - 1)
    } else {
        last_separator(path.drop_last(), style)
    }
}

/// Whether a component counts: not if it is empty, nor if it is a `.` in a path
/// that is not taken as it is written.
pub open spec fn counts(component: Seq<char>, style: Style) -> bool {
    component.len() > 0 && (component != seq!['.'] || style == Style::Verbatim)
}

/// The last component of a path that counts.
pub open spec fn last_component(path: Seq<char>, style: Style) -> Option<Seq<char>>
    decreases path.len(),
{
    match last_separator(path, style) {
        Some(i) => {
            let last = path.skip(i + 1);
            if counts(last, style) {
                Some(last)
            } else if 0 <= i < path.len() {
                last_component(path.take(i), style)
            } else {
                None
            }
        },
        None => if counts(path, style) {
            Some(path)
        } else {
            None
        },
    }
}

/// The file name a path ends in; none where it ends in `.` or `..`, or in what
/// it is on.
pub open spec fn file_name(path: Seq<char>, windows: bool) -> Option<Seq<char>> {
    match last_component(path.skip(prefix_len(path, windows)), style_of(path, windows)) {
        Some(name) => if name == seq!['.', '.'] || name == seq!['.'] {
            None
        } else {
            Some(name)
        },
        None => None,
    }
}

/// Where the extension's dot stands in a file name. A leading dot starts no
/// extension.
pub open spec fn extension_dot(name: Seq<char>) -> Option<int> {
    match name.index_of_last('.') {
        Some(i) => if i > 0 {
            Some(i)
        } else {
            None
        },
        None => None,
    }
}

/// The extension of a path's file name.
pub open spec fn extension(path: Seq<char>, windows: bool) -> Option<Seq<char>> {
    match file_name(path, windows) {
        Some(name) => match extension_dot(name) {
            Some(i) => Some(name.skip(i + 1)),
            None => None,
        },
        None => None,
    }
}

/// A path's file name without its extension.
pub open spec fn file_stem(path: Seq<char>, windows: bool) -> Option<Seq<char>> {
    match file_name(path, windows) {
        Some(name) => match extension_dot(name) {
            Some(i) => Some(name.take(i)),
            None => Some(name),
        },
        None => None,
    }
}

/// The optional run of characters behind an optional slice.
pub open spec fn opt_run(v: Option<&[char]>) -> Option<Seq<char>> {
    match v {
        Some(s) => Some(s@),
        None => None,
    }
}

/// What an optional string holds.
pub open spec fn opt_text(v: Option<String>) -> Option<Seq<char>> {
    match v {
        Some(s) => Some(s@),
        None => None,
    }
}

fn is_dot(s: &[char]) -> (r: bool)
    ensures
        r == (s@ == seq!['.']),
{
    let r = s.len() == 1 && s[0] == '.';
    proof {
        if r {
            assert(s@ =~= seq!['.']);
        }
    }
    r
}

fn is_dot_dot(s: &[char]) -> (r: bool)
    ensures
        r == (s@ == seq!['.', '.']),
{
    let r = s.len() == 2 && s[0] == '.' && s[1] == '.';
    proof {
        if r {
            assert(s@ =~= seq!['.', '.']);
        }
    }
    r
}

fn separates(c: char, style: Style) -> (r: bool)
    ensures
        r == is_separator(c, style),
{
    (c == '/' && style != Style::Verbatim) || (c == '\\' && style != Style::Unix)
}

fn style_for(path: &[char], windows: bool) -> (r: Style)
    ensures
        r == style_of(path@, windows),
{
    if !windows {
        Style::Unix
    } else if path.len() >= 4 && path[0] == '\\' && path[1] == '\\' && path[2] == '?' && path[3]
        == '\\' {
        proof {
            assert(seq!['\\', '\\', '?', '\\'] =~= path@.subrange(0, 4));
        }
        Style::Verbatim
    } else {
        proof {
            let mark = seq!['\\', '\\', '?', '\\'];
            if mark.is_prefix_of(path@) {
                assert(path@[0] == mark[0] && path@[1] == mark[1] && path@[2] == mark[2] && path@[3]
                    == mark[3]);
            }
        }
        Style::Windows
    }
}

fn span_of(path: &[char], style: Style) -> (r: usize)
    ensures
        r == span(path@, style),
        r <= path.len(),
{
    let mut n: usize = 0;
    assert(path@.skip(0) =~= path@);
    while n < path.len() && !separates(path[n], style)
        invariant
            n <= path.len(),
            span(path@, style) == n + span(path@.skip(n as int), style),
        decreases path.len() - n,
    {
        assert(path@.skip(n as int).drop_first() =~= path@.skip(n + 1));
        n = n + 1;
    }
    n
}

fn drive_at_start(path: &[char]) -> (r: bool)
    ensures
        r == has_drive(path@),
{
    path.len() >= 2 && (('a' <= path[0] && path[0] <= 'z') || ('A' <= path[0] && path[0] <= 'Z'))
        && path[1] == ':'
}

fn behind(path: &[char], n: usize) -> (r: &[char])
    requires
        n <= path.len(),
    ensures
        r@ == path@.skip(n as int),
{
    let r = slice_subrange(path, n, path.len());
    assert(r@ =~= path@.skip(n as int));
    r
}

fn share_len_of(path: &[char], style: Style) -> (r: usize)
    ensures
        r == share_len(path@, style),
        r <= path.len(),
{
    let server: usize = span_of(path, style);
    if server < path.len() {
        let share: usize = span_of(behind(path, server + 1), style);
        if share > 0 {
            return server + 1 + share;
        }
    }
    server
}

fn prefix_len_of(path: &[char], windows: bool) -> (r: usize)
    ensures
        r == prefix_len(path@, windows),
        r <= path.len(),
{
    match style_for(path, windows) {
        Style::Unix => 0,
        Style::Verbatim => {
            let rest = behind(path, 4);
            let shared = rest.len() >= 4 && rest[0] == 'U' && rest[1] == 'N' && rest[2] == 'C'
                && rest[3] == '\\';
            proof {
                let mark = seq!['U', 'N', 'C', '\\'];
                if shared {
                    assert(mark =~= rest@.subrange(0, 4));
                }
                if mark.is_prefix_of(rest@) {
                    assert(rest@[0] == mark[0] && rest@[1] == mark[1] && rest@[2] == mark[2]
                        && rest@[3] == mark[3]);
                }
            }
            if shared {
                8 + share_len_of(behind(rest, 4), Style::Verbatim)
            } else if drive_at_start(rest) && span_of(rest, Style::Windows) == 2 {
                6
            } else {
                4 + span_of(rest, Style::Verbatim)
            }
        },
        Style::Windows => {
            if path.len() >= 2 && separates(path[0], Style::Windows) && separates(
                path[1],
                Style::Windows,
            ) {
                let rest = behind(path, 2);
                let server: usize = span_of(rest, Style::Windows);
                let share: usize = share_len_of(rest, Style::Windows);
                if rest.len() >= 2 && rest[0] == '.' && separates(rest[1], Style::Windows) {
                    4 + span_of(behind(path, 4), Style::Windows)
                } else if server > 0 && share > server {
                    2 + share
                } else {
                    0
                }
            } else if drive_at_start(path) {
                2
            } else {
                0
            }
        },
    }
}

fn last_separator_of(path: &[char], style: Style) -> (r: Option<usize>)
    ensures
        match r {
            Some(i) => i < path.len() && last_separator(path@, style) == Some(i as int),
            None => last_separator(path@, style) is None,
        },
{
    let mut n: usize = path.len();
    assert(path@.take(n as int) =~= path@);
    while n > 0
        invariant
            n <= path.len(),
            last_separator(path@, style) == last_separator(path@.take(n as int), style),
        decreases n,
    {
        if separates(path[n - 1], style) {
            return Some(n - 1);
        }
        n = n - 1;
        assert(path@.take(n + 1).drop_last() =~= path@.take(n as int));
    }
    None
}

fn is_counted(component: &[char], style: Style) -> (r: bool)
    ensures
        r == counts(component@, style),
{
    component.len() > 0 && (!is_dot(component) || style == Style::Verbatim)
}

fn last_component_of(path: &[char], style: Style) -> (r: Option<&[char]>)
    ensures
        opt_run(r) == last_component(path@, style),
{
    let mut rest: &[char] = path;
    loop
        invariant
            last_component(path@, style) == last_component(rest@, style),
        decreases rest.len(),
    {
        match last_separator_of(rest, style) {
            Some(i) => {
                let last = behind(rest, i + 1);
                if is_counted(last, style) {
                    return Some(last);
                }
                let front = slice_subrange(rest, 0, i);
                assert(front@ =~= rest@.take(i as int));
                rest = front;
            },
            None => {
                if is_counted(rest, style) {
                    return Some(rest);
                }
                return None;
            },
        }
    }
}

/// The file name a path ends in.
pub fn file_name_of(path: &[char], windows: bool) -> (r: Option<&[char]>)
    ensures
        opt_run(r) == file_name(path@, windows),
{
    let rest = behind(path, prefix_len_of(path, windows));
    match last_component_of(rest, style_for(path, windows)) {
        Some(name) => if is_dot_dot(name) || is_dot(name) {
            None
        } else {
            Some(name)
        },
        None => None,
    }
}

/// The extension of a path's file name.
pub fn extension_of(path: &[char], windows: bool) -> (r: Option<&[char]>)
    ensures
        opt_run(r) == extension(path@, windows),
{
    match file_name_of(path, windows) {
        Some(name) => match text::rfind(name, '.') {
            Some(i) => if i > 0 {
                let r = slice_subrange(name, i + 1, name.len());
                assert(r@ =~= name@.skip(i + 1));
                Some(r)
            } else {
                None
            },
            None => None,
        },
        None => None,
    }
}

/// A path's file name without its extension.
pub fn file_stem_of(path: &[char], windows: bool) -> (r: Option<&[char]>)
    ensures
        opt_run(r) == file_stem(path@, windows),
{
    match file_name_of(path, windows) {
        Some(name) => match text::rfind(name, '.') {
            Some(i) => if i > 0 {
                let r = slice_subrange(name, 0, i);
                assert(r@ =~= name@.take(i as int));
                Some(r)
            } else {
                Some(name)
            },
            None => Some(name),
        },
        None => None,
    }
}

// --------------------------------------------------------------- sanitisation
/// Characters Windows forbids in a filename, plus the path separators and the
/// control characters.
pub open spec fn is_forbidden(c: char) -> bool {
    ||| c == '<'
    ||| c == '>'
    ||| c == ':'
    ||| c == '"'
    ||| c == '/'
    ||| c == '\\'
    ||| c == '|'
    ||| c == '?'
    ||| c == '*'
    ||| (c as u32) < 0x20
}

/// One character made safe.
pub open spec fn safe_char(c: char) -> char {
    if is_forbidden(c) {
        '_'
    } else {
        c
    }
}

/// NTFS reserved device names, in upper case. A file called `CON` or `NUL`
/// cannot be created, with or without an extension.
pub open spec fn is_reserved(stem: Seq<char>) -> bool {
    ||| stem == seq!['C', 'O', 'N']
    ||| stem == seq!['P', 'R', 'N']
    ||| stem == seq!['A', 'U', 'X']
    ||| stem == seq!['N', 'U', 'L']
    ||| stem.len() == 4 && (stem.take(3) == seq!['C', 'O', 'M'] || stem.take(3) == seq![
        'L',
        'P',
        'T',
    ]) && '1' <= stem[3] <= '9'
}

/// The last component of an untrusted name: what follows the last `/` or `\`,
/// without surrounding white space.
pub open spec fn leaf(input: Seq<char>) -> Seq<char> {
    text::trimmed(text::after_last(text::after_last(input, '/'), '\\'), Fringe::Space)
}

/// The leaf with every forbidden character replaced, and without the trailing
/// dots and spaces that Windows strips.
pub open spec fn cleaned(input: Seq<char>) -> Seq<char> {
    text::trimmed_end(leaf(input).map_values(|c: char| safe_char(c)), Fringe::Tail)
}

/// A name whose stem is a device gets an underscore in front.
pub open spec fn escaped(name: Seq<char>) -> Seq<char> {
    if is_device(name) {
        seq!['_'] + name
    } else {
        name
    }
}

/// The extension of a name with its dot; nothing where there is none. A name is
/// free of separators, so it has the same one everywhere.
pub open spec fn dotted_extension(name: Seq<char>) -> Seq<char> {
    match extension(name, false) {
        Some(e) => seq!['.'] + e,
        None => Seq::empty(),
    }
}

/// Longest name kept as it is, in bytes. Leaves room for a dedupe suffix within
/// the per-component limit.
pub const NAME_LIMIT: usize = 200;

/// A name over `limit` bytes keeps its extension and as many whole characters as
/// fit in front of it, but no dots and spaces that the cut leaves at its end.
pub open spec fn cut(name: Seq<char>, limit: nat) -> Seq<char> {
    if text::byte_len(name) > limit {
        let ext = dotted_extension(name);
        let room = if text::byte_len(ext) > limit {
            0
        } else {
            (limit - text::byte_len(ext)) as nat
        };
        text::trimmed_end(text::within_bytes(name, room) + ext, Fringe::Tail)
    } else {
        name
    }
}

/// Whether the stem of a name is a device.
pub open spec fn is_device(name: Seq<char>) -> bool {
    is_reserved(text::uppered(text::before_first(name, '.')))
}

/// A name cut to the limit. One that the cut would turn into a device gets an
/// underscore in front, and is cut for that too.
pub open spec fn shortened(name: Seq<char>) -> Seq<char> {
    if is_device(cut(name, NAME_LIMIT as nat)) {
        seq!['_'] + cut(name, (NAME_LIMIT - 1) as nat)
    } else {
        cut(name, NAME_LIMIT as nat)
    }
}

/// The name `sanitize_filename` gives.
pub open spec fn sanitized(input: Seq<char>) -> Seq<char> {
    let name = shortened(escaped(cleaned(input)));
    if name.len() == 0 {
        "download"@
    } else {
        name
    }
}

fn safe_char_of(c: char) -> (r: char)
    ensures
        r == safe_char(c),
{
    if c == '<' || c == '>' || c == ':' || c == '"' || c == '/' || c == '\\' || c == '|' || c
        == '?' || c == '*' || (c as u32) < 0x20 {
        '_'
    } else {
        c
    }
}

fn is_reserved_stem(stem: &[char]) -> (r: bool)
    ensures
        r == is_reserved(stem@),
{
    if stem.len() == 3 {
        let r = (stem[0] == 'C' && stem[1] == 'O' && stem[2] == 'N') || (stem[0] == 'P' && stem[1]
            == 'R' && stem[2] == 'N') || (stem[0] == 'A' && stem[1] == 'U' && stem[2] == 'X') || (
        stem[0] == 'N' && stem[1] == 'U' && stem[2] == 'L');
        proof {
            if stem@[0] == 'C' && stem@[1] == 'O' && stem@[2] == 'N' {
                assert(stem@ =~= seq!['C', 'O', 'N']);
            }
            if stem@[0] == 'P' && stem@[1] == 'R' && stem@[2] == 'N' {
                assert(stem@ =~= seq!['P', 'R', 'N']);
            }
            if stem@[0] == 'A' && stem@[1] == 'U' && stem@[2] == 'X' {
                assert(stem@ =~= seq!['A', 'U', 'X']);
            }
            if stem@[0] == 'N' && stem@[1] == 'U' && stem@[2] == 'L' {
                assert(stem@ =~= seq!['N', 'U', 'L']);
            }
        }
        r
    } else if stem.len() == 4 {
        let port = (stem[0] == 'C' && stem[1] == 'O' && stem[2] == 'M') || (stem[0] == 'L'
            && stem[1] == 'P' && stem[2] == 'T');
        proof {
            let front = stem@.take(3);
            if stem@[0] == 'C' && stem@[1] == 'O' && stem@[2] == 'M' {
                assert(front =~= seq!['C', 'O', 'M']);
            }
            if stem@[0] == 'L' && stem@[1] == 'P' && stem@[2] == 'T' {
                assert(front =~= seq!['L', 'P', 'T']);
            }
            assert(front[0] == stem@[0] && front[1] == stem@[1] && front[2] == stem@[2]);
        }
        port && '1' <= stem[3] && stem[3] <= '9'
    } else {
        false
    }
}

fn cleaned_of(input: &[char]) -> (r: Vec<char>)
    ensures
        r@ == cleaned(input@),
{
    let last = text::trim(
        text::tail_after(text::tail_after(input, '/'), '\\'),
        Fringe::Space,
    );
    let mut out: Vec<char> = Vec::new();
    let mut i: usize = 0;
    while i < last.len()
        invariant
            i <= last.len(),
            out.len() == i,
            forall|k: int| 0 <= k < i ==> #[trigger] out[k] == safe_char(last@[k]),
        decreases last.len() - i,
    {
        out.push(safe_char_of(last[i]));
        i = i + 1;
    }
    assert(out@ =~= leaf(input@).map_values(|c: char| safe_char(c)));
    vstd::slice::slice_to_vec(text::trim_end(out.as_slice(), Fringe::Tail))
}

fn cut_of(name: &[char], limit: usize) -> (r: Vec<char>)
    requires
        limit <= NAME_LIMIT,
    ensures
        r@ == cut(name@, limit as nat),
{
    if !text::exceeds_bytes(name, limit) {
        return vstd::slice::slice_to_vec(name);
    }
    let mut ext: Vec<char> = Vec::new();
    if let Some(e) = extension_of(name, false) {
        ext.push('.');
        ext.extend_from_slice(e);
        assert(ext@ =~= dotted_extension(name@));
    }
    assert(ext@ =~= dotted_extension(name@));
    let room: usize = room_before(ext.as_slice(), limit);
    let mut out: Vec<char> = vstd::slice::slice_to_vec(text::head_within(name, room));
    out.append(&mut ext);
    vstd::slice::slice_to_vec(text::trim_end(out.as_slice(), Fringe::Tail))
}

fn is_device_name(name: &[char]) -> (r: bool)
    ensures
        r == is_device(name@),
{
    is_reserved_stem(text::to_upper(text::head_before(name, '.')).as_slice())
}

fn underscored(name: Vec<char>) -> (r: Vec<char>)
    ensures
        r@ == seq!['_'] + name@,
{
    let mut rest = name;
    let mut r: Vec<char> = Vec::new();
    r.push('_');
    r.append(&mut rest);
    assert(r@ =~= seq!['_'] + name@);
    r
}

/// Bytes left under a limit once an extension has taken its share.
fn room_before(ext: &[char], limit: usize) -> (r: usize)
    requires
        limit <= NAME_LIMIT,
    ensures
        r <= limit,
        r == (if text::byte_len(ext@) > limit {
            0
        } else {
            limit - text::byte_len(ext@)
        }),
{
    let mut room: usize = limit;
    let mut i: usize = 0;
    assert(ext@.take(0) =~= Seq::<char>::empty());
    while i < ext.len()
        invariant
            i <= ext.len(),
            room <= limit,
            limit - room == text::byte_len(ext@.take(i as int)),
        decreases ext.len() - i,
    {
        let w: usize = text::width_of(ext[i]);
        proof {
            assert(ext@.take(i + 1).drop_last() =~= ext@.take(i as int));
        }
        if w > room {
            proof {
                text::lemma_byte_len_concat(ext@.take(i + 1), ext@.skip(i + 1));
                assert(ext@.take(i + 1) + ext@.skip(i + 1) =~= ext@);
            }
            return 0;
        }
        room = room - w;
        i = i + 1;
    }
    assert(ext@.take(i as int) =~= ext@);
    room
}

/// Make a server-supplied string safe to use as a single filename component.
///
/// Always returns a non-empty name; falls back to `download` when nothing
/// usable survives.
pub fn sanitize_filename(input: &str) -> (r: String)
    ensures
        r@ == sanitized(input@),
{
    let chars = text::chars_of(input);
    let mut name = cleaned_of(chars.as_slice());
    if is_device_name(name.as_slice()) {
        name = underscored(name);
    }
    let mut short = cut_of(name.as_slice(), NAME_LIMIT);
    if is_device_name(short.as_slice()) {
        short = underscored(cut_of(name.as_slice(), NAME_LIMIT - 1));
    }
    if short.len() == 0 {
        "download".to_owned()
    } else {
        text::text_of(short.as_slice())
    }
}

proof fn lemma_cleaned(input: Seq<char>)
    ensures
        forall|i: int| 0 <= i < cleaned(input).len() ==> !is_forbidden(#[trigger] cleaned(input)[i]),
        cleaned(input).len() > 0 ==> cleaned(input).last() != '.' && cleaned(input).last() != ' ',
{
    let mapped = leaf(input).map_values(|c: char| safe_char(c));
    text::lemma_trimmed(mapped, Fringe::Tail);
    assert forall|i: int| 0 <= i < cleaned(input).len() implies !is_forbidden(
        #[trigger] cleaned(input)[i],
    ) by {
        assert(cleaned(input)[i] == mapped[i]);
        assert(mapped[i] == safe_char(leaf(input)[i]));
    }
}

/// A name without separators is its own last component.
proof fn lemma_no_separator(name: Seq<char>, style: Style)
    requires
        forall|i: int| 0 <= i < name.len() ==> !is_separator(#[trigger] name[i], style),
    ensures
        last_separator(name, style) is None,
    decreases name.len(),
{
    if name.len() > 0 {
        assert(!is_separator(name[name.len() - 1], style));
        lemma_no_separator(name.drop_last(), style);
    }
}

/// A name free of forbidden characters is on no drive, share or device, and has no
/// separators.
proof fn lemma_safe_name(name: Seq<char>, windows: bool)
    requires
        forall|i: int| 0 <= i < name.len() ==> !is_forbidden(#[trigger] name[i]),
    ensures
        prefix_len(name, windows) == 0,
        name.skip(0) == name,
        style_of(name, windows) != Style::Verbatim,
        last_separator(name, style_of(name, windows)) is None,
{
    let style = style_of(name, windows);
    assert forall|i: int| 0 <= i < name.len() implies !is_separator(#[trigger] name[i], style) by {
        assert(!is_forbidden(name[i]));
    }
    lemma_no_separator(name, style);
    assert(name.skip(0) =~= name);
    if seq!['\\', '\\', '?', '\\'].is_prefix_of(name) {
        assert(name[0] == seq!['\\', '\\', '?', '\\'][0]);
        assert(is_forbidden(name[0]));
    }
    if name.len() >= 2 {
        assert(!is_forbidden(name[0]) && !is_forbidden(name[1]));
    }
}

/// A name free of forbidden characters has no folder and no drive, so its stem
/// and its extension are the same on every platform.
pub proof fn law_a_safe_name_reads_the_same_everywhere(name: Seq<char>)
    requires
        forall|i: int| 0 <= i < name.len() ==> !is_forbidden(#[trigger] name[i]),
    ensures
        file_name(name, true) == file_name(name, false),
        extension(name, true) == extension(name, false),
        file_stem(name, true) == file_stem(name, false),
{
    lemma_safe_name(name, true);
    lemma_safe_name(name, false);
}

/// The extension's characters are characters of the name.
proof fn lemma_extension_from_name(name: Seq<char>)
    requires
        forall|i: int| 0 <= i < name.len() ==> !is_forbidden(#[trigger] name[i]),
    ensures
        forall|i: int|
            0 <= i < dotted_extension(name).len() ==> !is_forbidden(
                #[trigger] dotted_extension(name)[i],
            ),
        dotted_extension(name).len() > 0 ==> dotted_extension(name)[0] == '.',
{
    lemma_safe_name(name, false);
    name.index_of_last_ensures('.');
}

/// Cutting a safe name leaves a safe one, and no tail that Windows strips.
proof fn lemma_cut(name: Seq<char>, limit: nat)
    requires
        forall|i: int| 0 <= i < name.len() ==> !is_forbidden(#[trigger] name[i]),
        name.len() > 0 ==> !Fringe::Tail.has(name.last()),
    ensures
        forall|i: int|
            0 <= i < cut(name, limit).len() ==> !is_forbidden(#[trigger] cut(name, limit)[i]),
        cut(name, limit).len() > 0 ==> !Fringe::Tail.has(cut(name, limit).last()),
        text::byte_len(dotted_extension(name)) <= limit ==> text::byte_len(cut(name, limit))
            <= limit,
        text::byte_len(name) > limit && text::byte_len(dotted_extension(name)) >= limit
            ==> !is_device(cut(name, limit)),
{
    if text::byte_len(name) > limit {
        let ext = dotted_extension(name);
        lemma_extension_from_name(name);
        let room = if text::byte_len(ext) > limit {
            0
        } else {
            (limit - text::byte_len(ext)) as nat
        };
        let head = text::within_bytes(name, room);
        text::lemma_within_bytes(name, room);
        text::lemma_byte_len_concat(head, ext);
        let whole = head + ext;
        let r = text::trimmed_end(whole, Fringe::Tail);
        text::lemma_trimmed(whole, Fringe::Tail);
        text::lemma_byte_len_concat(r, whole.skip(r.len() as int));
        assert(r + whole.skip(r.len() as int) =~= whole);
        assert forall|i: int| 0 <= i < r.len() implies !is_forbidden(#[trigger] r[i]) by {
            assert(r[i] == whole[i]);
            if i < head.len() {
                assert(whole[i] == name[i]);
            } else {
                assert(whole[i] == ext[i - head.len()]);
            }
        }
        if text::byte_len(ext) >= limit {
            // Nothing fits in front of the extension, so the stem is empty.
            assert(room == 0);
            if head.len() > 0 {
                text::lemma_byte_len_concat(head.drop_last(), seq![head.last()]);
            }
            assert(head.len() == 0);
            r.index_of_first_ensures('.');
            if r.len() > 0 {
                assert(r[0] == ext[0]);
            }
            assert(text::before_first(r, '.').len() == 0);
            assert(text::uppered(text::before_first(r, '.')).len() == 0);
        }
    }
}

/// An underscore in front keeps a name from being a device.
proof fn lemma_underscored(name: Seq<char>)
    ensures
        !is_device(seq!['_'] + name),
{
    let full = seq!['_'] + name;
    full.index_of_first_ensures('.');
    let stem = text::before_first(full, '.');
    assert(stem.len() > 0 && stem[0] == '_');
    assert(text::uppered(stem)[0] == '_');
    if stem.len() == 4 {
        assert(text::uppered(stem).take(3)[0] == '_');
    }
}

/// What is cut for a sanitised name is safe and no device.
proof fn lemma_escaped(input: Seq<char>)
    ensures
        ({
            let full = escaped(cleaned(input));
            &&& forall|i: int| 0 <= i < full.len() ==> !is_forbidden(#[trigger] full[i])
            &&& full.len() > 0 ==> !Fringe::Tail.has(full.last())
            &&& !is_device(full)
        }),
{
    lemma_cleaned(input);
    let name = cleaned(input);
    let full = escaped(name);
    if is_device(name) {
        lemma_underscored(name);
        assert forall|i: int| 0 <= i < full.len() implies !is_forbidden(#[trigger] full[i]) by {
            if i > 0 {
                assert(full[i] == name[i - 1]);
            }
        }
        if name.len() > 0 {
            assert(full.last() == name.last());
        }
    }
}

/// Every sanitised name is non-empty and free of separators, forbidden and
/// control characters, and never `.` or `..`.
pub proof fn law_sanitized_is_one_safe_component(input: Seq<char>)
    ensures
        sanitized(input).len() > 0,
        forall|i: int|
            0 <= i < sanitized(input).len() ==> !is_forbidden(#[trigger] sanitized(input)[i]),
        sanitized(input) != seq!['.'],
        sanitized(input) != seq!['.', '.'],
{
    reveal_strlit("download");
    lemma_escaped(input);
    let full = escaped(cleaned(input));
    lemma_cut(full, NAME_LIMIT as nat);
    lemma_cut(full, (NAME_LIMIT - 1) as nat);
    law_sanitized_is_valid_on_windows(input);
    assert(seq!['.'].last() == '.' && seq!['.', '.'].last() == '.');
    let short = cut(full, (NAME_LIMIT - 1) as nat);
    let under = seq!['_'] + short;
    assert forall|i: int| 0 <= i < under.len() implies !is_forbidden(#[trigger] under[i]) by {
        if i > 0 {
            assert(under[i] == short[i - 1]);
        }
    }
}

/// A sanitised name, cut or not, is no device name and ends in neither a dot nor
/// a space.
pub proof fn law_sanitized_is_valid_on_windows(input: Seq<char>)
    ensures
        !is_device(sanitized(input)),
        sanitized(input).last() != '.',
        sanitized(input).last() != ' ',
{
    reveal_strlit("download");
    lemma_escaped(input);
    let full = escaped(cleaned(input));
    lemma_cut(full, NAME_LIMIT as nat);
    lemma_cut(full, (NAME_LIMIT - 1) as nat);
    let short = cut(full, (NAME_LIMIT - 1) as nat);
    lemma_underscored(short);
    if short.len() > 0 {
        assert((seq!['_'] + short).last() == short.last());
    }
    let name = "download"@;
    name.index_of_first_ensures('.');
    assert(!name.contains('.'));
    assert(text::uppered(text::before_first(name, '.')).len() == 8);
}

/// A sanitised name stays within the limit unless its extension alone is over
/// it.
pub proof fn law_sanitized_fits(input: Seq<char>)
    requires
        text::byte_len(dotted_extension(escaped(cleaned(input)))) <= NAME_LIMIT,
    ensures
        text::byte_len(sanitized(input)) <= NAME_LIMIT,
{
    reveal_strlit("download");
    lemma_escaped(input);
    let full = escaped(cleaned(input));
    lemma_cut(full, NAME_LIMIT as nat);
    lemma_cut(full, (NAME_LIMIT - 1) as nat);
    let short = cut(full, (NAME_LIMIT - 1) as nat);
    text::lemma_byte_len_concat(seq!['_'], short);
    assert(text::byte_len(seq!['_']) == 1) by {
        reveal_with_fuel(text::byte_len, 2);
        assert(seq!['_'].last() == '_');
    }
    assert(text::byte_len("download"@) == 8) by {
        reveal_with_fuel(text::byte_len, 9);
    }
}

// ----------------------------------------------------------- percent-decoding
/// The value of a hexadecimal digit.
pub open spec fn hex_value(b: u8) -> Option<u8> {
    if 0x30 <= b <= 0x39 {
        Some((b - 0x30) as u8)
    } else if 0x41 <= b <= 0x46 {
        Some((b - 0x41 + 10) as u8)
    } else if 0x61 <= b <= 0x66 {
        Some((b - 0x61 + 10) as u8)
    } else {
        None
    }
}

/// The byte two characters spell in hexadecimal. A plus sign in front of a
/// single digit counts as its sign.
pub open spec fn hex_pair(high: u8, low: u8) -> Option<u8> {
    match hex_value(low) {
        Some(l) => if high == 0x2b {
            Some(l)
        } else {
            match hex_value(high) {
                Some(h) => Some((16 * h + l) as u8),
                None => None,
            }
        },
        None => None,
    }
}

/// The bytes behind a percent-encoding; none where a `%` with two characters
/// after it is not followed by a byte in hexadecimal. A `%` closer to the end
/// stands for itself.
pub open spec fn percent_bytes(b: Seq<u8>) -> Option<Seq<u8>>
    decreases b.len(),
{
    if b.len() == 0 {
        Some(Seq::empty())
    } else if b[0] == 0x25 && b.len() > 2 {
        match (hex_pair(b[1], b[2]), percent_bytes(b.skip(3))) {
            (Some(v), Some(rest)) => Some(seq![v] + rest),
            _ => None,
        }
    } else {
        match percent_bytes(b.skip(1)) {
            Some(rest) => Some(seq![b[0]] + rest),
            None => None,
        }
    }
}

/// The text behind a percent-encoding, if it is valid UTF-8 once decoded.
pub open spec fn percent_decoded(s: Seq<char>) -> Option<Seq<char>> {
    match percent_bytes(encode_utf8(s)) {
        Some(b) => text::utf8_text(b),
        None => None,
    }
}

fn hex_value_of(b: u8) -> (r: Option<u8>)
    ensures
        r == hex_value(b),
        r matches Some(v) ==> v < 16,
{
    if 0x30 <= b && b <= 0x39 {
        Some(b - 0x30)
    } else if 0x41 <= b && b <= 0x46 {
        Some(b - 0x41 + 10)
    } else if 0x61 <= b && b <= 0x66 {
        Some(b - 0x61 + 10)
    } else {
        None
    }
}

/// The byte two characters spell in hexadecimal.
pub fn hex_pair_of(high: u8, low: u8) -> (r: Option<u8>)
    ensures
        r == hex_pair(high, low),
{
    match hex_value_of(low) {
        Some(l) => if high == 0x2b {
            Some(l)
        } else {
            match hex_value_of(high) {
                Some(h) => Some(16 * h + l),
                None => None,
            }
        },
        None => None,
    }
}

/// Minimal percent-decoder for `filename*` values. Returns `None` if the input
/// isn't valid UTF-8 once decoded.
pub fn percent_decode(s: &str) -> (r: Option<String>)
    ensures
        opt_text(r) == percent_decoded(s@),
{
    let bytes: &[u8] = s.as_bytes();
    let mut out: Vec<u8> = Vec::new();
    let mut i: usize = 0;
    assert(bytes@.skip(0) =~= bytes@);
    while i < bytes.len()
        invariant
            i <= bytes.len(),
            bytes@ == encode_utf8(s@),
            percent_bytes(bytes@) == (match percent_bytes(bytes@.skip(i as int)) {
                Some(rest) => Some(out@ + rest),
                None => None,
            }),
        decreases bytes.len() - i,
    {
        let ghost before = out@;
        let ghost here = bytes@.skip(i as int);
        if bytes[i] == 0x25 && bytes.len() - i > 2 {
            match hex_pair_of(bytes[i + 1], bytes[i + 2]) {
                Some(b) => {
                    out.push(b);
                    i = i + 3;
                    proof {
                        assert(here.skip(3) =~= bytes@.skip(i as int));
                        if let Some(rest) = percent_bytes(bytes@.skip(i as int)) {
                            assert(before + (seq![b] + rest) =~= out@ + rest);
                        }
                    }
                },
                None => {
                    assert(percent_bytes(here) is None);
                    return None;
                },
            }
        } else {
            out.push(bytes[i]);
            i = i + 1;
            proof {
                assert(here.skip(1) =~= bytes@.skip(i as int));
                if let Some(rest) = percent_bytes(bytes@.skip(i as int)) {
                    assert(before + (seq![here[0]] + rest) =~= out@ + rest);
                }
            }
        }
    }
    assert(bytes@.skip(i as int) =~= Seq::<u8>::empty());
    assert(out@ + Seq::<u8>::empty() =~= out@);
    text::text_of_utf8(out)
}

// -------------------------------------------------------- Content-Disposition
/// Key and value of one parameter, the key in lower case, the value without its
/// quotes.
pub open spec fn parameter(part: Seq<char>) -> Option<(Seq<char>, Seq<char>)> {
    match text::split_pair(text::trimmed(part, Fringe::Space), '=') {
        Some((key, value)) => Some(
            (
                text::lowered(text::trimmed(key, Fringe::Space)),
                text::trimmed(text::trimmed(value, Fringe::Space), Fringe::Quote),
            ),
        ),
        None => None,
    }
}

/// The name a value sanitises to, unless nothing usable is left of it.
pub open spec fn usable(value: Seq<char>) -> Option<Seq<char>> {
    if sanitized(value) == "download"@ {
        None
    } else {
        Some(sanitized(value))
    }
}

/// The name an extended value carries: what follows its charset and language,
/// percent-decoded.
pub open spec fn extended_name(value: Seq<char>) -> Option<Seq<char>> {
    match percent_decoded(text::after_last(value, '\'')) {
        Some(decoded) => usable(decoded),
        None => None,
    }
}

/// The first usable `filename*`.
pub open spec fn first_extended(parts: Seq<Seq<char>>) -> Option<Seq<char>>
    decreases parts.len(),
{
    if parts.len() == 0 {
        None
    } else {
        match parameter(parts[0]) {
            Some((key, value)) => if key == "filename*"@ && extended_name(value) is Some {
                extended_name(value)
            } else {
                first_extended(parts.skip(1))
            },
            None => first_extended(parts.skip(1)),
        }
    }
}

/// The value of the first `filename`.
pub open spec fn first_plain(parts: Seq<Seq<char>>) -> Option<Seq<char>>
    decreases parts.len(),
{
    if parts.len() == 0 {
        None
    } else {
        match parameter(parts[0]) {
            Some((key, value)) => if key == "filename"@ {
                Some(value)
            } else {
                first_plain(parts.skip(1))
            },
            None => first_plain(parts.skip(1)),
        }
    }
}

/// The filename a `Content-Disposition` header gives: the first usable
/// `filename*`, otherwise the first `filename` if that is usable.
pub open spec fn disposition_name(header: Seq<char>) -> Option<Seq<char>> {
    let parts = text::pieces(header, ';');
    match first_extended(parts) {
        Some(name) => Some(name),
        None => match first_plain(parts) {
            Some(value) => usable(value),
            None => None,
        },
    }
}

fn usable_of(value: &str) -> (r: Option<String>)
    ensures
        opt_text(r) == usable(value@),
{
    let name = sanitize_filename(value);
    if text::same_text(name.as_str(), "download") {
        None
    } else {
        Some(name)
    }
}

fn extended_name_of(value: &[char]) -> (r: Option<String>)
    ensures
        opt_text(r) == extended_name(value@),
{
    let encoded = text::text_of(text::tail_after(value, '\''));
    match percent_decode(encoded.as_str()) {
        Some(decoded) => usable_of(decoded.as_str()),
        None => None,
    }
}

/// Parse a filename out of a `Content-Disposition` header.
///
/// Handles the plain `filename="x"` form and the extended
/// `filename*=UTF-8''x` form, preferring the latter because it is the one that
/// carries non-ASCII names correctly.
pub fn filename_from_content_disposition(header: &str) -> (r: Option<String>)
    ensures
        opt_text(r) == disposition_name(header@),
{
    let chars = text::chars_of(header);
    let parts: Vec<Vec<char>> = text::split(chars.as_slice(), ';');
    let mut plain: Option<String> = None;
    let ghost all = text::pieces(header@, ';');
    let mut i: usize = 0;
    assert(all.skip(0) =~= all);
    proof {
        reveal_strlit("filename");
        reveal_strlit("filename*");
    }
    while i < parts.len()
        invariant
            i <= parts.len(),
            "filename"@.len() != "filename*"@.len(),
            all == text::pieces(header@, ';'),
            text::runs(parts@) == all,
            first_extended(all) == first_extended(all.skip(i as int)),
            first_plain(all) == (if plain is Some {
                opt_text(plain)
            } else {
                first_plain(all.skip(i as int))
            }),
        decreases parts.len() - i,
    {
        proof {
            assert(all[i as int] == parts@[i as int]@);
            assert(all.skip(i as int)[0] == all[i as int]);
            assert(all.skip(i as int).skip(1) =~= all.skip(i + 1));
        }
        let part = text::trim(parts[i].as_slice(), Fringe::Space);
        if let Some((k, v)) = text::split_once(part, '=') {
            let key = text::to_lower(text::trim(k, Fringe::Space));
            let value = text::trim(text::trim(v, Fringe::Space), Fringe::Quote);
            if text::spells(key.as_slice(), "filename*") {
                if let Some(name) = extended_name_of(value) {
                    return Some(name);
                }
            } else if plain.is_none() && text::spells(key.as_slice(), "filename") {
                plain = Some(text::text_of(value));
            }
        }
        i = i + 1;
    }
    match plain {
        Some(p) => usable_of(p.as_str()),
        None => None,
    }
}

// ------------------------------------------------------------------------ URL
/// The filename of a URL: its last path segment, percent-decoded where that is
/// possible; its host where the path gives no usable name.
pub open spec fn url_name(link: LinkView) -> Seq<char> {
    let candidate = match link.last_segment() {
        Some(s) => match percent_decoded(s) {
            Some(decoded) => decoded,
            None => s,
        },
        None => Seq::empty(),
    };
    if sanitized(candidate) == "download"@ && link.host is Some {
        sanitized(link.host->0)
    } else {
        sanitized(candidate)
    }
}

/// Derive a filename from the URL path, ignoring the query string.
pub fn filename_from_url(link: &Link) -> (r: String)
    ensures
        r@ == url_name(link@),
{
    let candidate: String = match link.last_segment() {
        Some(s) => match percent_decode(s) {
            Some(decoded) => decoded,
            None => s.to_owned(),
        },
        None => String::new(),
    };
    let name = sanitize_filename(candidate.as_str());
    if text::same_text(name.as_str(), "download") {
        // Better than a bare "download": give the user a hint of the origin.
        if let Some(host) = &link.host {
            return sanitize_filename(host.as_str());
        }
    }
    name
}

// ----------------------------------------------------------------- candidates
/// The `n`th name to try for a file: the name itself, then with ` (2)`, ` (3)`
/// and so on before the extension.
pub open spec fn candidate_name(filename: Seq<char>, n: nat, windows: bool) -> Seq<char> {
    if n <= 1 {
        filename
    } else {
        let stem = match file_stem(filename, windows) {
            Some(s) => s,
            None => filename,
        };
        let numbered = stem + seq![' ', '('] + text::decimal(n) + seq![')'];
        match extension(filename, windows) {
            Some(e) => numbered + seq!['.'] + e,
            None => numbered,
        }
    }
}

/// First number that is not tried any more.
pub const MAX_CANDIDATES: u32 = 10_000;

/// What a file is called when every candidate is taken.
pub open spec fn fallback_name(filename: Seq<char>, pid: u32, windows: bool) -> Seq<char> {
    let stem = match file_stem(filename, windows) {
        Some(s) => s,
        None => filename,
    };
    stem + seq!['-'] + text::decimal(pid as nat)
}

fn stem_or_name(name: &[char], windows: bool) -> (r: &[char])
    ensures
        r@ == (match file_stem(name@, windows) {
            Some(s) => s,
            None => name@,
        }),
{
    match file_stem_of(name, windows) {
        Some(s) => s,
        None => name,
    }
}

fn candidate_name_of(filename: &[char], n: u32, windows: bool) -> (r: String)
    ensures
        r@ == candidate_name(filename@, n as nat, windows),
{
    if n <= 1 {
        return text::text_of(filename);
    }
    let mut out = text::text_of(stem_or_name(filename, windows));
    out.push(' ');
    out.push('(');
    out.append(text::decimal_of(n as u64).as_str());
    out.push(')');
    let ghost stem = match file_stem(filename@, windows) {
        Some(s) => s,
        None => filename@,
    };
    assert(out@ =~= stem + seq![' ', '('] + text::decimal(n as nat) + seq![')']);
    if let Some(e) = extension_of(filename, windows) {
        let ghost numbered = out@;
        out.push('.');
        out.append(text::text_of(e).as_str());
        assert(out@ =~= numbered + seq!['.'] + e@);
    }
    out
}

/// Whether `is_taken` reported this path as taken.
pub open spec fn reported<F: Fn(&FilePath) -> bool>(is_taken: F, path: PathView, taken: bool) -> bool {
    exists|p: FilePath| #[trigger] p@ == path && call_ensures(is_taken, (&p,), taken)
}

/// Resolve a collision by appending ` (2)`, ` (3)`, … before the extension, the
/// convention browsers and file managers use. The first candidate that `is_taken`
/// reports free wins; `pid` tells the fallback apart.
pub fn unique_path<F: Fn(&FilePath) -> bool>(
    dir: &str,
    filename: &str,
    is_taken: F,
    pid: u32,
    windows: bool,
) -> (r: FilePath)
    requires
        forall|p: &FilePath| call_requires(is_taken, (p,)),
    ensures
        r.dir@ == dir@,
        ({
            ||| exists|n: nat|
                {
                    &&& 1 <= n < MAX_CANDIDATES
                    &&& r@.name == #[trigger] candidate_name(filename@, n, windows)
                    &&& reported(is_taken, r@, false)
                    &&& forall|k: nat|
                        1 <= k < n ==> reported(
                            is_taken,
                            PathView { dir: dir@, name: #[trigger] candidate_name(filename@, k, windows) },
                            true,
                        )
                }
            ||| {
                &&& r@.name == fallback_name(filename@, pid, windows)
                &&& forall|k: nat|
                    1 <= k < MAX_CANDIDATES ==> reported(
                        is_taken,
                        PathView { dir: dir@, name: #[trigger] candidate_name(filename@, k, windows) },
                        true,
                    )
            }
        }),
{
    let chars = text::chars_of(filename);
    let mut n: u32 = 1;
    while n < MAX_CANDIDATES
        invariant
            1 <= n <= MAX_CANDIDATES,
            chars@ == filename@,
            forall|p: &FilePath| call_requires(is_taken, (p,)),
            forall|k: nat|
                1 <= k < n ==> reported(
                    is_taken,
                    PathView { dir: dir@, name: #[trigger] candidate_name(filename@, k, windows) },
                    true,
                ),
        decreases MAX_CANDIDATES - n,
    {
        let name = candidate_name_of(chars.as_slice(), n, windows);
        let candidate = FilePath { dir: dir.to_owned(), name };
        let taken: bool = is_taken(&candidate);
        assert(candidate@ == (PathView {
            dir: dir@,
            name: candidate_name(filename@, n as nat, windows),
        }));
        assert(reported(is_taken, candidate@, taken));
        if !taken {
            return candidate;
        }
        n = n + 1;
    }
    let mut out = text::text_of(stem_or_name(chars.as_slice(), windows));
    out.push('-');
    out.append(text::decimal_of(pid as u64).as_str());
    assert(out@ =~= fallback_name(filename@, pid, windows));
    FilePath { dir: dir.to_owned(), name: out }
}

// ------------------------------------------------------------- derived paths
/// Longest path, in bytes, that needs no extended-length prefix.
pub const LONG_PATH: usize = 240;

/// A path in the Windows extended-length namespace where it needs to be.
pub open spec fn extended_path(path: Seq<char>, windows: bool, absolute: bool) -> Seq<char> {
    let prefix = seq!['\\', '\\', '?', '\\'];
    if windows && text::byte_len(path) > LONG_PATH && absolute && !prefix.is_prefix_of(path) {
        prefix + path
    } else {
        path
    }
}

/// Opt a path into the Windows extended-length namespace so it can exceed the
/// legacy path length limit. No-op on other platforms, and a no-op for short or
/// non-absolute paths.
pub fn to_extended_path(path: &str, windows: bool, absolute: bool) -> (r: String)
    ensures
        r@ == extended_path(path@, windows, absolute),
{
    let chars = text::chars_of(path);
    let prefix: Vec<char> = vec!['\\', '\\', '?', '\\'];
    assert(prefix@ =~= seq!['\\', '\\', '?', '\\']);
    if windows && text::exceeds_bytes(chars.as_slice(), LONG_PATH) && absolute
        && !text::starts_with(chars.as_slice(), prefix.as_slice()) {
        let mut out = text::text_of(prefix.as_slice());
        out.append(path);
        out
    } else {
        path.to_owned()
    }
}

/// Where the resume state of some partial data lies.
pub open spec fn control_of(part: PathView) -> PathView {
    PathView { dir: part.dir, name: part.name + ".fdm"@ }
}

/// Sidecar path holding resume state for an in-progress download.
pub fn control_path(part_path: &FilePath) -> (r: FilePath)
    ensures
        r@ == control_of(part_path@),
{
    let mut name = part_path.name.clone();
    name.append(".fdm");
    FilePath { dir: part_path.dir.clone(), name }
}

// --------------------------------------------------------------- laws on names
/// Ordinary characters are never replaced, and what could name a folder, a drive or
/// a stream always is.
pub proof fn law_ordinary_characters_stay(c: char)
    ensures
        'a' <= c <= 'z' || 'A' <= c <= 'Z' || '0' <= c <= '9' ==> safe_char(c) == c,
        c == ' ' || c == '.' || c == '-' || c == '_' || c == '(' || c == ')' || c == '\''
            ==> safe_char(c) == c,
        c >= '\u{80}' ==> safe_char(c) == c,
        c == '/' || c == '\\' || c == ':' || c == '*' || c == '?' || c == '"' || c == '<' || c == '>'
            || c == '|' || c < ' ' ==> safe_char(c) == '_',
{
}

/// Whether a name needs nothing done to it: it is not empty nor too long, has only
/// harmless characters, no white space around it and no dot at its end, and is no
/// device.
pub open spec fn is_good_name(name: Seq<char>) -> bool {
    &&& 0 < name.len()
    &&& text::byte_len(name) <= NAME_LIMIT
    &&& forall|i: int| 0 <= i < name.len() ==> !is_forbidden(#[trigger] name[i])
    &&& !text::is_space(name[0]) && !text::is_space(name.last()) && name.last() != '.'
    &&& !is_device(name)
}

/// A good name is left exactly as it is.
pub proof fn law_a_good_name_stays(name: Seq<char>)
    requires
        is_good_name(name),
    ensures
        sanitized(name) == name,
        name != "download"@ ==> usable(name) == Some(name),
{
    name.index_of_last_ensures('/');
    name.index_of_last_ensures('\\');
    assert(is_forbidden('/') && is_forbidden('\\'));
    assert(!name.contains('/')) by {
        if name.contains('/') {
            let i = choose|i: int| 0 <= i < name.len() && name[i] == '/';
            assert(!is_forbidden(name[i]));
        }
    }
    assert(!name.contains('\\')) by {
        if name.contains('\\') {
            let i = choose|i: int| 0 <= i < name.len() && name[i] == '\\';
            assert(!is_forbidden(name[i]));
        }
    }
    text::law_trimming_leaves_the_rest(name, Fringe::Space);
    assert(leaf(name) == name);
    let mapped = name.map_values(|c: char| safe_char(c));
    assert forall|i: int| 0 <= i < name.len() implies mapped[i] == name[i] by {
        assert(!is_forbidden(name[i]));
    }
    assert(mapped =~= name);
    assert(cleaned(name) == name);
}

/// Only what a name ends in counts: no folder in front of it, however it is parted,
/// makes a difference.
pub proof fn law_only_the_last_component_counts(dir: Seq<char>, name: Seq<char>)
    requires
        !name.contains('/'),
        !name.contains('\\'),
    ensures
        sanitized(dir + seq!['/'] + name) == sanitized(name),
        sanitized(dir + seq!['\\'] + name) == sanitized(name),
{
    name.index_of_last_ensures('/');
    name.index_of_last_ensures('\\');
    text::law_the_back_is_found(dir, '/', name);
    assert(leaf(dir + seq!['/'] + name) == leaf(name));
    let s = dir + seq!['\\'] + name;
    s.index_of_last_ensures('/');
    if s.contains('/') {
        let i = s.index_of_last('/')->0;
        if i >= dir.len() {
            assert(s[dir.len() as int] == '\\');
            assert(name[i - dir.len() - 1] == s[i]);
            assert(name.contains('/'));
        }
        let rest = dir.skip(i + 1);
        assert(s.skip(i + 1) =~= rest + seq!['\\'] + name);
        text::law_the_back_is_found(rest, '\\', name);
    } else {
        text::law_the_back_is_found(dir, '\\', name);
    }
    assert(leaf(s) == leaf(name));
}

/// White space around a name, and dots and spaces behind it, do not matter.
pub proof fn law_what_windows_strips_is_stripped(
    front: Seq<char>,
    name: Seq<char>,
    back: Seq<char>,
)
    requires
        is_good_name(name),
        forall|i: int| 0 <= i < front.len() ==> (#[trigger] front[i]) == ' ',
        forall|i: int| 0 <= i < back.len() ==> (#[trigger] back[i]) == ' ' || back[i] == '.',
        back.len() > 0 ==> back.last() == '.',
    ensures
        sanitized(front + name + back) == name,
{
    let s = front + name + back;
    law_a_good_name_stays(name);
    assert forall|i: int| 0 <= i < s.len() implies !is_forbidden(#[trigger] s[i]) by {
        if i < front.len() {
            assert(s[i] == front[i]);
        } else if i < front.len() + name.len() {
            assert(s[i] == name[i - front.len()]);
        } else {
            assert(s[i] == back[i - front.len() - name.len()]);
        }
    }
    s.index_of_last_ensures('/');
    s.index_of_last_ensures('\\');
    assert(is_forbidden('/') && is_forbidden('\\'));
    if s.contains('/') {
        let i = choose|i: int| 0 <= i < s.len() && s[i] == '/';
        assert(!is_forbidden(s[i]));
    }
    if s.contains('\\') {
        let i = choose|i: int| 0 <= i < s.len() && s[i] == '\\';
        assert(!is_forbidden(s[i]));
    }
    let core = name + back;
    assert(core[0] == name[0]);
    assert(core.last() == if back.len() > 0 {
        back.last()
    } else {
        name.last()
    });
    assert(!text::is_space('.'));
    text::law_what_is_around_is_taken_off(front, core, Seq::empty(), Fringe::Space);
    assert(front + core + Seq::<char>::empty() =~= s);
    assert(leaf(s) == core);
    let mapped = core.map_values(|c: char| safe_char(c));
    assert forall|i: int| 0 <= i < core.len() implies mapped[i] == core[i] by {
        assert(core[i] == s[i + front.len()]);
        assert(!is_forbidden(s[i + front.len()]));
    }
    assert(mapped =~= core);
    assert(!Fringe::Tail.has(name.last())) by {
        assert(text::is_space(' '));
    }
    if !Fringe::Tail.has(name[0]) {
        text::law_what_is_around_is_taken_off(Seq::empty(), name, back, Fringe::Tail);
        assert(Seq::<char>::empty() + name + back =~= core);
        assert(Seq::<char>::empty() + name =~= name);
    } else {
        lemma_tail_is_taken_off(name, back);
    }
    assert(cleaned(s) == name);
}

proof fn lemma_tail_is_taken_off(s: Seq<char>, back: Seq<char>)
    requires
        s.len() > 0,
        !Fringe::Tail.has(s.last()),
        forall|i: int| 0 <= i < back.len() ==> Fringe::Tail.has(#[trigger] back[i]),
    ensures
        text::trimmed_end(s + back, Fringe::Tail) == s,
    decreases back.len(),
{
    let whole = s + back;
    if back.len() > 0 {
        assert(whole.drop_last() =~= s + back.drop_last());
        assert(whole.last() == back.last());
        lemma_tail_is_taken_off(s, back.drop_last());
    } else {
        assert(whole =~= s);
    }
}

/// A name is parted at its last dot: what is behind it is the extension, what is in
/// front of it the stem; and a name without a dot has no extension.
pub proof fn law_an_extension_follows_the_last_dot(a: Seq<char>, e: Seq<char>, windows: bool)
    requires
        a.len() > 0,
        e.len() > 0,
        !e.contains('.'),
        forall|i: int| 0 <= i < a.len() ==> !is_forbidden(#[trigger] a[i]),
        forall|i: int| 0 <= i < e.len() ==> !is_forbidden(#[trigger] e[i]),
    ensures
        file_name(a + seq!['.'] + e, windows) == Some(a + seq!['.'] + e),
        extension(a + seq!['.'] + e, windows) == Some(e),
        file_stem(a + seq!['.'] + e, windows) == Some(a),
        extension(e, windows) is None,
        file_stem(e, windows) == Some(e),
{
    let s = a + seq!['.'] + e;
    assert forall|i: int| 0 <= i < s.len() implies !is_forbidden(#[trigger] s[i]) by {
        if i < a.len() {
            assert(s[i] == a[i]);
        } else if i > a.len() {
            assert(s[i] == e[i - a.len() - 1]);
        }
    }
    lemma_safe_name(s, windows);
    lemma_safe_name(e, windows);
    s.index_of_last_ensures('.');
    e.index_of_last_ensures('.');
    assert(s[a.len() as int] == '.');
    assert(s.contains('.'));
    assert(s.last() == e.last());
    assert(e.last() != '.') by {
        if e.last() == '.' {
            assert(e[e.len() - 1] == '.');
            assert(e.contains('.'));
        }
    }
    assert(seq!['.'].last() == '.' && seq!['.', '.'].last() == '.');
    let i = s.index_of_last('.')->0;
    if i > a.len() {
        assert(e[i - a.len() - 1] == s[i]);
        assert(e.contains('.'));
    }
    assert(s.skip(a.len() as int + 1) =~= e);
    assert(s.take(a.len() as int) =~= a);
}

proof fn lemma_separator_is_found(a: Seq<char>, c: char, b: Seq<char>, style: Style)
    requires
        is_separator(c, style),
        forall|i: int| 0 <= i < b.len() ==> !is_separator(#[trigger] b[i], style),
    ensures
        last_separator(a + seq![c] + b, style) == Some(a.len() as int),
    decreases b.len(),
{
    let s = a + seq![c] + b;
    if b.len() > 0 {
        assert(s.last() == b[b.len() - 1]);
        assert(s.drop_last() =~= a + seq![c] + b.drop_last());
        lemma_separator_is_found(a, c, b.drop_last(), style);
    } else {
        assert(s.last() == c);
    }
}

/// A path ends in its file name, and a folder's name with a dot in it is no extension.
pub proof fn law_a_path_ends_in_its_name(dir: Seq<char>, name: Seq<char>)
    requires
        name.len() > 0,
        !name.contains('/'),
        name != seq!['.'],
        name != seq!['.', '.'],
    ensures
        file_name(dir + seq!['/'] + name, false) == Some(name),
        extension(dir + seq!['/'] + name, false) == extension(name, false),
        file_stem(dir + seq!['/'] + name, false) == file_stem(name, false),
{
    let s = dir + seq!['/'] + name;
    assert forall|i: int| 0 <= i < name.len() implies !is_separator(
        #[trigger] name[i],
        Style::Unix,
    ) by {
        if name[i] == '/' {
            assert(name.contains('/'));
        }
    }
    lemma_separator_is_found(dir, '/', name, Style::Unix);
    lemma_no_separator(name, Style::Unix);
    assert(s.skip(0) =~= s);
    assert(name.skip(0) =~= name);
    assert(s.skip(dir.len() as int + 1) =~= name);
}

/// A name that is too long is cut in front of its extension, which it keeps: as much
/// as fits of it stands there still.
pub proof fn law_a_long_name_keeps_its_extension(a: Seq<char>, e: Seq<char>, limit: nat)
    requires
        a.len() > 0,
        e.len() > 0,
        !e.contains('.'),
        e.last() != ' ',
        forall|i: int| 0 <= i < a.len() ==> !is_forbidden(#[trigger] a[i]),
        forall|i: int| 0 <= i < e.len() ==> !is_forbidden(#[trigger] e[i]),
        1 + text::byte_len(e) <= limit < text::byte_len(a + seq!['.'] + e),
    ensures
        ({
            let name = a + seq!['.'] + e;
            let room = (limit - 1 - text::byte_len(e)) as nat;
            let short = cut(name, limit);
            &&& short == text::within_bytes(name, room) + seq!['.'] + e
            &&& text::byte_len(short) <= limit
            &&& limit < text::byte_len(short) + 4
        }),
{
    let name = a + seq!['.'] + e;
    law_an_extension_follows_the_last_dot(a, e, false);
    let ext = seq!['.'] + e;
    text::lemma_byte_len_concat(seq!['.'], e);
    assert(text::byte_len(seq!['.']) == 1) by {
        reveal_with_fuel(text::byte_len, 2);
        assert(seq!['.'].last() == '.');
    }
    let room = (limit - 1 - text::byte_len(e)) as nat;
    let head = text::within_bytes(name, room);
    text::lemma_within_bytes(name, room);
    text::lemma_byte_len_concat(head, ext);
    assert(head + ext =~= head + seq!['.'] + e);
    assert((head + ext).last() == e.last());
    assert(e.last() != '.') by {
        if e.last() == '.' {
            assert(e[e.len() - 1] == '.');
            assert(e.contains('.'));
        }
    }
}

/// The number of a candidate stands in front of the extension, and candidates of
/// different numbers are different names.
pub proof fn law_candidates_are_told_apart(
    a: Seq<char>,
    e: Seq<char>,
    n: nat,
    m: nat,
    windows: bool,
)
    requires
        a.len() > 0,
        e.len() > 0,
        !e.contains('.'),
        forall|i: int| 0 <= i < a.len() ==> !is_forbidden(#[trigger] a[i]),
        forall|i: int| 0 <= i < e.len() ==> !is_forbidden(#[trigger] e[i]),
        2 <= n,
        2 <= m,
    ensures
        candidate_name(a + seq!['.'] + e, 1, windows) == a + seq!['.'] + e,
        candidate_name(a + seq!['.'] + e, n, windows) == a + seq![' ', '('] + text::decimal(n)
            + seq![')', '.'] + e,
        candidate_name(e, n, windows) == e + seq![' ', '('] + text::decimal(n) + seq![')'],
        candidate_name(a + seq!['.'] + e, n, windows) == candidate_name(
            a + seq!['.'] + e,
            m,
            windows,
        ) ==> n == m,
        candidate_name(a + seq!['.'] + e, n, windows) != a + seq!['.'] + e,
{
    let name = a + seq!['.'] + e;
    law_an_extension_follows_the_last_dot(a, e, windows);
    let dn = text::decimal(n);
    let dm = text::decimal(m);
    let cn = candidate_name(name, n, windows);
    let cm = candidate_name(name, m, windows);
    assert(cn =~= a + seq![' ', '('] + dn + seq![')', '.'] + e);
    assert(cm =~= a + seq![' ', '('] + dm + seq![')', '.'] + e);
    assert(cn.len() == a.len() + 4 + dn.len() + e.len());
    if cn == cm {
        assert(cm.len() == a.len() + 4 + dm.len() + e.len());
        assert(dn.len() == dm.len());
        assert forall|i: int| 0 <= i < dn.len() implies dn[i] == dm[i] by {
            assert(cn[a.len() + 2 + i] == dn[i]);
            assert(cm[a.len() + 2 + i] == dm[i]);
        }
        assert(dn =~= dm);
        text::law_numbers_are_told_apart(n, m);
    }
    assert(name.len() == a.len() + 1 + e.len());
}

/// A path gets the prefix for long ones only where Windows needs it, loses nothing by
/// it, and does not get it twice.
pub proof fn law_only_long_windows_paths_are_extended(
    path: Seq<char>,
    windows: bool,
    absolute: bool,
)
    ensures
        !windows || !absolute || text::byte_len(path) <= LONG_PATH ==> extended_path(
            path,
            windows,
            absolute,
        ) == path,
        windows && absolute && text::byte_len(path) > LONG_PATH ==> seq!['\\', '\\', '?', '\\'].is_prefix_of(
            extended_path(path, windows, absolute),
        ),
        extended_path(path, windows, absolute) == path || extended_path(
            path,
            windows,
            absolute,
        ).skip(4) == path,
        extended_path(extended_path(path, windows, absolute), windows, absolute) == extended_path(
            path,
            windows,
            absolute,
        ),
{
    let prefix = seq!['\\', '\\', '?', '\\'];
    assert((prefix + path).skip(4) =~= path);
    assert(prefix.is_prefix_of(prefix + path)) by {
        assert((prefix + path).subrange(0, 4) =~= prefix);
    }
}

// --------------------------------------------------------- laws on encodings
/// A digit of a hexadecimal number, with `ten` for the one that stands for ten.
pub open spec fn hex_byte(v: u8, ten: u8) -> u8 {
    if v < 10 {
        (0x30 + v) as u8
    } else {
        (ten + (v - 10)) as u8
    }
}

/// A byte written in hexadecimal is read back as that byte, in either case.
pub proof fn law_a_byte_in_hexadecimal_reads_back(x: u8)
    ensures
        hex_pair(hex_byte(x / 16, 0x41), hex_byte(x % 16, 0x41)) == Some(x),
        hex_pair(hex_byte(x / 16, 0x61), hex_byte(x % 16, 0x61)) == Some(x),
{
}

/// Bytes without an escape stand for themselves, an escape stands for the byte it
/// spells, and one that spells none spoils the whole.
pub proof fn law_an_escape_is_read(a: Seq<u8>, h: u8, l: u8, b: Seq<u8>)
    requires
        forall|i: int| 0 <= i < a.len() ==> (#[trigger] a[i]) != 0x25,
    ensures
        percent_bytes(a) == Some(a),
        percent_bytes(b) is Some && hex_pair(h, l) is Some ==> percent_bytes(
            a + seq![0x25u8, h, l] + b,
        ) == Some(a + seq![hex_pair(h, l)->0] + percent_bytes(b)->0),
        hex_pair(h, l) is None ==> percent_bytes(a + seq![0x25u8, h, l] + b) is None,
    decreases a.len(),
{
    let whole = a + seq![0x25u8, h, l] + b;
    if a.len() > 0 {
        let tail = a.skip(1);
        law_an_escape_is_read(tail, h, l, b);
        assert(whole.skip(1) =~= tail + seq![0x25u8, h, l] + b);
        assert(whole[0] == a[0]);
        assert(seq![a[0]] + tail =~= a);
        if hex_pair(h, l) is Some && percent_bytes(b) is Some {
            let x = hex_pair(h, l)->0;
            let rest = percent_bytes(b)->0;
            assert(seq![a[0]] + (tail + seq![x] + rest) =~= a + seq![x] + rest);
        }
    } else {
        assert(a =~= Seq::<u8>::empty());
        assert(whole[0] == 0x25 && whole[1] == h && whole[2] == l);
        assert(whole.skip(3) =~= b);
        if hex_pair(h, l) is Some && percent_bytes(b) is Some {
            let x = hex_pair(h, l)->0;
            let rest = percent_bytes(b)->0;
            assert(a + seq![x] + rest =~= seq![x] + rest);
        }
    }
}

/// Text without an escape decodes to itself.
pub proof fn law_plain_text_decodes_to_itself(s: Seq<char>)
    requires
        forall|i: int| 0 <= i < encode_utf8(s).len() ==> (#[trigger] encode_utf8(s)[i]) != 0x25,
    ensures
        percent_decoded(s) == Some(s),
{
    law_an_escape_is_read(encode_utf8(s), 0, 0, Seq::empty());
    vstd::utf8::encode_utf8_valid_utf8(s);
    vstd::utf8::encode_utf8_decode_utf8(s);
}

/// A parameter is its key, whatever its case, and its value, with or without quotes
/// and white space around them.
pub proof fn law_a_parameter_is_read(key: Seq<char>, value: Seq<char>)
    requires
        key.len() > 0,
        !key.contains('='),
        !text::is_space(key[0]) && !text::is_space(key.last()),
        value.len() > 0,
        !text::is_space(value[0]) && !text::is_space(value.last()),
        value[0] != '"' && value.last() != '"',
    ensures
        parameter(seq![' '] + key + seq!['='] + value) == Some((text::lowered(key), value)),
        parameter(key + seq!['='] + seq!['"'] + value + seq!['"']) == Some(
            (text::lowered(key), value),
        ),
        parameter(key) is None,
{
    let bare = key + seq!['='] + value;
    assert(bare[0] == key[0]);
    assert(bare.last() == value.last());
    let padded = seq![' '] + key + seq!['='] + value;
    assert(seq![' '] + bare + Seq::<char>::empty() =~= padded);
    text::law_what_is_around_is_taken_off(seq![' '], bare, Seq::empty(), Fringe::Space);
    text::law_a_pair_is_parted(key, '=', value);
    text::law_trimming_leaves_the_rest(key, Fringe::Space);
    text::law_trimming_leaves_the_rest(value, Fringe::Space);
    text::law_trimming_leaves_the_rest(value, Fringe::Quote);
    let quoted = seq!['"'] + value + seq!['"'];
    let full = key + seq!['='] + quoted;
    assert(key + seq!['='] + seq!['"'] + value + seq!['"'] =~= full);
    assert(full[0] == key[0]);
    assert(full.last() == '"');
    assert(!text::is_space('"'));
    text::law_trimming_leaves_the_rest(full, Fringe::Space);
    text::law_a_pair_is_parted(key, '=', quoted);
    assert(quoted[0] == '"' && quoted.last() == '"');
    text::law_trimming_leaves_the_rest(quoted, Fringe::Space);
    text::law_what_is_around_is_taken_off(seq!['"'], value, seq!['"'], Fringe::Quote);
}

proof fn lemma_first_extended(parts: Seq<Seq<char>>, i: int)
    requires
        0 <= i <= parts.len(),
        forall|j: int|
            0 <= j < i ==> !(parameter(#[trigger] parts[j]) matches Some((k, v)) && k == "filename*"@
                && extended_name(v) is Some),
    ensures
        first_extended(parts) == first_extended(parts.skip(i)),
    decreases i,
{
    if i == 0 {
        assert(parts.skip(0) =~= parts);
    } else {
        let rest = parts.skip(1);
        assert forall|j: int| 0 <= j < i - 1 implies !(parameter(#[trigger] rest[j]) matches Some(
            (k, v),
        ) && k == "filename*"@ && extended_name(v) is Some) by {
            assert(rest[j] == parts[j + 1]);
        }
        assert(!(parameter(parts[0]) matches Some((k, v)) && k == "filename*"@ && extended_name(
            v,
        ) is Some));
        lemma_first_extended(rest, i - 1);
        assert(rest.skip(i - 1) =~= parts.skip(i));
    }
}

proof fn lemma_first_plain(parts: Seq<Seq<char>>, i: int)
    requires
        0 <= i <= parts.len(),
        forall|j: int|
            0 <= j < i ==> !(parameter(#[trigger] parts[j]) matches Some((k, v)) && k
                == "filename"@),
    ensures
        first_plain(parts) == first_plain(parts.skip(i)),
    decreases i,
{
    if i == 0 {
        assert(parts.skip(0) =~= parts);
    } else {
        let rest = parts.skip(1);
        assert forall|j: int| 0 <= j < i - 1 implies !(parameter(#[trigger] rest[j]) matches Some(
            (k, v),
        ) && k == "filename"@) by {
            assert(rest[j] == parts[j + 1]);
        }
        assert(!(parameter(parts[0]) matches Some((k, v)) && k == "filename"@));
        lemma_first_plain(rest, i - 1);
        assert(rest.skip(i - 1) =~= parts.skip(i));
    }
}

/// The extended form of a name wins wherever it stands; the plain one is taken only
/// where there is no usable extended one.
pub proof fn law_the_extended_name_wins(header: Seq<char>, i: int, value: Seq<char>, name: Seq<char>)
    requires
        0 <= i < text::pieces(header, ';').len(),
        is_good_name(name),
        name != "download"@,
    ensures
        parameter(text::pieces(header, ';')[i]) == Some(("filename*"@, value)) && percent_decoded(
            text::after_last(value, '\''),
        ) == Some(name) && (forall|j: int|
            0 <= j < i ==> !(parameter(#[trigger] text::pieces(header, ';')[j]) matches Some((k, v))
                && k == "filename*"@)) ==> disposition_name(header) == Some(name),
        parameter(text::pieces(header, ';')[i]) == Some(("filename"@, name)) && (forall|j: int|
            0 <= j < text::pieces(header, ';').len() ==> !(parameter(
                #[trigger] text::pieces(header, ';')[j],
            ) matches Some((k, v)) && k == "filename*"@)) && (forall|j: int|
            0 <= j < i ==> !(parameter(#[trigger] text::pieces(header, ';')[j]) matches Some((k, v))
                && k == "filename"@)) ==> disposition_name(header) == Some(name),
{
    let parts = text::pieces(header, ';');
    law_a_good_name_stays(name);
    if parameter(parts[i]) == Some(("filename*"@, value)) && percent_decoded(
        text::after_last(value, '\''),
    ) == Some(name) && (forall|j: int|
        0 <= j < i ==> !(parameter(#[trigger] parts[j]) matches Some((k, v)) && k
            == "filename*"@)) {
        lemma_first_extended(parts, i);
        assert(parts.skip(i)[0] == parts[i]);
    }
    if parameter(parts[i]) == Some(("filename"@, name)) && (forall|j: int|
        0 <= j < parts.len() ==> !(parameter(#[trigger] parts[j]) matches Some((k, v)) && k
            == "filename*"@)) && (forall|j: int|
        0 <= j < i ==> !(parameter(#[trigger] parts[j]) matches Some((k, v)) && k == "filename"@)) {
        lemma_first_extended(parts, parts.len() as int);
        assert(parts.skip(parts.len() as int) =~= Seq::<Seq<char>>::empty());
        lemma_first_plain(parts, i);
        assert(parts.skip(i)[0] == parts[i]);
    }
}

/// A URL gives the name its path ends in, decoded; where that is nothing, the host
/// says at least where the file is from.
pub proof fn law_a_url_is_named_by_its_path(link: LinkView, name: Seq<char>)
    requires
        is_good_name(name),
        name != "download"@,
    ensures
        link.segments matches Some(v) ==> (v.len() > 0 && percent_decoded(v.last()) == Some(name)
            ==> url_name(link) == name),
        link.segments matches Some(v) ==> (v.len() > 0 && v.last() == name && percent_decoded(
            name,
        ) is None ==> url_name(link) == name),
        link.segments is None && link.host == Some(name) ==> url_name(link) == name,
{
    law_a_good_name_stays(name);
    if link.segments is None {
        let none = Seq::<char>::empty();
        none.index_of_last_ensures('/');
        none.index_of_last_ensures('\\');
        assert(leaf(none) =~= none);
        assert(leaf(none).map_values(|c: char| safe_char(c)) =~= none);
        assert(cleaned(none) =~= none);
        none.index_of_first_ensures('.');
        assert(text::uppered(none) =~= none);
        assert(!is_device(none));
        assert(text::byte_len(none) == 0);
        assert(sanitized(none) == "download"@);
    }
}

/// Resume state lies beside its partial data, under a name of its own, and that of
/// different data under different names.
pub proof fn law_resume_state_lies_beside_its_data(part: PathView, other: PathView)
    ensures
        control_of(part).dir == part.dir,
        part.name.is_prefix_of(control_of(part).name),
        control_of(part) != part,
        control_of(part) == control_of(other) ==> part == other,
{
    reveal_strlit(".fdm");
    let a = control_of(part).name;
    let b = control_of(other).name;
    assert(a.take(part.name.len() as int) =~= part.name);
    assert(a.len() == part.name.len() + 4);
    if control_of(part) == control_of(other) {
        assert(b.take(other.name.len() as int) =~= other.name);
        assert(b.len() == other.name.len() + 4);
        assert(part.name =~= other.name);
    }
}

} // verus!
