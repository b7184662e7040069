//! Text as sequences of characters, and the few operations the rules need.

use vstd::prelude::*;
use vstd::slice::slice_subrange;

verus! {

/// `String::push`: the character is appended, and nothing else changes.
pub assume_specification[ String::push ](s: &mut String, c: char)
    ensures
        final(s)@ == old(s)@.push(c),
;

// ---------------------------------------------------------------- conversions
/// The characters of a string, in order.
pub fn chars_of(s: &str) -> (r: Vec<char>)
    ensures
        r@ == s@,
{
    let mut out: Vec<char> = Vec::new();
    for c in it: s.chars()
        invariant
            it.seq() == s@,
            out@ == it.seq().take(it.index() as int),
    {
        out.push(c);
    }
    out
}

/// The string made of these characters.
pub fn text_of(s: &[char]) -> (r: String)
    ensures
        r@ == s@,
{
    let mut out = String::new();
    let mut i: usize = 0;
    while i < s.len()
        invariant
            i <= s.len(),
            out@ == s@.take(i as int),
        decreases s.len() - i,
    {
        out.push(s[i]);
        i = i + 1;
        assert(s@.take(i as int) =~= s@.take(i - 1).push(s@[i - 1]));
    }
    assert(s@.take(i as int) =~= s@);
    out
}

/// Whether two runs of characters are the same.
pub fn same(a: &[char], b: &[char]) -> (r: bool)
    ensures
        r == (a@ == b@),
{
    if a.len() != b.len() {
        return false;
    }
    let mut i: usize = 0;
    while i < a.len()
        invariant
            i <= a.len(),
            a.len() == b.len(),
            a@.take(i as int) == b@.take(i as int),
        decreases a.len() - i,
    {
        if a[i] != b[i] {
            return false;
        }
        i = i + 1;
        assert(a@.take(i as int) =~= a@.take(i - 1).push(a@[i - 1]));
        assert(b@.take(i as int) =~= b@.take(i - 1).push(b@[i - 1]));
    }
    assert(a@.take(i as int) =~= a@);
    assert(b@.take(i as int) =~= b@);
    true
}

/// Whether two strings are the same.
pub fn same_text(a: &str, b: &str) -> (r: bool)
    ensures
        r == (a@ == b@),
{
    same(chars_of(a).as_slice(), chars_of(b).as_slice())
}

/// Whether these characters spell `b`.
pub fn spells(a: &[char], b: &str) -> (r: bool)
    ensures
        r == (a@ == b@),
{
    same(a, chars_of(b).as_slice())
}

// ------------------------------------------------------------------- trimming
/// Unicode white space.
pub open spec fn is_space(c: char) -> bool {
    ||| '\u{9}' <= c <= '\u{d}'
    ||| c == ' '
    ||| c == '\u{85}'
    ||| c == '\u{a0}'
    ||| c == '\u{1680}'
    ||| '\u{2000}' <= c <= '\u{200a}'
    ||| c == '\u{2028}'
    ||| c == '\u{2029}'
    ||| c == '\u{202f}'
    ||| c == '\u{205f}'
    ||| c == '\u{3000}'
}

/// The characters a trim takes off.
#[derive(Clone, Copy)]
pub enum Fringe {
    /// Unicode white space.
    Space,
    /// The double quote.
    Quote,
    /// The full stop.
    Dot,
    /// Full stop and blank.
    Tail,
    /// Full stop, blank and underscore.
    Margin,
}

impl Fringe {
    pub open spec fn has(self, c: char) -> bool {
        match self {
            Fringe::Space => is_space(c),
            Fringe::Quote => c == '"',
            Fringe::Dot => c == '.',
            Fringe::Tail => c == '.' || c == ' ',
            Fringe::Margin => c == '.' || c == ' ' || c == '_',
        }
    }

    pub fn contains(self, c: char) -> (r: bool)
        ensures
            r == self.has(c),
    {
        match self {
            Fringe::Space => {
                ('\u{9}' <= c && c <= '\u{d}') || c == ' ' || c == '\u{85}' || c == '\u{a0}' || c
                    == '\u{1680}' || ('\u{2000}' <= c && c <= '\u{200a}') || c == '\u{2028}' || c
                    == '\u{2029}' || c == '\u{202f}' || c == '\u{205f}' || c == '\u{3000}'
            },
            Fringe::Quote => c == '"',
            Fringe::Dot => c == '.',
            Fringe::Tail => c == '.' || c == ' ',
            Fringe::Margin => c == '.' || c == ' ' || c == '_',
        }
    }
}

/// `s` without the leading characters of the fringe.
pub open spec fn trimmed_start(s: Seq<char>, f: Fringe) -> Seq<char>
    decreases s.len(),
{
    if s.len() > 0 && f.has(s[0]) {
        trimmed_start(s.drop_first(), f)
    } else {
        s
    }
}

/// `s` without the trailing characters of the fringe.
pub open spec fn trimmed_end(s: Seq<char>, f: Fringe) -> Seq<char>
    decreases s.len(),
{
    if s.len() > 0 && f.has(s.last()) {
        trimmed_end(s.drop_last(), f)
    } else {
        s
    }
}

/// `s` without the leading and trailing characters of the fringe.
pub open spec fn trimmed(s: Seq<char>, f: Fringe) -> Seq<char> {
    trimmed_end(trimmed_start(s, f), f)
}

pub fn trim_start(s: &[char], f: Fringe) -> (r: &[char])
    ensures
        r@ == trimmed_start(s@, f),
{
    let mut i: usize = 0;
    assert(s@.skip(0) =~= s@);
    while i < s.len() && f.contains(s[i])
        invariant
            i <= s.len(),
            trimmed_start(s@, f) == trimmed_start(s@.skip(i as int), f),
        decreases s.len() - i,
    {
        i = i + 1;
        assert(s@.skip(i - 1).drop_first() =~= s@.skip(i as int));
    }
    let r = slice_subrange(s, i, s.len());
    assert(r@ =~= s@.skip(i as int));
    r
}

pub fn trim_end(s: &[char], f: Fringe) -> (r: &[char])
    ensures
        r@ == trimmed_end(s@, f),
{
    let mut n: usize = s.len();
    assert(s@.take(n as int) =~= s@);
    while n > 0 && f.contains(s[n - 1])
        invariant
            n <= s.len(),
            trimmed_end(s@, f) == trimmed_end(s@.take(n as int), f),
        decreases n,
    {
        n = n - 1;
        assert(s@.take(n + 1).drop_last() =~= s@.take(n as int));
    }
    let r = slice_subrange(s, 0, n);
    assert(r@ =~= s@.take(n as int));
    r
}

pub fn trim(s: &[char], f: Fringe) -> (r: &[char])
    ensures
        r@ == trimmed(s@, f),
{
    trim_end(trim_start(s, f), f)
}

/// Trimming only shortens, and what it leaves begins and ends outside the
/// fringe.
pub proof fn lemma_trimmed(s: Seq<char>, f: Fringe)
    ensures
        trimmed_start(s, f).len() <= s.len(),
        trimmed_end(s, f).len() <= s.len(),
        trimmed(s, f).len() <= s.len(),
        trimmed_start(s, f).len() > 0 ==> !f.has(trimmed_start(s, f)[0]),
        trimmed_end(s, f).len() > 0 ==> !f.has(trimmed_end(s, f).last()),
        trimmed_end(s, f) == s.take(trimmed_end(s, f).len() as int),
        trimmed_start(s, f) == s.skip(s.len() - trimmed_start(s, f).len()),
        trimmed(s, f).len() > 0 ==> !f.has(trimmed(s, f)[0]) && !f.has(trimmed(s, f).last()),
{
    lemma_trimmed_start(s, f);
    lemma_trimmed_end(s, f);
    lemma_trimmed_end(trimmed_start(s, f), f);
}

proof fn lemma_trimmed_start(s: Seq<char>, f: Fringe)
    ensures
        trimmed_start(s, f).len() <= s.len(),
        trimmed_start(s, f).len() > 0 ==> !f.has(trimmed_start(s, f)[0]),
        trimmed_start(s, f) == s.skip(s.len() - trimmed_start(s, f).len()),
    decreases s.len(),
{
    if s.len() > 0 && f.has(s[0]) {
        let rest = s.drop_first();
        lemma_trimmed_start(rest, f);
        let kept = trimmed_start(rest, f).len();
        assert(rest.skip(rest.len() - kept) =~= s.skip(s.len() - kept));
    } else {
        assert(s.skip(0) =~= s);
    }
}

proof fn lemma_trimmed_end(s: Seq<char>, f: Fringe)
    ensures
        trimmed_end(s, f).len() <= s.len(),
        trimmed_end(s, f).len() > 0 ==> !f.has(trimmed_end(s, f).last()),
        trimmed_end(s, f) == s.take(trimmed_end(s, f).len() as int),
    decreases s.len(),
{
    if s.len() > 0 && f.has(s.last()) {
        let rest = s.drop_last();
        lemma_trimmed_end(rest, f);
        let kept = trimmed_end(rest, f).len();
        assert(rest.take(kept as int) =~= s.take(kept as int));
    } else {
        assert(s.take(s.len() as int) =~= s);
    }
}

// ----------------------------------------------------------------------- case
/// ASCII lower case of one character; others stay.
pub open spec fn lower(c: char) -> char {
    if 'A' <= c <= 'Z' {
        ((c as u32) + 32) as char
    } else {
        c
    }
}

/// ASCII upper case of one character; others stay.
pub open spec fn upper(c: char) -> char {
    if 'a' <= c <= 'z' {
        ((c as u32) - 32) as char
    } else {
        c
    }
}

/// ASCII lower case.
pub open spec fn lowered(s: Seq<char>) -> Seq<char> {
    s.map_values(|c: char| lower(c))
}

/// ASCII upper case.
pub open spec fn uppered(s: Seq<char>) -> Seq<char> {
    s.map_values(|c: char| upper(c))
}

fn lower_char(c: char) -> (r: char)
    ensures
        r == lower(c),
{
    if 'A' <= c && c <= 'Z' {
        (c as u8 + 32) as char
    } else {
        c
    }
}

fn upper_char(c: char) -> (r: char)
    ensures
        r == upper(c),
{
    if 'a' <= c && c <= 'z' {
        (c as u8 - 32) as char
    } else {
        c
    }
}

pub fn to_lower(s: &[char]) -> (r: Vec<char>)
    ensures
        r@ == lowered(s@),
{
    let mut out: Vec<char> = Vec::new();
    let mut i: usize = 0;
    while i < s.len()
        invariant
            i <= s.len(),
            out.len() == i,
            forall|k: int| 0 <= k < i ==> #[trigger] out[k] == lower(s@[k]),
        decreases s.len() - i,
    {
        out.push(lower_char(s[i]));
        i = i + 1;
    }
    assert(out@ =~= lowered(s@));
    out
}

pub fn to_upper(s: &[char]) -> (r: Vec<char>)
    ensures
        r@ == uppered(s@),
{
    let mut out: Vec<char> = Vec::new();
    let mut i: usize = 0;
    while i < s.len()
        invariant
            i <= s.len(),
            out.len() == i,
            forall|k: int| 0 <= k < i ==> #[trigger] out[k] == upper(s@[k]),
        decreases s.len() - i,
    {
        out.push(upper_char(s[i]));
        i = i + 1;
    }
    assert(out@ =~= uppered(s@));
    out
}

// ------------------------------------------------------------------ searching
/// Where `c` first occurs.
pub fn find(s: &[char], c: char) -> (r: Option<usize>)
    ensures
        match r {
            Some(i) => i < s.len() && s@.index_of_first(c) == Some(i as int),
            None => s@.index_of_first(c) is None,
        },
{
    proof {
        s@.index_of_first_ensures(c);
    }
    let mut i: usize = 0;
    while i < s.len()
        invariant
            i <= s.len(),
            forall|k: int| 0 <= k < i ==> s@[k] != c,
            match s@.index_of_first(c) {
                Some(at) => {
                    &&& 0 <= at < s.len()
                    &&& s@[at] == c
                    &&& forall|j: int| 0 <= j < at ==> s@[j] != c
                },
                None => forall|j: int| 0 <= j < s.len() ==> s@[j] != c,
            },
        decreases s.len() - i,
    {
        if s[i] == c {
            return Some(i);
        }
        i = i + 1;
    }
    None
}

/// Where `c` last occurs.
pub fn rfind(s: &[char], c: char) -> (r: Option<usize>)
    ensures
        match r {
            Some(i) => i < s.len() && s@.index_of_last(c) == Some(i as int),
            None => s@.index_of_last(c) is None,
        },
{
    proof {
        s@.index_of_last_ensures(c);
    }
    let mut n: usize = s.len();
    while n > 0
        invariant
            n <= s.len(),
            forall|k: int| n <= k < s.len() ==> s@[k] != c,
            match s@.index_of_last(c) {
                Some(at) => {
                    &&& 0 <= at < s.len()
                    &&& s@[at] == c
                    &&& forall|j: int| at < j < s.len() ==> s@[j] != c
                },
                None => forall|j: int| 0 <= j < s.len() ==> s@[j] != c,
            },
        decreases n,
    {
        n = n - 1;
        if s[n] == c {
            return Some(n);
        }
    }
    None
}

/// What stands before the first `c`, or all of it.
pub open spec fn before_first(s: Seq<char>, c: char) -> Seq<char> {
    match s.index_of_first(c) {
        Some(i) => s.take(i),
        None => s,
    }
}

/// What stands after the last `c`, or all of it.
pub open spec fn after_last(s: Seq<char>, c: char) -> Seq<char> {
    match s.index_of_last(c) {
        Some(i) => s.skip(i + 1),
        None => s,
    }
}

/// What stands before and after the first `c`.
pub open spec fn split_pair(s: Seq<char>, c: char) -> Option<(Seq<char>, Seq<char>)> {
    match s.index_of_first(c) {
        Some(i) => Some((s.take(i), s.skip(i + 1))),
        None => None,
    }
}

pub fn head_before(s: &[char], c: char) -> (r: &[char])
    ensures
        r@ == before_first(s@, c),
{
    match find(s, c) {
        Some(i) => {
            let r = slice_subrange(s, 0, i);
            assert(r@ =~= s@.take(i as int));
            r
        },
        None => s,
    }
}

pub fn tail_after(s: &[char], c: char) -> (r: &[char])
    ensures
        r@ == after_last(s@, c),
{
    match rfind(s, c) {
        Some(i) => {
            let r = slice_subrange(s, i + 1, s.len());
            assert(r@ =~= s@.skip(i + 1));
            r
        },
        None => s,
    }
}

pub fn split_once(s: &[char], c: char) -> (r: Option<(&[char], &[char])>)
    ensures
        match r {
            Some(pair) => split_pair(s@, c) == Some((pair.0@, pair.1@)),
            None => split_pair(s@, c) is None,
        },
{
    match find(s, c) {
        Some(i) => {
            let a = slice_subrange(s, 0, i);
            let b = slice_subrange(s, i + 1, s.len());
            assert(a@ =~= s@.take(i as int));
            assert(b@ =~= s@.skip(i + 1));
            Some((a, b))
        },
        None => None,
    }
}

/// The pieces of `s` between the occurrences of `c`; never empty.
pub open spec fn pieces(s: Seq<char>, c: char) -> Seq<Seq<char>>
    decreases s.len(),
{
    match s.index_of_first(c) {
        Some(i) => if 0 <= i < s.len() {
            seq![s.take(i)] + pieces(s.skip(i + 1), c)
        } else {
            seq![s]
        },
        None => seq![s],
    }
}

/// What a list of character runs holds.
pub open spec fn runs(v: Seq<Vec<char>>) -> Seq<Seq<char>> {
    v.map_values(|s: Vec<char>| s@)
}

pub fn split(s: &[char], c: char) -> (r: Vec<Vec<char>>)
    ensures
        runs(r@) == pieces(s@, c),
        r.len() >= 1,
{
    let mut out: Vec<Vec<char>> = Vec::new();
    let mut rest: &[char] = s;
    let ghost mut left = s@;
    assert(runs(out@) =~= Seq::<Seq<char>>::empty());
    assert(runs(out@) + pieces(left, c) =~= pieces(s@, c));
    loop
        invariant_except_break
            left == rest@,
            runs(out@) + pieces(rest@, c) == pieces(s@, c),
        ensures
            runs(out@) == pieces(s@, c),
            out.len() >= 1,
        decreases rest.len(),
    {
        match find(rest, c) {
            Some(i) => {
                let piece = slice_subrange(rest, 0, i);
                let next = slice_subrange(rest, i + 1, rest.len());
                let ghost before = runs(out@);
                out.push(vstd::slice::slice_to_vec(piece));
                proof {
                    assert(piece@ =~= rest@.take(i as int));
                    assert(next@ =~= rest@.skip(i + 1));
                    assert(runs(out@) =~= before.push(piece@));
                    assert(before + (seq![piece@] + pieces(next@, c)) =~= before.push(piece@)
                        + pieces(next@, c));
                    left = next@;
                }
                rest = next;
            },
            None => {
                let ghost before = runs(out@);
                out.push(vstd::slice::slice_to_vec(rest));
                proof {
                    assert(runs(out@) =~= before.push(rest@));
                    assert(before + seq![rest@] =~= before.push(rest@));
                }
                break;
            },
        }
    }
    out
}

/// Whether `p` stands in `s` at position `i`.
pub open spec fn matches_at(s: Seq<char>, p: Seq<char>, i: int) -> bool {
    0 <= i && i + p.len() <= s.len() && s.subrange(i, i + p.len()) == p
}

/// Whether `p` occurs in `s`.
pub open spec fn occurs_in(p: Seq<char>, s: Seq<char>) -> bool {
    exists|i: int| matches_at(s, p, i)
}

pub fn contains(s: &[char], p: &[char]) -> (r: bool)
    ensures
        r == occurs_in(p@, s@),
{
    if p.len() > s.len() {
        return false;
    }
    let last: usize = s.len() - p.len();
    let mut i: usize = 0;
    loop
        invariant
            i <= last,
            last == s.len() - p.len(),
            forall|k: int| 0 <= k < i ==> !matches_at(s@, p@, k),
        decreases last - i,
    {
        let here = slice_subrange(s, i, i + p.len());
        if same(here, p) {
            assert(matches_at(s@, p@, i as int));
            return true;
        }
        assert(!matches_at(s@, p@, i as int));
        if i == last {
            return false;
        }
        i = i + 1;
    }
}

/// Whether `p` occurs in `s`.
pub fn contains_text(s: &[char], p: &str) -> (r: bool)
    ensures
        r == occurs_in(p@, s@),
{
    contains(s, chars_of(p).as_slice())
}

pub fn starts_with(s: &[char], p: &[char]) -> (r: bool)
    ensures
        r == p@.is_prefix_of(s@),
{
    p.len() <= s.len() && same(slice_subrange(s, 0, p.len()), p)
}

pub fn ends_with(s: &[char], p: &[char]) -> (r: bool)
    ensures
        r == p@.is_suffix_of(s@),
{
    p.len() <= s.len() && same(slice_subrange(s, s.len() - p.len(), s.len()), p)
}

/// What is left of `s` when every `p` in it is taken out, from the left.
pub open spec fn erased(s: Seq<char>, p: Seq<char>) -> Seq<char>
    decreases s.len(),
{
    if s.len() == 0 {
        Seq::empty()
    } else if p.len() > 0 && p.is_prefix_of(s) {
        erased(s.skip(p.len() as int), p)
    } else {
        seq![s[0]] + erased(s.skip(1), p)
    }
}

/// Take every `p` out of `s`.
pub fn erase(s: &[char], p: &[char]) -> (r: Vec<char>)
    ensures
        r@ == erased(s@, p@),
{
    let mut out: Vec<char> = Vec::new();
    let mut i: usize = 0;
    assert(s@.skip(0) =~= s@);
    assert(out@ + erased(s@, p@) =~= erased(s@, p@));
    while i < s.len()
        invariant
            i <= s.len(),
            out@ + erased(s@.skip(i as int), p@) == erased(s@, p@),
        decreases s.len() - i,
    {
        let rest = slice_subrange(s, i, s.len());
        assert(rest@ =~= s@.skip(i as int));
        if p.len() > 0 && starts_with(rest, p) {
            assert(s@.skip(i as int).skip(p@.len() as int) =~= s@.skip(i + p@.len()));
            i = i + p.len();
        } else {
            let ghost before = out@;
            out.push(s[i]);
            proof {
                let tail = erased(s@.skip(i + 1), p@);
                assert(s@.skip(i as int).skip(1) =~= s@.skip(i + 1));
                assert(before + (seq![s@[i as int]] + tail) =~= out@ + tail);
            }
            i = i + 1;
        }
    }
    proof {
        assert(s@.skip(i as int).len() == 0);
        assert(out@ + Seq::<char>::empty() =~= out@);
    }
    out
}

/// `s` without the copies of `p` that it begins with.
pub open spec fn unprefixed(s: Seq<char>, p: Seq<char>) -> Seq<char>
    decreases s.len(),
{
    if p.len() > 0 && p.is_prefix_of(s) {
        unprefixed(s.skip(p.len() as int), p)
    } else {
        s
    }
}

pub fn strip_prefixes<'a>(s: &'a [char], p: &[char]) -> (r: &'a [char])
    ensures
        r@ == unprefixed(s@, p@),
{
    let mut rest: &'a [char] = s;
    while p.len() > 0 && starts_with(rest, p)
        invariant
            unprefixed(rest@, p@) == unprefixed(s@, p@),
        decreases rest.len(),
    {
        let next = slice_subrange(rest, p.len(), rest.len());
        assert(next@ =~= rest@.skip(p@.len() as int));
        rest = next;
    }
    rest
}

/// What a list of literals says.
pub open spec fn literals(v: Seq<&'static str>) -> Seq<Seq<char>> {
    v.map_values(|s: &'static str| s@)
}

/// Whether any of `marks` occurs in `s`.
pub open spec fn mentions(s: Seq<char>, marks: Seq<Seq<char>>) -> bool {
    exists|i: int| 0 <= i < marks.len() && occurs_in(#[trigger] marks[i], s)
}

/// Whether any of `marks` occurs in `s`.
pub fn mentions_any(s: &[char], marks: &Vec<&'static str>) -> (r: bool)
    ensures
        r == mentions(s@, literals(marks@)),
{
    let mut i: usize = 0;
    while i < marks.len()
        invariant
            i <= marks.len(),
            forall|k: int| 0 <= k < i ==> !occurs_in(#[trigger] literals(marks@)[k], s@),
        decreases marks.len() - i,
    {
        if contains_text(s, marks[i]) {
            assert(occurs_in(literals(marks@)[i as int], s@));
            return true;
        }
        i = i + 1;
    }
    false
}

// -------------------------------------------------------------------- numbers
pub open spec fn is_digit(c: char) -> bool {
    '0' <= c <= '9'
}

/// The number these decimal digits spell.
pub open spec fn decimal_value(s: Seq<char>) -> int
    decreases s.len(),
{
    if s.len() == 0 {
        0
    } else {
        10 * decimal_value(s.drop_last()) + (s.last() as int - '0' as int)
    }
}

/// The digits of a number, without the leading plus sign a number may have.
pub open spec fn unsigned_digits(s: Seq<char>) -> Seq<char> {
    if s.len() > 1 && s[0] == '+' {
        s.drop_first()
    } else {
        s
    }
}

/// The 64-bit number `s` spells in decimal, if it does: digits only, at least
/// one, an optional plus sign in front.
pub open spec fn parsed_u64(s: Seq<char>) -> Option<u64> {
    let digits = unsigned_digits(s);
    if digits.len() > 0 && (forall|i: int| 0 <= i < digits.len() ==> is_digit(#[trigger] digits[i]))
        && decimal_value(digits) <= u64::MAX {
        Some(decimal_value(digits) as u64)
    } else {
        None
    }
}

pub fn parse_u64(s: &[char]) -> (r: Option<u64>)
    ensures
        r == parsed_u64(s@),
{
    let digits: &[char] = if s.len() > 1 && s[0] == '+' {
        slice_subrange(s, 1, s.len())
    } else {
        s
    };
    assert(digits@ =~= unsigned_digits(s@));
    if digits.len() == 0 {
        return None;
    }
    let mut value: u64 = 0;
    let mut over: bool = false;
    let mut i: usize = 0;
    assert(digits@.take(0) =~= Seq::<char>::empty());
    while i < digits.len()
        invariant
            i <= digits.len(),
            digits@ == unsigned_digits(s@),
            forall|k: int| 0 <= k < i ==> is_digit(#[trigger] digits@[k]),
            over ==> decimal_value(digits@.take(i as int)) > u64::MAX,
            !over ==> value == decimal_value(digits@.take(i as int)),
        decreases digits.len() - i,
    {
        let c: char = digits[i];
        if !('0' <= c && c <= '9') {
            assert(!is_digit(digits@[i as int]));
            return None;
        }
        let d: u64 = c as u64 - '0' as u64;
        proof {
            assert(digits@.take(i + 1).drop_last() =~= digits@.take(i as int));
        }
        if !over {
            match value.checked_mul(10) {
                Some(tens) => match tens.checked_add(d) {
                    Some(next) => {
                        value = next;
                    },
                    None => {
                        over = true;
                    },
                },
                None => {
                    over = true;
                },
            }
        }
        i = i + 1;
    }
    assert(digits@.take(i as int) =~= digits@);
    if over {
        None
    } else {
        Some(value)
    }
}

/// The character of a decimal digit.
pub open spec fn digit_char(d: int) -> char {
    ('0' as u32 + d as u32) as char
}

/// A number in decimal, without leading zeros.
pub open spec fn decimal(n: nat) -> Seq<char>
    decreases n,
{
    if n < 10 {
        seq![digit_char(n as int)]
    } else {
        decimal(n / 10).push(digit_char((n % 10) as int))
    }
}

/// A number in decimal with at least two digits.
pub open spec fn two_digits(n: nat) -> Seq<char> {
    if n < 10 {
        seq!['0'] + decimal(n)
    } else {
        decimal(n)
    }
}

fn digit_of(d: u64) -> (r: char)
    requires
        d < 10,
    ensures
        r == digit_char(d as int),
{
    (48 + d as u8) as char
}

pub fn decimal_of(n: u64) -> (r: String)
    ensures
        r@ == decimal(n as nat),
    decreases n,
{
    if n < 10 {
        let mut out = String::new();
        out.push(digit_of(n));
        assert(out@ =~= decimal(n as nat));
        out
    } else {
        let mut out = decimal_of(n / 10);
        out.push(digit_of(n % 10));
        out
    }
}

pub fn two_digits_of(n: u64) -> (r: String)
    ensures
        r@ == two_digits(n as nat),
{
    if n < 10 {
        let mut out = String::new();
        out.push('0');
        out.append(decimal_of(n).as_str());
        assert(out@ =~= two_digits(n as nat));
        out
    } else {
        decimal_of(n)
    }
}

/// The character of a lower-case hexadecimal digit.
pub open spec fn hex_char(d: int) -> char {
    if d < 10 {
        ('0' as u32 + d as u32) as char
    } else {
        ('a' as u32 + (d - 10) as u32) as char
    }
}

/// A 64-bit number as `n` lower-case hexadecimal digits, the low ones.
pub open spec fn hex_digits(value: int, n: nat) -> Seq<char>
    decreases n,
{
    if n == 0 {
        Seq::empty()
    } else {
        hex_digits(value / 16, (n - 1) as nat).push(hex_char(value % 16))
    }
}

/// Bytes as lower-case hexadecimal, two digits each.
pub open spec fn hex_text(bytes: Seq<u8>) -> Seq<char>
    decreases bytes.len(),
{
    if bytes.len() == 0 {
        Seq::empty()
    } else {
        hex_text(bytes.drop_last()) + seq![
            hex_char(bytes.last() as int / 16),
            hex_char(bytes.last() as int % 16),
        ]
    }
}

/// Every byte takes two digits.
pub proof fn lemma_hex_text_len(bytes: Seq<u8>)
    ensures
        hex_text(bytes).len() == 2 * bytes.len(),
    decreases bytes.len(),
{
    if bytes.len() > 0 {
        lemma_hex_text_len(bytes.drop_last());
    }
}

fn hex_digit_of(d: u8) -> (r: char)
    requires
        d < 16,
    ensures
        r == hex_char(d as int),
{
    if d < 10 {
        (48 + d) as char
    } else {
        (87 + d) as char
    }
}

pub fn hex_digits_of(value: u64, n: usize) -> (r: String)
    ensures
        r@ == hex_digits(value as int, n as nat),
    decreases n,
{
    if n == 0 {
        String::new()
    } else {
        let mut out = hex_digits_of(value / 16, n - 1);
        let low: u8 = (value % 16) as u8;
        out.push(hex_digit_of(low));
        out
    }
}

/// Lower-case hexadecimal of `bytes`.
pub fn hex(bytes: &[u8]) -> (r: String)
    ensures
        r@ == hex_text(bytes@),
{
    let mut out = String::new();
    let mut i: usize = 0;
    assert(bytes@.take(0) =~= Seq::<u8>::empty());
    while i < bytes.len()
        invariant
            i <= bytes.len(),
            out@ == hex_text(bytes@.take(i as int)),
        decreases bytes.len() - i,
    {
        let b: u8 = bytes[i];
        let ghost before = out@;
        out.push(hex_digit_of(b / 16));
        out.push(hex_digit_of(b % 16));
        i = i + 1;
        proof {
            assert(bytes@.take(i as int).drop_last() =~= bytes@.take(i - 1));
            assert(out@ =~= before + seq![hex_char(b as int / 16), hex_char(b as int % 16)]);
        }
    }
    assert(bytes@.take(i as int) =~= bytes@);
    out
}

// ---------------------------------------------------------------------- UTF-8
/// How many bytes a character takes in UTF-8.
pub open spec fn width(c: char) -> nat {
    if c <= '\u{7f}' {
        1
    } else if c <= '\u{7ff}' {
        2
    } else if c <= '\u{ffff}' {
        3
    } else {
        4
    }
}

/// How many bytes a run of characters takes in UTF-8.
pub open spec fn byte_len(s: Seq<char>) -> nat
    decreases s.len(),
{
    if s.len() == 0 {
        0
    } else {
        byte_len(s.drop_last()) + width(s.last())
    }
}

/// The longest beginning of `s` that takes at most `limit` bytes.
pub open spec fn within_bytes(s: Seq<char>, limit: nat) -> Seq<char>
    decreases s.len(),
{
    if s.len() == 0 || byte_len(s) <= limit {
        s
    } else {
        within_bytes(s.drop_last(), limit)
    }
}

/// Byte lengths add up.
pub proof fn lemma_byte_len_concat(a: Seq<char>, b: Seq<char>)
    ensures
        byte_len(a + b) == byte_len(a) + byte_len(b),
    decreases b.len(),
{
    if b.len() == 0 {
        assert(a + b =~= a);
    } else {
        lemma_byte_len_concat(a, b.drop_last());
        assert((a + b).drop_last() =~= a + b.drop_last());
    }
}

proof fn lemma_width(c: char)
    ensures
        vstd::utf8::encode_scalar(c as u32).len() == width(c),
{
}

/// `byte_len` counts the bytes of the UTF-8 encoding.
pub proof fn law_byte_len_counts_utf8(s: Seq<char>)
    ensures
        byte_len(s) == vstd::utf8::encode_utf8(s).len(),
    decreases s.len(),
{
    if s.len() > 0 {
        let first = seq![s[0]];
        let rest = s.drop_first();
        law_byte_len_counts_utf8(rest);
        lemma_byte_len_concat(first, rest);
        assert(first + rest =~= s);
        assert(first.drop_last() =~= Seq::<char>::empty());
        assert(byte_len(first) == width(s[0])) by {
            reveal_with_fuel(byte_len, 2);
        }
        lemma_width(s[0]);
    }
}

/// A beginning within the limit takes no more than that, is a beginning, and is
/// all of `s` when `s` fits.
pub proof fn lemma_within_bytes(s: Seq<char>, limit: nat)
    ensures
        byte_len(within_bytes(s, limit)) <= limit,
        within_bytes(s, limit).len() <= s.len(),
        within_bytes(s, limit) == s.take(within_bytes(s, limit).len() as int),
        byte_len(s) > limit ==> byte_len(within_bytes(s, limit)) + 4 > limit,
    decreases s.len(),
{
    if s.len() == 0 || byte_len(s) <= limit {
        assert(s.take(s.len() as int) =~= s);
    } else {
        lemma_within_bytes(s.drop_last(), limit);
        let n = within_bytes(s.drop_last(), limit).len();
        assert(s.drop_last().take(n as int) =~= s.take(n as int));
    }
}

/// How many bytes a character takes in UTF-8.
pub fn width_of(c: char) -> (r: usize)
    ensures
        r == width(c),
{
    if c <= '\u{7f}' {
        1
    } else if c <= '\u{7ff}' {
        2
    } else if c <= '\u{ffff}' {
        3
    } else {
        4
    }
}

/// Whether `s` takes more than `limit` bytes.
pub fn exceeds_bytes(s: &[char], limit: usize) -> (r: bool)
    requires
        limit <= 0xffff_0000,
    ensures
        r == (byte_len(s@) > limit),
{
    let mut sum: usize = 0;
    let mut i: usize = 0;
    assert(s@.take(0) =~= Seq::<char>::empty());
    while i < s.len()
        invariant
            i <= s.len(),
            limit <= 0xffff_0000,
            sum <= limit,
            sum == byte_len(s@.take(i as int)),
        decreases s.len() - i,
    {
        proof {
            assert(s@.take(i + 1).drop_last() =~= s@.take(i as int));
        }
        sum = sum + width_of(s[i]);
        i = i + 1;
        if sum > limit {
            proof {
                lemma_byte_len_concat(s@.take(i as int), s@.skip(i as int));
                assert(s@.take(i as int) + s@.skip(i as int) =~= s@);
            }
            return true;
        }
    }
    assert(s@.take(i as int) =~= s@);
    false
}

/// The longest beginning of `s` that takes at most `limit` bytes.
pub fn head_within(s: &[char], limit: usize) -> (r: &[char])
    requires
        limit <= 0xffff_0000,
    ensures
        r@ == within_bytes(s@, limit as nat),
{
    let mut n: usize = s.len();
    assert(s@.take(n as int) =~= s@);
    while n > 0 && exceeds_bytes(slice_subrange(s, 0, n), limit)
        invariant
            n <= s.len(),
            limit <= 0xffff_0000,
            within_bytes(s@, limit as nat) == within_bytes(s@.take(n as int), limit as nat),
        decreases n,
    {
        assert(s@.subrange(0, n as int) =~= s@.take(n as int));
        n = n - 1;
        assert(s@.take(n + 1).drop_last() =~= s@.take(n as int));
    }
    assert(s@.subrange(0, n as int) =~= s@.take(n as int));
    slice_subrange(s, 0, n)
}

/// The error of `String::from_utf8`.
#[verifier::external_type_specification]
#[verifier::external_body]
pub struct ExFromUtf8Error(std::string::FromUtf8Error);

/// `String::from_utf8`: succeeds exactly on valid UTF-8, and the string it gives
/// then encodes to those bytes.
pub assume_specification[ String::from_utf8 ](vec: Vec<u8>) -> (r: Result<
    String,
    std::string::FromUtf8Error,
>)
    ensures
        r is Ok <==> vstd::utf8::valid_utf8(vec@),
        r is Ok ==> vstd::utf8::encode_utf8(r->Ok_0@) == vec@,
;

/// The text of `bytes` if they are valid UTF-8.
pub open spec fn utf8_text(bytes: Seq<u8>) -> Option<Seq<char>> {
    if vstd::utf8::valid_utf8(bytes) {
        Some(vstd::utf8::decode_utf8(bytes))
    } else {
        None
    }
}

/// The text of `bytes` if they are valid UTF-8.
pub fn text_of_utf8(bytes: Vec<u8>) -> (r: Option<String>)
    ensures
        match r {
            Some(s) => utf8_text(bytes@) == Some(s@),
            None => utf8_text(bytes@) is None,
        },
{
    match String::from_utf8(bytes) {
        Ok(s) => {
            proof {
                vstd::utf8::encode_utf8_decode_utf8(s@);
            }
            Some(s)
        },
        Err(_) => None,
    }
}

/// What `String::from_utf8_lossy` makes of `bytes`.
pub uninterp spec fn lossy_utf8(bytes: Seq<u8>) -> Seq<char>;

/// `String::from_utf8_lossy`: every invalid stretch becomes a replacement
/// character; valid input comes through as it is. Where the replacements fall
/// is left to the name.
#[verifier::external_body]
pub(crate) fn text_of_lossy(bytes: &[u8]) -> (r: String)
    ensures
        r@ == lossy_utf8(bytes@),
        vstd::utf8::valid_utf8(bytes@) ==> r@ == vstd::utf8::decode_utf8(bytes@),
{
    String::from_utf8_lossy(bytes).into_owned()
}

/// What `str::to_lowercase` makes of a text.
pub uninterp spec fn unicode_lower(s: Seq<char>) -> Seq<char>;

/// `str::to_lowercase`: Unicode lower case, which may change the length.
#[verifier::external_body]
pub(crate) fn to_lowercase(s: &str) -> (r: String)
    ensures
        r@ == unicode_lower(s@),
{
    s.to_lowercase()
}

/// What `str::to_uppercase` makes of a text.
pub uninterp spec fn unicode_upper(s: Seq<char>) -> Seq<char>;

/// `str::to_uppercase`: Unicode upper case, which may change the length.
#[verifier::external_body]
pub(crate) fn to_uppercase(s: &str) -> (r: String)
    ensures
        r@ == unicode_upper(s@),
{
    s.to_uppercase()
}

// ----------------------------------------------------------------- laws on text
/// A number written in decimal is read back as the same number.
pub proof fn law_a_number_reads_back(n: nat)
    ensures
        decimal(n).len() > 0,
        forall|i: int| 0 <= i < decimal(n).len() ==> is_digit(#[trigger] decimal(n)[i]),
        decimal_value(decimal(n)) == n,
        n <= u64::MAX ==> parsed_u64(decimal(n)) == Some(n as u64),
    decreases n,
{
    if n < 10 {
        reveal_with_fuel(decimal_value, 2);
        assert(decimal(n).drop_last() =~= Seq::<char>::empty());
        assert(is_digit(decimal(n)[0]));
    } else {
        law_a_number_reads_back(n / 10);
        let front = decimal(n / 10);
        assert(decimal(n).drop_last() =~= front);
        assert forall|i: int| 0 <= i < decimal(n).len() implies is_digit(#[trigger] decimal(n)[i]) by {
            if i < front.len() {
                assert(decimal(n)[i] == front[i]);
            }
        }
    }
    assert(is_digit(decimal(n)[0]));
    assert(unsigned_digits(decimal(n)) == decimal(n));
}

/// Different numbers are written differently.
pub proof fn law_numbers_are_told_apart(a: nat, b: nat)
    requires
        decimal(a) == decimal(b),
    ensures
        a == b,
{
    law_a_number_reads_back(a);
    law_a_number_reads_back(b);
}

/// Text with nothing to take off at either end is left as it is.
pub proof fn law_trimming_leaves_the_rest(s: Seq<char>, f: Fringe)
    requires
        s.len() > 0 ==> !f.has(s[0]) && !f.has(s.last()),
    ensures
        trimmed(s, f) == s,
        trimmed_start(s, f) == s,
        trimmed_end(s, f) == s,
{
}

/// What stands in front of a separator is found if it holds none itself.
pub proof fn law_the_front_is_found(a: Seq<char>, c: char, b: Seq<char>)
    requires
        !a.contains(c),
    ensures
        before_first(a + seq![c] + b, c) == a,
{
    let s = a + seq![c] + b;
    s.index_of_first_ensures(c);
    assert(s[a.len() as int] == c);
    assert(s.contains(c));
    let i = s.index_of_first(c)->0;
    if i < a.len() {
        assert(a[i] == s[i]);
        assert(a.contains(c));
    }
    assert(s.take(a.len() as int) =~= a);
}

/// What stands behind a separator is found if it holds none itself.
pub proof fn law_the_back_is_found(a: Seq<char>, c: char, b: Seq<char>)
    requires
        !b.contains(c),
    ensures
        after_last(a + seq![c] + b, c) == b,
{
    let s = a + seq![c] + b;
    s.index_of_last_ensures(c);
    assert(s[a.len() as int] == c);
    assert(s.contains(c));
    let i = s.index_of_last(c)->0;
    if i > a.len() {
        assert(b[i - a.len() - 1] == s[i]);
        assert(b.contains(c));
    }
    assert(s.skip(a.len() as int + 1) =~= b);
}

/// Whatever of the fringe stands around a text is taken off, and no more.
pub proof fn law_what_is_around_is_taken_off(
    front: Seq<char>,
    s: Seq<char>,
    back: Seq<char>,
    f: Fringe,
)
    requires
        s.len() > 0 ==> !f.has(s[0]) && !f.has(s.last()),
        forall|i: int| 0 <= i < front.len() ==> f.has(#[trigger] front[i]),
        forall|i: int| 0 <= i < back.len() ==> f.has(#[trigger] back[i]),
    ensures
        trimmed(front + s + back, f) == s,
        s.len() > 0 ==> trimmed_end(front + s + back, f) == front + s,
        s.len() > 0 ==> trimmed_start(front + s + back, f) == s + back,
    decreases front.len() + back.len(),
{
    let whole = front + s + back;
    if front.len() > 0 {
        let rest = front.drop_first();
        assert forall|i: int| 0 <= i < rest.len() implies f.has(#[trigger] rest[i]) by {
            assert(rest[i] == front[i + 1]);
        }
        law_what_is_around_is_taken_off(rest, s, back, f);
        assert(whole.drop_first() =~= rest + s + back);
        assert(whole[0] == front[0]);
    } else {
        assert(whole =~= s + back);
    }
    if back.len() > 0 {
        let rest = back.drop_last();
        law_what_is_around_is_taken_off(front, s, rest, f);
        assert(whole.drop_last() =~= front + s + rest);
        assert(whole.last() == back.last());
        if s.len() > 0 {
            if front.len() == 0 {
                assert(trimmed_start(whole, f) == s + back);
            }
            assert((s + back).drop_last() =~= s + rest);
            assert((s + back).last() == back.last());
            lemma_end_is_taken_off(s, back, f);
        } else {
            lemma_nothing_but_fringe(whole, f);
        }
    } else {
        assert(whole =~= front + s);
        if s.len() > 0 {
            assert(whole.last() == s.last());
            assert(s + back =~= s);
        } else {
            assert(whole =~= front);
            lemma_nothing_but_fringe(whole, f);
        }
    }
}

proof fn lemma_end_is_taken_off(s: Seq<char>, back: Seq<char>, f: Fringe)
    requires
        s.len() > 0,
        !f.has(s.last()),
        forall|i: int| 0 <= i < back.len() ==> f.has(#[trigger] back[i]),
    ensures
        trimmed_end(s + back, f) == s,
    decreases back.len(),
{
    let whole = s + back;
    if back.len() > 0 {
        assert(whole.drop_last() =~= s + back.drop_last());
        assert(whole.last() == back.last());
        lemma_end_is_taken_off(s, back.drop_last(), f);
    } else {
        assert(whole =~= s);
    }
}

proof fn lemma_nothing_but_fringe(s: Seq<char>, f: Fringe)
    requires
        forall|i: int| 0 <= i < s.len() ==> f.has(#[trigger] s[i]),
    ensures
        trimmed_start(s, f) == Seq::<char>::empty(),
        trimmed(s, f) == Seq::<char>::empty(),
    decreases s.len(),
{
    if s.len() > 0 {
        let rest = s.drop_first();
        assert forall|i: int| 0 <= i < rest.len() implies f.has(#[trigger] rest[i]) by {
            assert(rest[i] == s[i + 1]);
        }
        lemma_nothing_but_fringe(rest, f);
    } else {
        assert(s =~= Seq::<char>::empty());
    }
}

/// A pair is parted at its first separator.
pub proof fn law_a_pair_is_parted(a: Seq<char>, c: char, b: Seq<char>)
    requires
        !a.contains(c),
    ensures
        split_pair(a + seq![c] + b, c) == Some((a, b)),
        split_pair(a, c) is None,
{
    let s = a + seq![c] + b;
    s.index_of_first_ensures(c);
    a.index_of_first_ensures(c);
    assert(s[a.len() as int] == c);
    assert(s.contains(c));
    let i = s.index_of_first(c)->0;
    if i < a.len() {
        assert(a[i] == s[i]);
        assert(a.contains(c));
    }
    assert(s.take(a.len() as int) =~= a);
    assert(s.skip(a.len() as int + 1) =~= b);
}

/// A list is parted at every separator: its first item comes first, and the rest is
/// the list of what follows.
pub proof fn law_a_list_is_parted(a: Seq<char>, c: char, b: Seq<char>)
    requires
        !a.contains(c),
    ensures
        pieces(a, c) == seq![a],
        pieces(a + seq![c] + b, c) == seq![a] + pieces(b, c),
{
    let s = a + seq![c] + b;
    law_a_pair_is_parted(a, c, b);
    s.index_of_first_ensures(c);
    a.index_of_first_ensures(c);
    assert(s[a.len() as int] == c);
    assert(s.contains(c));
}

/// As much as fits is kept: all of a text within the limit, and of a longer one a
/// beginning to which the next character could not be added.
pub proof fn law_as_much_as_fits_is_kept(s: Seq<char>, limit: nat)
    ensures
        byte_len(s) <= limit ==> within_bytes(s, limit) == s,
        within_bytes(s, limit).is_prefix_of(s),
        byte_len(within_bytes(s, limit)) <= limit,
        within_bytes(s, limit).len() < s.len() ==> byte_len(
            s.take(within_bytes(s, limit).len() as int + 1),
        ) > limit,
    decreases s.len(),
{
    lemma_within_bytes(s, limit);
    if s.len() > 0 && byte_len(s) > limit {
        let front = s.drop_last();
        law_as_much_as_fits_is_kept(front, limit);
        let n = within_bytes(front, limit).len();
        if n < front.len() {
            assert(front.take(n as int + 1) =~= s.take(n as int + 1));
        } else {
            assert(s.take(n as int + 1) =~= s);
        }
    }
}

/// Plain text takes one byte a character, and parts add up.
pub proof fn law_plain_text_takes_a_byte_each(a: Seq<char>, b: Seq<char>)
    ensures
        (forall|i: int| 0 <= i < a.len() ==> (#[trigger] a[i]) <= '\u{7f}') ==> byte_len(a)
            == a.len(),
        byte_len(a) >= a.len(),
        byte_len(a + b) == byte_len(a) + byte_len(b),
    decreases a.len(),
{
    lemma_byte_len_concat(a, b);
    if a.len() > 0 {
        law_plain_text_takes_a_byte_each(a.drop_last(), b);
    }
}

/// Case makes no difference once it is taken away, and other characters have none.
pub proof fn law_case_is_taken_away(c: char)
    ensures
        lower(upper(c)) == lower(c),
        upper(lower(c)) == upper(c),
        'A' <= c <= 'Z' ==> 'a' <= lower(c) <= 'z' && lower(c) as int - 'a' as int == c as int
            - 'A' as int,
        !('A' <= c <= 'Z') ==> lower(c) == c,
        !('a' <= c <= 'z') ==> upper(c) == c,
{
}

/// A text is found wherever it stands, and what is found does stand there.
pub proof fn law_what_occurs_is_found(a: Seq<char>, p: Seq<char>, b: Seq<char>)
    ensures
        occurs_in(p, a + p + b),
        occurs_in(p, a) ==> p.len() <= a.len(),
{
    let s = a + p + b;
    assert(s.subrange(a.len() as int, (a.len() + p.len()) as int) =~= p);
    assert(matches_at(s, p, a.len() as int));
}

/// A beginning is taken off as often as it stands there, and nothing else is.
pub proof fn law_a_beginning_is_taken_off(s: Seq<char>, p: Seq<char>)
    requires
        p.len() > 0,
    ensures
        !p.is_prefix_of(unprefixed(s, p)),
        unprefixed(p + s, p) == unprefixed(s, p),
        !p.is_prefix_of(s) ==> unprefixed(s, p) == s,
    decreases s.len(),
{
    if p.is_prefix_of(s) {
        law_a_beginning_is_taken_off(s.skip(p.len() as int), p);
    }
    assert((p + s).skip(p.len() as int) =~= s);
    assert(p.is_prefix_of(p + s));
}

} // verus!
