//! Turning browser-supplied headers into headers the engine can safely send.
//!
//! Downloads arrive from the browser carrying whatever the page had: cookies, a
//! referer, a user-agent, and occasionally headers that would actively break a
//! segmented transfer. Every path that reaches the engine with third-party
//! headers goes through the same guard.

use reqwest::header::{
    HeaderMap, HeaderName, HeaderValue, InvalidHeaderName, InvalidHeaderValue, ToStrError,
};
use vstd::prelude::*;
use vstd::utf8::encode_utf8;

use crate::text;

verus! {

// ------------------------------------------------------------ the HTTP library
/// `http::HeaderMap`: headers by name. Opaque; what it holds is `entries`.
#[verifier::external_type_specification]
#[verifier::external_body]
#[verifier::reject_recursive_types(T)]
pub struct ExHeaderMap<T>(reqwest::header::HeaderMap<T>);

/// `http::header::InvalidHeaderName`: why a name was refused. Opaque.
#[verifier::external_type_specification]
#[verifier::external_body]
pub struct ExInvalidHeaderName(reqwest::header::InvalidHeaderName);

/// `http::header::InvalidHeaderValue`: why a value was refused. Opaque.
#[verifier::external_type_specification]
#[verifier::external_body]
pub struct ExInvalidHeaderValue(reqwest::header::InvalidHeaderValue);

/// `http::header::ToStrError`: why a value has no text. Opaque.
#[verifier::external_type_specification]
#[verifier::external_body]
pub struct ExToStrError(reqwest::header::ToStrError);

/// `http::HeaderName`: a valid name. Opaque; what it says is `name_text`.
#[verifier::external_type_specification]
#[verifier::external_body]
pub struct ExHeaderName(reqwest::header::HeaderName);

/// `http::HeaderValue`: a valid value. Opaque; what it holds is `value_bytes`.
#[verifier::external_type_specification]
#[verifier::external_body]
pub struct ExHeaderValue(reqwest::header::HeaderValue);

/// What a header map holds: for each name in lower case, its values in order.
pub uninterp spec fn entries(map: HeaderMap) -> Map<Seq<char>, Seq<Seq<u8>>>;

/// No headers at all.
pub open spec fn no_entries() -> Map<Seq<char>, Seq<Seq<u8>>> {
    Map::empty()
}

/// The name a `HeaderName` stands for, in lower case.
pub uninterp spec fn name_text(name: HeaderName) -> Seq<char>;

/// The bytes a `HeaderValue` holds.
pub uninterp spec fn value_bytes(value: HeaderValue) -> Seq<u8>;

/// A byte a header name may hold.
pub open spec fn is_token_byte(b: u8) -> bool {
    ||| 0x30 <= b <= 0x39
    ||| 0x41 <= b <= 0x5a
    ||| 0x5e <= b <= 0x7a
    ||| b == 0x21
    ||| 0x23 <= b <= 0x27
    ||| b == 0x2a
    ||| b == 0x2b
    ||| b == 0x2d
    ||| b == 0x2e
    ||| b == 0x7c
    ||| b == 0x7e
}

/// A header name: one to 65535 token bytes.
pub open spec fn is_header_name(name: Seq<u8>) -> bool {
    &&& 1 <= name.len() <= 0xffff
    &&& forall|i: int| 0 <= i < name.len() ==> is_token_byte(#[trigger] name[i])
}

/// A header value: no control bytes but the tab.
pub open spec fn is_header_value(value: Seq<u8>) -> bool {
    forall|i: int|
        0 <= i < value.len() ==> (#[trigger] value[i] >= 0x20 && value[i] != 0x7f) || value[i]
            == 0x09
}

/// A header value that is visible ASCII.
pub open spec fn is_visible(value: Seq<u8>) -> bool {
    forall|i: int|
        0 <= i < value.len() ==> 0x20 <= #[trigger] value[i] < 0x7f || value[i] == 0x09
}

/// The characters of ASCII bytes, letters in lower case.
pub open spec fn lower_ascii(bytes: Seq<u8>) -> Seq<char> {
    bytes.map_values(|b: u8| text::lower(b as char))
}

/// `HeaderName::from_bytes`: accepts exactly the header names, and keeps them in
/// lower case.
pub assume_specification[ HeaderName::from_bytes ](src: &[u8]) -> (r: Result<
    HeaderName,
    InvalidHeaderName,
>)
    ensures
        r is Ok <==> is_header_name(src@),
        r is Ok ==> name_text(r->Ok_0) == lower_ascii(src@),
;

/// `HeaderValue::from_str`: accepts exactly the header values, and keeps their
/// bytes.
pub assume_specification[ HeaderValue::from_str ](src: &str) -> (r: Result<
    HeaderValue,
    InvalidHeaderValue,
>)
    ensures
        r is Ok <==> is_header_value(encode_utf8(src@)),
        r is Ok ==> value_bytes(r->Ok_0) == encode_utf8(src@),
;

/// `HeaderValue::to_str`: succeeds exactly on visible ASCII, and gives its text.
pub assume_specification[ HeaderValue::to_str ](value: &HeaderValue) -> (r: Result<&str, ToStrError>)
    ensures
        r is Ok <==> is_visible(value_bytes(*value)),
        r is Ok ==> encode_utf8(r->Ok_0@) == value_bytes(*value),
;

/// Most names a map is sure to take, however they hash.
pub const MAX_HEADERS: usize = 6553;

/// `HeaderMap::with_capacity`: an empty map. It panics on a capacity beyond its
/// limit, which lies above `MAX_HEADERS`.
#[verifier::external_body]
pub(crate) fn map_with_capacity(capacity: usize) -> (r: HeaderMap)
    requires
        capacity <= MAX_HEADERS,
    ensures
        entries(r) == no_entries(),
{
    HeaderMap::with_capacity(capacity)
}

/// `HeaderMap::insert`: the name now has this value and no other; other names
/// keep theirs. It panics when its table would outgrow its limit, which cannot
/// happen while it holds at most `MAX_HEADERS` names.
#[verifier::external_body]
pub(crate) fn map_insert(map: &mut HeaderMap, name: HeaderName, value: HeaderValue)
    requires
        entries(*old(map)).dom().len() <= MAX_HEADERS,
        entries(*old(map)).dom().finite(),
    ensures
        entries(*final(map)) == entries(*old(map)).insert(
            name_text(name),
            seq![value_bytes(value)],
        ),
{
    map.insert(name, value);
}

/// `HeaderMap::append`: the value joins those the name already has, last; other
/// names keep theirs. It panics as `insert` does.
#[verifier::external_body]
pub(crate) fn map_append(map: &mut HeaderMap, name: HeaderName, value: HeaderValue)
    requires
        entries(*old(map)).dom().len() <= MAX_HEADERS,
        entries(*old(map)).dom().finite(),
    ensures
        entries(*final(map)) == entries(*old(map)).insert(
            name_text(name),
            values_of(entries(*old(map)), name_text(name)).push(value_bytes(value)),
        ),
{
    map.append(name, value);
}

/// `HeaderMap::get` by a name in any case: its first value, if it has one.
#[verifier::external_body]
pub(crate) fn map_get<'a>(map: &'a HeaderMap, name: &str) -> (r: Option<&'a HeaderValue>)
    ensures
        match r {
            Some(v) => {
                &&& entries(*map).dom().contains(text::lowered(name@))
                &&& entries(*map)[text::lowered(name@)].len() > 0
                &&& value_bytes(*v) == entries(*map)[text::lowered(name@)][0]
            },
            None => !entries(*map).dom().contains(text::lowered(name@)),
        },
{
    map.get(name)
}

/// `HeaderMap::clone`: a map with the same names and values.
#[verifier::external_body]
pub(crate) fn map_clone(map: &HeaderMap) -> (r: HeaderMap)
    ensures
        entries(r) == entries(*map),
{
    map.clone()
}

/// The values a name has; none where it is not there.
pub open spec fn values_of(map: Map<Seq<char>, Seq<Seq<u8>>>, name: Seq<char>) -> Seq<Seq<u8>> {
    if map.dom().contains(name) {
        map[name]
    } else {
        Seq::empty()
    }
}

/// The text of a header's first value; none where the header is not there or
/// does not hold visible ASCII.
pub open spec fn header_text(map: Map<Seq<char>, Seq<Seq<u8>>>, name: Seq<char>) -> Option<
    Seq<char>,
> {
    if map.dom().contains(name) && is_visible(map[name][0]) {
        Some(vstd::utf8::decode_utf8(map[name][0]))
    } else {
        None
    }
}

/// The text of a header's first value. `name` is in lower case.
pub fn get_text<'a>(map: &'a HeaderMap, name: &str) -> (r: Option<&'a str>)
    requires
        text::lowered(name@) == name@,
    ensures
        match r {
            Some(s) => header_text(entries(*map), name@) == Some(s@),
            None => header_text(entries(*map), name@) is None,
        },
{
    match map_get(map, name) {
        Some(v) => match v.to_str() {
            Ok(s) => {
                proof {
                    vstd::utf8::encode_utf8_decode_utf8(s@);
                }
                Some(s)
            },
            Err(_) => None,
        },
        None => None,
    }
}

// ----------------------------------------------------------------- the guard
/// Headers the caller is not allowed to dictate.
///
/// `accept-encoding` is the dangerous one: a compressed response makes byte
/// ranges refer to *compressed* offsets and every segment boundary lands in the
/// wrong place. The rest are connection-level headers belonging to whichever
/// HTTP stack is actually holding the socket.
pub open spec fn denylist() -> Seq<Seq<char>> {
    seq![
        "accept-encoding"@,
        "connection"@,
        "content-length"@,
        "host"@,
        "keep-alive"@,
        "proxy-connection"@,
        "range"@,
        "te"@,
        "trailer"@,
        "transfer-encoding"@,
        "upgrade"@,
    ]
}

fn is_denied_chars(lower: &[char]) -> (r: bool)
    ensures
        r == denylist().contains(lower@),
{
    let list: Vec<&'static str> = vec![
        "accept-encoding",
        "connection",
        "content-length",
        "host",
        "keep-alive",
        "proxy-connection",
        "range",
        "te",
        "trailer",
        "transfer-encoding",
        "upgrade",
    ];
    let ghost names = list@.map_values(|s: &'static str| s@);
    assert(names =~= denylist());
    let mut i: usize = 0;
    while i < list.len()
        invariant
            i <= list.len(),
            names == list@.map_values(|s: &'static str| s@),
            names == denylist(),
            forall|k: int| 0 <= k < i ==> #[trigger] names[k] != lower@,
        decreases list.len() - i,
    {
        if text::spells(lower, list[i]) {
            assert(names[i as int] == lower@);
            return true;
        }
        i = i + 1;
    }
    false
}

/// True when the engine reserves this header for itself.
pub fn is_denied(name: &str) -> (r: bool)
    ensures
        r == denylist().contains(text::lowered(name@)),
{
    let chars = text::chars_of(name);
    is_denied_chars(text::to_lower(chars.as_slice()).as_slice())
}

/// What name/value pairs say.
pub open spec fn pairs_view(pairs: Seq<(String, String)>) -> Seq<(Seq<char>, Seq<char>)> {
    pairs.map_values(|p: (String, String)| (p.0@, p.1@))
}

/// Whether a pair is passed on: not reserved, and valid HTTP.
pub open spec fn is_kept(pair: (Seq<char>, Seq<char>)) -> bool {
    &&& !denylist().contains(text::lowered(pair.0))
    &&& is_header_name(encode_utf8(text::lowered(pair.0)))
    &&& is_header_value(encode_utf8(pair.1))
}

/// The headers that come of a list of pairs: of the kept ones, the last with
/// each name.
pub open spec fn kept_headers(pairs: Seq<(Seq<char>, Seq<char>)>) -> Map<Seq<char>, Seq<Seq<u8>>>
    decreases pairs.len(),
{
    if pairs.len() == 0 {
        Map::empty()
    } else {
        let before = kept_headers(pairs.drop_last());
        let last = pairs.last();
        if is_kept(last) {
            before.insert(text::lowered(last.0), seq![encode_utf8(last.1)])
        } else {
            before
        }
    }
}

proof fn lemma_lower_twice(s: Seq<char>)
    ensures
        text::lowered(text::lowered(s)) == text::lowered(s),
{
    assert(text::lowered(text::lowered(s)) =~= text::lowered(s));
}

/// Token bytes are ASCII, so the text of a name is the name.
proof fn lemma_name_text(s: Seq<char>)
    requires
        is_header_name(encode_utf8(text::lowered(s))),
    ensures
        lower_ascii(encode_utf8(text::lowered(s))) == text::lowered(s),
{
    let t = text::lowered(s);
    lemma_ascii_bytes(t);
    vstd::utf8::is_ascii_chars_encode_utf8(t);
    lemma_lower_twice(s);
    assert forall|i: int| 0 <= i < t.len() implies lower_ascii(encode_utf8(t))[i] == t[i] by {
        assert(encode_utf8(t)[i] == t[i] as u8);
        assert(text::lowered(t)[i] == t[i]);
        assert(is_token_byte(encode_utf8(t)[i]));
    }
    assert(lower_ascii(encode_utf8(t)) =~= t);
}

/// The text of a name is the name in lower case.
pub proof fn lemma_lowered_name(s: Seq<char>)
    requires
        is_header_name(encode_utf8(s)),
    ensures
        lower_ascii(encode_utf8(s)) == text::lowered(s),
{
    lemma_ascii_bytes(s);
    vstd::utf8::is_ascii_chars_encode_utf8(s);
    assert forall|i: int| 0 <= i < s.len() implies lower_ascii(encode_utf8(s))[i] == text::lowered(
        s,
    )[i] by {
        assert(encode_utf8(s)[i] == s[i] as u8);
        assert(is_token_byte(encode_utf8(s)[i]));
    }
    assert(lower_ascii(encode_utf8(s)) =~= text::lowered(s));
}

/// Text whose encoding is all ASCII bytes is ASCII.
proof fn lemma_ascii_bytes(t: Seq<char>)
    requires
        forall|i: int| 0 <= i < encode_utf8(t).len() ==> #[trigger] encode_utf8(t)[i] < 0x80,
    ensures
        vstd::utf8::is_ascii_chars(t),
    decreases t.len(),
{
    if t.len() > 0 {
        vstd::utf8::encode_utf8_first_scalar(t);
        let c = t[0];
        let rest = t.drop_first();
        let head = vstd::utf8::encode_scalar(c as u32);
        let whole = encode_utf8(t);
        assert(whole =~= head + encode_utf8(rest));
        lemma_first_byte(c);
        assert(whole[0] == head[0]);
        assert forall|i: int| 0 <= i < encode_utf8(rest).len() implies #[trigger] encode_utf8(
            rest,
        )[i] < 0x80 by {
            assert(encode_utf8(rest)[i] == whole[i + head.len()]);
        }
        lemma_ascii_bytes(rest);
        assert forall|i: int| 0 <= i < t.len() implies '\0' <= #[trigger] t[i] <= '\u{7f}' by {
            if i > 0 {
                assert(t[i] == rest[i - 1]);
            }
        }
    }
}

proof fn lemma_first_byte(c: char)
    ensures
        vstd::utf8::encode_scalar(c as u32).len() >= 1,
        vstd::utf8::encode_scalar(c as u32)[0] < 0x80 ==> '\0' <= c <= '\u{7f}',
{
    let v = c as u32;
    assert((0xC0u8 | ((v >> 6) & 0x1F) as u8) >= 0x80) by (bit_vector);
    assert((0xE0u8 | ((v >> 12) & 0x0F) as u8) >= 0x80) by (bit_vector);
    assert((0xF0u8 | ((v >> 18) & 0x7) as u8) >= 0x80) by (bit_vector);
}

/// What is kept of some pairs has no more names than what is kept of all, nor
/// than there are pairs.
proof fn lemma_kept_names(pairs: Seq<(Seq<char>, Seq<char>)>, n: int)
    requires
        0 <= n <= pairs.len(),
    ensures
        kept_headers(pairs).dom().finite(),
        kept_headers(pairs).dom().len() <= pairs.len(),
        kept_headers(pairs.take(n)).dom().subset_of(kept_headers(pairs).dom()),
        kept_headers(pairs.take(n)).dom().finite(),
        kept_headers(pairs.take(n)).dom().len() <= kept_headers(pairs).dom().len(),
    decreases pairs.len(),
{
    if n == pairs.len() {
        assert(pairs.take(n) =~= pairs);
        if n > 0 {
            lemma_kept_names(pairs.drop_last(), n - 1);
        }
    } else {
        lemma_kept_names(pairs.drop_last(), n);
        assert(pairs.drop_last().take(n) =~= pairs.take(n));
    }
    vstd::set_lib::lemma_len_subset(
        kept_headers(pairs.take(n)).dom(),
        kept_headers(pairs).dom(),
    );
}

/// Whether a map is sure to take what is kept of these pairs.
pub open spec fn are_few(pairs: Seq<(Seq<char>, Seq<char>)>) -> bool {
    kept_headers(pairs).dom().len() <= MAX_HEADERS
}

/// Names, each of them once.
pub(crate) struct Names {
    seen: Vec<Vec<char>>,
}

impl View for Names {
    type V = Set<Seq<char>>;

    closed spec fn view(&self) -> Set<Seq<char>> {
        text::runs(self.seen@).to_set()
    }
}

impl Names {
    pub(crate) closed spec fn wf(self) -> bool {
        text::runs(self.seen@).no_duplicates()
    }

    pub(crate) fn new() -> (r: Names)
        ensures
            r.wf(),
            r@ == Set::<Seq<char>>::empty(),
    {
        let r = Names { seen: Vec::new() };
        assert(r@ =~= Set::<Seq<char>>::empty());
        r
    }

    pub(crate) fn len(&self) -> (r: usize)
        requires
            self.wf(),
        ensures
            r == self@.len(),
    {
        proof {
            text::runs(self.seen@).unique_seq_to_set();
        }
        self.seen.len()
    }

    pub(crate) fn insert(&mut self, name: Vec<char>)
        requires
            old(self).wf(),
        ensures
            final(self).wf(),
            final(self)@ == old(self)@.insert(name@),
    {
        let ghost before = text::runs(self.seen@);
        let mut i: usize = 0;
        while i < self.seen.len()
            invariant
                i <= self.seen.len(),
                *self == *old(self),
                old(self).wf(),
                before == text::runs(self.seen@),
                forall|k: int| 0 <= k < i ==> #[trigger] before[k] != name@,
            decreases self.seen.len() - i,
        {
            if text::same(self.seen[i].as_slice(), name.as_slice()) {
                proof {
                    assert(before[i as int] == name@);
                    assert(before.to_set().contains(name@));
                    assert(before.to_set().insert(name@) =~= before.to_set());
                }
                return;
            }
            i = i + 1;
        }
        self.seen.push(name);
        proof {
            let after = text::runs(self.seen@);
            assert(after =~= before.push(name@));
            assert forall|x: Seq<char>| after.to_set().contains(x) <==> before.to_set().insert(
                name@,
            ).contains(x) by {
                if before.contains(x) {
                    let k = choose|k: int| 0 <= k < before.len() && before[k] == x;
                    assert(after[k] == x);
                }
                assert(after[before.len() as int] == name@);
                if after.contains(x) {
                    let k = choose|k: int| 0 <= k < after.len() && after[k] == x;
                    if k < before.len() {
                        assert(before[k] == x);
                    }
                }
            }
            assert(after.to_set() =~= before.to_set().insert(name@));
        }
    }
}

/// The header a pair gives, if it is passed on.
fn kept(name: &str, value: &str) -> (r: Option<(HeaderName, HeaderValue)>)
    ensures
        match r {
            Some(h) => is_kept((name@, value@)) && name_text(h.0) == text::lowered(name@)
                && value_bytes(h.1) == encode_utf8(value@),
            None => !is_kept((name@, value@)),
        },
{
    let chars = text::chars_of(name);
    let lower = text::to_lower(chars.as_slice());
    if is_denied_chars(lower.as_slice()) {
        return None;
    }
    let lower_name = text::text_of(lower.as_slice());
    match (HeaderName::from_bytes(lower_name.as_str().as_bytes()), HeaderValue::from_str(value)) {
        (Ok(n), Ok(v)) => {
            proof {
                lemma_name_text(name@);
            }
            Some((n, v))
        },
        _ => None,
    }
}

/// Whether a map is sure to take what is kept of these pairs.
pub fn fit(pairs: &Vec<(String, String)>) -> (r: bool)
    ensures
        r == are_few(pairs_view(pairs@)),
{
    let ghost all = pairs_view(pairs@);
    proof {
        lemma_kept_names(all, 0);
    }
    if pairs.len() <= MAX_HEADERS {
        return true;
    }
    let mut names = Names::new();
    let mut i: usize = 0;
    assert(all.take(0) =~= Seq::<(Seq<char>, Seq<char>)>::empty());
    assert(kept_headers(all.take(0)).dom() =~= Set::<Seq<char>>::empty());
    while i < pairs.len()
        invariant
            i <= pairs.len(),
            all == pairs_view(pairs@),
            names.wf(),
            names@ == kept_headers(all.take(i as int)).dom(),
        decreases pairs.len() - i,
    {
        proof {
            assert(all.take(i + 1).drop_last() =~= all.take(i as int));
            assert(all.take(i + 1).last() == all[i as int]);
        }
        if kept(pairs[i].0.as_str(), pairs[i].1.as_str()).is_some() {
            let chars = text::chars_of(pairs[i].0.as_str());
            names.insert(text::to_lower(chars.as_slice()));
        }
        i = i + 1;
        assert(names@ =~= kept_headers(all.take(i as int)).dom());
        if names.len() > MAX_HEADERS {
            proof {
                lemma_kept_names(all, i as int);
            }
            return false;
        }
    }
    assert(all.take(i as int) =~= all);
    names.len() <= MAX_HEADERS
}

/// Build a header map from arbitrary name/value pairs, dropping anything on
/// the denylist and anything HTTP itself would reject.
///
/// Invalid entries are skipped rather than failing the download: the input comes
/// from whatever a website happened to set in a cookie, and one weird byte in
/// one cookie should not be the reason a download refuses to start.
pub fn sanitize(pairs: &Vec<(String, String)>) -> (r: HeaderMap)
    requires
        are_few(pairs_view(pairs@)),
    ensures
        entries(r) == kept_headers(pairs_view(pairs@)),
{
    let capacity: usize = if pairs.len() <= MAX_HEADERS {
        pairs.len()
    } else {
        MAX_HEADERS
    };
    let mut map = map_with_capacity(capacity);
    let ghost all = pairs_view(pairs@);
    let mut i: usize = 0;
    assert(all.take(0) =~= Seq::<(Seq<char>, Seq<char>)>::empty());
    while i < pairs.len()
        invariant
            i <= pairs.len(),
            all == pairs_view(pairs@),
            are_few(all),
            entries(map) == kept_headers(all.take(i as int)),
        decreases pairs.len() - i,
    {
        proof {
            assert(all.take(i + 1).drop_last() =~= all.take(i as int));
            assert(all.take(i + 1).last() == all[i as int]);
            lemma_kept_names(all, i as int);
        }
        if let Some((n, v)) = kept(pairs[i].0.as_str(), pairs[i].1.as_str()) {
            map_insert(&mut map, n, v);
        }
        i = i + 1;
    }
    assert(all.take(i as int) =~= all);
    map
}

/// Whatever the pairs, and in whatever case they arrive, no header the engine
/// reserves for itself gets through, and everything that does is valid HTTP.
pub proof fn law_reserved_headers_never_pass(pairs: Seq<(Seq<char>, Seq<char>)>, name: Seq<char>)
    requires
        kept_headers(pairs).dom().contains(name),
    ensures
        !denylist().contains(name),
        is_header_name(encode_utf8(name)),
        kept_headers(pairs)[name].len() == 1,
        is_header_value(kept_headers(pairs)[name][0]),
    decreases pairs.len(),
{
    if pairs.len() > 0 {
        let last = pairs.last();
        if !(is_kept(last) && text::lowered(last.0) == name) {
            law_reserved_headers_never_pass(pairs.drop_last(), name);
        }
    }
}

/// A pair that is passed on is there, unless a later one of the same name took
/// its place: nothing else in the list, however malformed, can lose it.
pub proof fn law_kept_pairs_survive(pairs: Seq<(Seq<char>, Seq<char>)>, i: int)
    requires
        0 <= i < pairs.len(),
        is_kept(pairs[i]),
        forall|j: int|
            i < j < pairs.len() && is_kept(#[trigger] pairs[j]) ==> text::lowered(pairs[j].0)
                != text::lowered(pairs[i].0),
    ensures
        kept_headers(pairs).dom().contains(text::lowered(pairs[i].0)),
        kept_headers(pairs)[text::lowered(pairs[i].0)] == seq![encode_utf8(pairs[i].1)],
    decreases pairs.len(),
{
    if i < pairs.len() - 1 {
        let front = pairs.drop_last();
        assert forall|j: int| i < j < front.len() && is_kept(#[trigger] front[j]) implies
            text::lowered(front[j].0) != text::lowered(front[i].0) by {
            assert(front[j] == pairs[j]);
        }
        law_kept_pairs_survive(front, i);
        assert(pairs.last() == pairs[pairs.len() - 1]);
    }
}

/// Whether a text is made of characters that every header name may hold.
pub open spec fn is_plain_name(name: Seq<char>) -> bool {
    &&& 0 < name.len() <= 0xffff
    &&& forall|i: int|
        0 <= i < name.len() ==> 'a' <= (#[trigger] name[i]) <= 'z' || 'A' <= name[i] <= 'Z' || '0'
            <= name[i] <= '9' || name[i] == '-'
}

/// Whether a text is made of visible characters.
pub open spec fn is_plain_value(value: Seq<char>) -> bool {
    forall|i: int| 0 <= i < value.len() ==> ' ' <= (#[trigger] value[i]) <= '~'
}

proof fn lemma_plain_name(name: Seq<char>)
    requires
        is_plain_name(name),
    ensures
        is_header_name(encode_utf8(name)),
        is_plain_name(text::lowered(name)),
{
    assert(vstd::utf8::is_ascii_chars(name));
    vstd::utf8::is_ascii_chars_encode_utf8(name);
    assert forall|i: int| 0 <= i < encode_utf8(name).len() implies is_token_byte(
        #[trigger] encode_utf8(name)[i],
    ) by {
        assert(encode_utf8(name)[i] == name[i] as u8);
        assert('a' <= name[i] <= 'z' || 'A' <= name[i] <= 'Z' || '0' <= name[i] <= '9' || name[i]
            == '-');
    }
    let low = text::lowered(name);
    assert forall|i: int| 0 <= i < low.len() implies 'a' <= (#[trigger] low[i]) <= 'z' || 'A'
        <= low[i] <= 'Z' || '0' <= low[i] <= '9' || low[i] == '-' by {
        assert(low[i] == text::lower(name[i]));
        assert('a' <= name[i] <= 'z' || 'A' <= name[i] <= 'Z' || '0' <= name[i] <= '9' || name[i]
            == '-');
    }
}

proof fn lemma_plain_value(value: Seq<char>)
    requires
        is_plain_value(value),
    ensures
        is_header_value(encode_utf8(value)),
        is_visible(encode_utf8(value)),
{
    assert(vstd::utf8::is_ascii_chars(value));
    vstd::utf8::is_ascii_chars_encode_utf8(value);
    assert forall|i: int| 0 <= i < encode_utf8(value).len() implies 0x20 <= (#[trigger] encode_utf8(
        value,
    )[i]) < 0x7f by {
        assert(encode_utf8(value)[i] == value[i] as u8);
        assert(' ' <= value[i] <= '~');
    }
}

/// An ordinary header that the engine does not reserve for itself is passed on, and
/// reads back as it was given.
pub proof fn law_an_ordinary_header_is_passed_on(name: Seq<char>, value: Seq<char>)
    requires
        is_plain_name(name),
        is_plain_value(value),
        !denylist().contains(text::lowered(name)),
    ensures
        is_kept((name, value)),
        header_text(kept_headers(seq![(name, value)]), text::lowered(name)) == Some(value),
        is_header_name(encode_utf8(name)),
        is_header_value(encode_utf8(value)),
{
    lemma_plain_name(name);
    lemma_plain_name(text::lowered(name));
    lemma_plain_value(value);
    let pairs = seq![(name, value)];
    assert(pairs[0] == (name, value));
    law_kept_pairs_survive(pairs, 0);
    vstd::utf8::encode_utf8_decode_utf8(value);
}

/// No list of headers gets one of the engine's own through.
pub proof fn law_the_engines_own_headers_never_pass(pairs: Seq<(Seq<char>, Seq<char>)>)
    ensures
        !kept_headers(pairs).dom().contains("accept-encoding"@),
        !kept_headers(pairs).dom().contains("connection"@),
        !kept_headers(pairs).dom().contains("content-length"@),
        !kept_headers(pairs).dom().contains("host"@),
        !kept_headers(pairs).dom().contains("range"@),
        !kept_headers(pairs).dom().contains("te"@),
        !kept_headers(pairs).dom().contains("transfer-encoding"@),
        !kept_headers(pairs).dom().contains("upgrade"@),
{
    let list = denylist();
    assert(list[0] == "accept-encoding"@ && list[1] == "connection"@ && list[2]
        == "content-length"@ && list[3] == "host"@);
    assert(list[6] == "range"@ && list[7] == "te"@ && list[9] == "transfer-encoding"@ && list[10]
        == "upgrade"@);
    assert forall|i: int| 0 <= i < list.len() implies !kept_headers(pairs).dom().contains(
        #[trigger] list[i],
    ) by {
        if kept_headers(pairs).dom().contains(list[i]) {
            law_reserved_headers_never_pass(pairs, list[i]);
            assert(list.contains(list[i]));
        }
    }
}

/// Only what was given is passed on: every header there is comes from one of the
/// pairs.
pub proof fn law_no_header_is_made_up(pairs: Seq<(Seq<char>, Seq<char>)>, name: Seq<char>)
    requires
        kept_headers(pairs).dom().contains(name),
    ensures
        exists|i: int|
            0 <= i < pairs.len() && text::lowered((#[trigger] pairs[i]).0) == name && kept_headers(
                pairs,
            )[name] == seq![encode_utf8(pairs[i].1)],
    decreases pairs.len(),
{
    if pairs.len() > 0 {
        let last = pairs.last();
        assert(pairs[pairs.len() - 1] == last);
        if !(is_kept(last) && text::lowered(last.0) == name) {
            let front = pairs.drop_last();
            law_no_header_is_made_up(front, name);
            let i = choose|i: int|
                0 <= i < front.len() && text::lowered((#[trigger] front[i]).0) == name
                    && kept_headers(front)[name] == seq![encode_utf8(front[i].1)];
            assert(pairs[i] == front[i]);
        }
    }
}

/// A value may hold anything but control bytes, of which the tab is allowed. A name is
/// not empty, and holds no colon, blank, line break or byte beyond ASCII.
pub proof fn law_control_bytes_never_pass(value: Seq<u8>, i: int)
    requires
        0 <= i < value.len(),
    ensures
        value[i] == 0x0a || value[i] == 0x0d || value[i] == 0 || value[i] == 0x7f
            ==> !is_header_value(value),
        value[i] == 0x3a || value[i] == 0x20 || value[i] == 0x0a || value[i] >= 0x7f
            ==> !is_header_name(value),
        (forall|k: int|
            0 <= k < value.len() ==> (#[trigger] value[k]) == 0x09 || (value[k] >= 0x20 && value[k]
                != 0x7f)) ==> is_header_value(value),
        !is_header_name(Seq::empty()),
{
    if is_header_value(value) {
        assert((value[i] >= 0x20 && value[i] != 0x7f) || value[i] == 0x09);
    }
    if is_header_name(value) {
        assert(is_token_byte(value[i]));
    }
}

/// A header is read as the first value it has; one that is not there is not read.
pub proof fn law_the_first_value_is_read(
    map: Map<Seq<char>, Seq<Seq<u8>>>,
    name: Seq<char>,
    value: Seq<char>,
    more: Seq<Seq<u8>>,
)
    requires
        is_plain_value(value),
    ensures
        header_text(map.insert(name, seq![encode_utf8(value)] + more), name) == Some(value),
        header_text(map.remove(name), name) is None,
        values_of(map.insert(name, more), name) == more,
        values_of(map.remove(name), name).len() == 0,
{
    lemma_plain_value(value);
    vstd::utf8::encode_utf8_decode_utf8(value);
    let all = seq![encode_utf8(value)] + more;
    assert(all[0] == encode_utf8(value));
}

} // verus!
