//! Discovering what the server will actually let us do.
//!
//! The critical question is not "does the server advertise `Accept-Ranges`" but
//! "does it *honour* a `Range` request". So one byte is asked for and the status
//! code decides: a `206` is proof, anything else is not. Every ambiguous answer
//! counts as "no ranges" and falls back to a single sequential stream.

use reqwest::header::HeaderMap;
use vstd::prelude::*;

use crate::error::{Error, ErrorView, HttpFault};
use crate::headers;
use crate::link::{Link, LinkView};
use crate::naming;
use crate::naming::opt_text;
use crate::text;
use crate::text::Fringe;

verus! {

/// What is known of the resource before any of it is fetched.
#[derive(Debug, Clone, PartialEq, Eq)]
pub struct RemoteInfo {
    /// URL after redirects; all segment requests use this to avoid re-walking
    /// the redirect chain on every connection.
    pub final_url: Link,
    pub total_size: Option<u64>,
    pub supports_ranges: bool,
    /// `ETag` if the server gave one, otherwise `Last-Modified`. Sent back as
    /// `If-Range` so a file that changes mid-download is detected instead of
    /// being stitched together from two different versions.
    pub validator: Option<String>,
    pub validator_is_etag: bool,
    pub mime: Option<String>,
    pub filename: String,
}

/// What remote information is, mathematically.
#[verifier::ext_equal]
pub struct RemoteInfoView {
    pub final_url: LinkView,
    pub total_size: Option<u64>,
    pub supports_ranges: bool,
    pub validator: Option<Seq<char>>,
    pub validator_is_etag: bool,
    pub mime: Option<Seq<char>>,
    pub filename: Seq<char>,
}

impl View for RemoteInfo {
    type V = RemoteInfoView;

    open spec fn view(&self) -> RemoteInfoView {
        RemoteInfoView {
            final_url: self.final_url@,
            total_size: self.total_size,
            supports_ranges: self.supports_ranges,
            validator: opt_text(self.validator),
            validator_is_etag: self.validator_is_etag,
            mime: opt_text(self.mime),
            filename: self.filename@,
        }
    }
}

impl RemoteInfoView {
    /// Whether the resource can be divided at all.
    pub open spec fn can_segment(self) -> bool {
        self.supports_ranges && self.total_size is Some && self.total_size->0 > 0
    }
}

impl RemoteInfo {
    /// Whether parallel segmentation is possible at all. Needs both range
    /// support and a known size; without a size there is nothing to divide.
    pub fn can_segment(&self) -> (r: bool)
        ensures
            r == self@.can_segment(),
    {
        self.supports_ranges && match self.total_size {
            Some(t) => t > 0,
            None => false,
        }
    }
}

// ------------------------------------------------------------- Content-Range
/// The size after the last slash of a `Content-Range`.
pub open spec fn content_range_total(value: Seq<char>) -> Option<u64> {
    text::parsed_u64(text::trimmed(text::after_last(value, '/'), Fringe::Space))
}

/// The first offset of a `Content-Range` in bytes.
pub open spec fn content_range_start(value: Seq<char>) -> Option<u64> {
    let whole = text::trimmed(value, Fringe::Space);
    if "bytes"@.is_prefix_of(whole) {
        let spec_part = text::trimmed(whole.skip("bytes"@.len() as int), Fringe::Space);
        let range = text::trimmed(text::before_first(spec_part, '/'), Fringe::Space);
        text::parsed_u64(text::trimmed(text::before_first(range, '-'), Fringe::Space))
    } else {
        None
    }
}

/// `bytes 0-0/146515` gives `Some(146515)`; `bytes 0-0/*` gives `None`.
pub fn parse_content_range_total(value: &str) -> (r: Option<u64>)
    ensures
        r == content_range_total(value@),
{
    let chars = text::chars_of(value);
    text::parse_u64(text::trim(text::tail_after(chars.as_slice(), '/'), Fringe::Space))
}

/// `bytes 1024-2047/146515` gives `Some(1024)`. Used to verify the server sent
/// the range that was asked for.
pub fn parse_content_range_start(value: &str) -> (r: Option<u64>)
    ensures
        r == content_range_start(value@),
{
    let chars = text::chars_of(value);
    let whole = text::trim(chars.as_slice(), Fringe::Space);
    let unit = text::chars_of("bytes");
    if !text::starts_with(whole, unit.as_slice()) {
        return None;
    }
    let rest = vstd::slice::slice_subrange(whole, unit.len(), whole.len());
    assert(rest@ =~= whole@.skip("bytes"@.len() as int));
    let range = text::trim(text::head_before(text::trim(rest, Fringe::Space), '/'), Fringe::Space);
    text::parse_u64(text::trim(text::head_before(range, '-'), Fringe::Space))
}

// -------------------------------------------------------------------- headers
/// What a response's headers hold.
pub type Fields = Map<Seq<char>, Seq<Seq<u8>>>;

/// A header's text without surrounding white space; none where nothing is left.
pub open spec fn field(h: Fields, name: Seq<char>) -> Option<Seq<char>> {
    match headers::header_text(h, name) {
        Some(s) => if text::trimmed(s, Fringe::Space).len() > 0 {
            Some(text::trimmed(s, Fringe::Space))
        } else {
            None
        },
        None => None,
    }
}

/// Whether the server says it takes ranges: `Accept-Ranges` is there and is
/// neither empty nor `none`.
pub open spec fn advertised(h: Fields) -> bool {
    match field(h, "accept-ranges"@) {
        Some(v) => text::lowered(v) != "none"@,
        None => false,
    }
}

/// The strong `ETag`, if there is one. Weak ones are not valid in `If-Range`.
pub open spec fn strong_etag(h: Fields) -> Option<Seq<char>> {
    match field(h, "etag"@) {
        Some(v) => if seq!['W', '/'].is_prefix_of(v) {
            None
        } else {
            Some(v)
        },
        None => None,
    }
}

/// The validator to resume with, and whether it is an `ETag`.
pub open spec fn validator_of(h: Fields) -> (Option<Seq<char>>, bool) {
    match strong_etag(h) {
        Some(v) => (Some(v), true),
        None => (field(h, "last-modified"@), false),
    }
}

/// The filename of a response: what `Content-Disposition` says, else the name
/// in the URL after redirects, else that in the URL that was asked for.
pub open spec fn response_name(original: LinkView, last: LinkView, h: Fields) -> Seq<char> {
    let disposed = match headers::header_text(h, "content-disposition"@) {
        Some(v) => naming::disposition_name(v),
        None => None,
    };
    match disposed {
        Some(name) => name,
        None => if naming::url_name(last) == "download"@ {
            naming::url_name(original)
        } else {
            naming::url_name(last)
        },
    }
}

/// What a `206` to a request for the first byte says.
pub open spec fn partial_info(original: LinkView, last: LinkView, h: Fields) -> RemoteInfoView {
    RemoteInfoView {
        final_url: last,
        total_size: match headers::header_text(h, "content-range"@) {
            Some(v) => content_range_total(v),
            None => None,
        },
        supports_ranges: true,
        validator: validator_of(h).0,
        validator_is_etag: validator_of(h).1,
        mime: field(h, "content-type"@),
        filename: response_name(original, last, h),
    }
}

/// What a response carrying the whole resource says.
pub open spec fn full_info(
    original: LinkView,
    last: LinkView,
    h: Fields,
    ranges: bool,
) -> RemoteInfoView {
    let size = match headers::header_text(h, "content-length"@) {
        Some(v) => text::parsed_u64(text::trimmed(v, Fringe::Space)),
        None => None,
    };
    RemoteInfoView {
        final_url: last,
        total_size: size,
        supports_ranges: ranges && size is Some,
        validator: validator_of(h).0,
        validator_is_etag: validator_of(h).1,
        mime: field(h, "content-type"@),
        filename: response_name(original, last, h),
    }
}

proof fn lemma_lower_case(s: Seq<char>)
    requires
        forall|i: int| 0 <= i < s.len() ==> !('A' <= #[trigger] s[i] <= 'Z'),
    ensures
        text::lowered(s) == s,
{
    assert(text::lowered(s) =~= s);
}

fn header_string(headers: &HeaderMap, name: &str) -> (r: Option<String>)
    requires
        text::lowered(name@) == name@,
    ensures
        opt_text(r) == field(headers::entries(*headers), name@),
{
    match headers::get_text(headers, name) {
        Some(s) => {
            let chars = text::chars_of(s);
            let trimmed = text::trim(chars.as_slice(), Fringe::Space);
            if trimmed.len() > 0 {
                Some(text::text_of(trimmed))
            } else {
                None
            }
        },
        None => None,
    }
}

/// Whether the server says it takes ranges.
pub fn advertises_ranges(headers: &HeaderMap) -> (r: bool)
    ensures
        r == advertised(headers::entries(*headers)),
{
    proof {
        reveal_strlit("accept-ranges");
        lemma_lower_case("accept-ranges"@);
    }
    match header_string(headers, "accept-ranges") {
        Some(v) => {
            let chars = text::chars_of(v.as_str());
            !text::spells(text::to_lower(chars.as_slice()).as_slice(), "none")
        },
        None => false,
    }
}

/// Prefer `ETag`: it is an exact identity check, whereas `Last-Modified` has
/// one-second granularity and can miss a rapid edit. Sending both in `If-Range`
/// is forbidden.
pub fn extract_validator(headers: &HeaderMap) -> (r: (Option<String>, bool))
    ensures
        (opt_text(r.0), r.1) == validator_of(headers::entries(*headers)),
{
    proof {
        reveal_strlit("etag");
        lemma_lower_case("etag"@);
        reveal_strlit("last-modified");
        lemma_lower_case("last-modified"@);
    }
    if let Some(etag) = header_string(headers, "etag") {
        let chars = text::chars_of(etag.as_str());
        let weak: Vec<char> = vec!['W', '/'];
        assert(weak@ =~= seq!['W', '/']);
        if !text::starts_with(chars.as_slice(), weak.as_slice()) {
            return (Some(etag), true);
        }
    }
    (header_string(headers, "last-modified"), false)
}

/// The filename of a response.
pub fn derive_filename(original: &Link, last: &Link, headers: &HeaderMap) -> (r: String)
    ensures
        r@ == response_name(original@, last@, headers::entries(*headers)),
{
    proof {
        reveal_strlit("content-disposition");
        lemma_lower_case("content-disposition"@);
    }
    if let Some(v) = headers::get_text(headers, "content-disposition") {
        if let Some(name) = naming::filename_from_content_disposition(v) {
            return name;
        }
    }
    // Prefer the post-redirect URL: redirects to a CDN usually carry the real
    // filename while the original is an opaque endpoint.
    let from_last = naming::filename_from_url(last);
    if text::same_text(from_last.as_str(), "download") {
        naming::filename_from_url(original)
    } else {
        from_last
    }
}

/// Read a `206` to a request for the first byte. Its total is in
/// `Content-Range`; `Content-Length` describes only that byte.
pub fn from_partial_response(original: &Link, last: &Link, headers: &HeaderMap) -> (r: RemoteInfo)
    ensures
        r@ == partial_info(original@, last@, headers::entries(*headers)),
{
    proof {
        reveal_strlit("content-range");
        lemma_lower_case("content-range"@);
        reveal_strlit("content-type");
        lemma_lower_case("content-type"@);
    }
    let total_size: Option<u64> = match headers::get_text(headers, "content-range") {
        Some(v) => parse_content_range_total(v),
        None => None,
    };
    let (validator, validator_is_etag) = extract_validator(headers);
    RemoteInfo {
        final_url: last.copied(),
        total_size,
        supports_ranges: true,
        validator,
        validator_is_etag,
        mime: header_string(headers, "content-type"),
        filename: derive_filename(original, last, headers),
    }
}

/// Read a response that carries the whole resource. Range support is claimed
/// only if the caller has grounds for it *and* the size is known.
pub fn from_full_response(
    original: &Link,
    last: &Link,
    headers: &HeaderMap,
    supports_ranges: bool,
) -> (r: RemoteInfo)
    ensures
        r@ == full_info(original@, last@, headers::entries(*headers), supports_ranges),
{
    proof {
        reveal_strlit("content-length");
        lemma_lower_case("content-length"@);
        reveal_strlit("content-type");
        lemma_lower_case("content-type"@);
    }
    let total_size: Option<u64> = match headers::get_text(headers, "content-length") {
        Some(v) => {
            let chars = text::chars_of(v);
            text::parse_u64(text::trim(chars.as_slice(), Fringe::Space))
        },
        None => None,
    };
    let (validator, validator_is_etag) = extract_validator(headers);
    RemoteInfo {
        final_url: last.copied(),
        total_size,
        supports_ranges: supports_ranges && total_size.is_some(),
        validator,
        validator_is_etag,
        mime: header_string(headers, "content-type"),
        filename: derive_filename(original, last, headers),
    }
}

// ------------------------------------------------------------------- the probe
/// How long a ranged probe may take, in milliseconds.
pub const PROBE_TIMEOUT_MS: u64 = 6000;

/// The questions a probe asks of a server, each where the one before it did not
/// settle the matter.
#[derive(Debug, Clone, Copy, PartialEq, Eq, Structural)]
pub enum Question {
    /// The first byte.
    Ranged,
    /// The headers alone.
    Head,
    /// The whole resource, of which only the headers are read.
    Plain,
}

/// A request that a probe sends.
#[derive(Debug, Clone, PartialEq, Eq)]
pub struct ProbeRequest {
    pub method: &'static str,
    pub accept_encoding: String,
    pub range: Option<String>,
}

/// What is sent to ask a question: the method, the coding and the range.
pub open spec fn asking(question: Question) -> (Seq<char>, Seq<char>, Option<Seq<char>>) {
    (
        if question == Question::Head {
            "HEAD"@
        } else {
            "GET"@
        },
        "identity"@,
        if question == Question::Ranged {
            Some("bytes=0-0"@)
        } else {
            None
        },
    )
}

/// What to send to ask a question. The coding is always `identity`: the length of
/// a compressed body says nothing of the file's.
pub fn probe_request(question: Question) -> (r: ProbeRequest)
    ensures
        (r.method@, r.accept_encoding@, opt_text(r.range)) == asking(question),
{
    ProbeRequest {
        method: match question {
            Question::Head => "HEAD",
            _ => "GET",
        },
        accept_encoding: "identity".to_owned(),
        range: match question {
            Question::Ranged => Some("bytes=0-0".to_owned()),
            _ => None,
        },
    }
}

/// What became of one ranged probe.
pub enum ProbeEvent {
    /// The server answered with this status.
    Answered(u16),
    /// The request failed.
    Failed(HttpFault),
    /// Nothing came back in time.
    TimedOut,
}

/// What to do after one ranged probe.
pub enum ProbeStep {
    /// Wait, then ask again.
    Retry { delay_ms: u64 },
    /// The server honours ranges; read the response as partial.
    Partial,
    /// The server ignored the range; read the response as the whole resource,
    /// with no parallelism and no resume.
    Full,
    /// Ask without a range.
    WithoutRange,
    Fail(Error),
}

pub open spec fn is_success(status: u16) -> bool {
    200 <= status < 300
}

/// What to do after the `attempt`th ranged probe, counted from one.
pub open spec fn is_probe_step(attempt: u64, event: ProbeEvent, step: ProbeStep) -> bool {
    match event {
        ProbeEvent::TimedOut => step is WithoutRange,
        ProbeEvent::Failed(e) => if attempt < 3 {
            step == (ProbeStep::Retry { delay_ms: (500 * attempt) as u64 })
        } else {
            step matches ProbeStep::Fail(err) && err@ == ErrorView::Http(e@)
        },
        ProbeEvent::Answered(s) => if s == 206 {
            step is Partial
        } else if is_success(s) {
            step is Full
        } else if (s == 429 || s == 503) && attempt < 4 {
            step == (ProbeStep::Retry { delay_ms: (800 * attempt) as u64 })
        } else if s == 405 || s == 501 || s == 416 || s == 400 {
            // Some servers reject ranged requests outright but serve a plain
            // one fine.
            step is WithoutRange
        } else {
            step matches ProbeStep::Fail(err) && err@ == ErrorView::Status(s)
        },
    }
}

pub fn probe_step(attempt: u64, event: ProbeEvent) -> (r: ProbeStep)
    ensures
        is_probe_step(attempt, event, r),
{
    match event {
        ProbeEvent::TimedOut => ProbeStep::WithoutRange,
        ProbeEvent::Failed(e) => if attempt < 3 {
            ProbeStep::Retry { delay_ms: 500 * attempt }
        } else {
            ProbeStep::Fail(Error::Http(e))
        },
        ProbeEvent::Answered(s) => if s == 206 {
            ProbeStep::Partial
        } else if 200 <= s && s < 300 {
            ProbeStep::Full
        } else if (s == 429 || s == 503) && attempt < 4 {
            ProbeStep::Retry { delay_ms: 800 * attempt }
        } else if s == 405 || s == 501 || s == 416 || s == 400 {
            ProbeStep::WithoutRange
        } else {
            ProbeStep::Fail(Error::Status(s))
        },
    }
}

/// Whether the answer to a `HEAD` is a success.
pub open spec fn is_settled(status: Option<u16>) -> bool {
    status is Some && is_success(status->0)
}

/// Whether the answer to a `HEAD` settles the matter. A failed or refused one
/// does not: the resource is then asked for with a plain `GET`.
pub fn head_settles(status: Option<u16>) -> (r: bool)
    ensures
        r == is_settled(status),
{
    match status {
        Some(s) => 200 <= s && s < 300,
        None => false,
    }
}

/// What is wrong with the answer to a plain `GET`, if anything.
pub open spec fn plain_fault(answer: Result<u16, HttpFault>) -> Option<ErrorView> {
    match answer {
        Err(e) => Some(ErrorView::Http(e@)),
        Ok(s) => if is_success(s) {
            None
        } else {
            Some(ErrorView::Status(s))
        },
    }
}

/// Judge the plain `GET` that is the last resort: any success will do.
pub fn judge_plain_get(answer: Result<u16, HttpFault>) -> (r: Result<(), Error>)
    ensures
        match r {
            Ok(_) => plain_fault(answer) is None,
            Err(err) => plain_fault(answer) == Some(err@),
        },
{
    match answer {
        Err(e) => Err(Error::Http(e)),
        Ok(s) => if 200 <= s && s < 300 {
            Ok(())
        } else {
            Err(Error::Status(s))
        },
    }
}

/// The probe never asks more than four times.
pub proof fn law_probe_gives_up(attempt: u64, event: ProbeEvent, step: ProbeStep)
    requires
        is_probe_step(attempt, event, step),
        step is Retry,
    ensures
        attempt < 4,
        !(event is TimedOut),
{
}

/// Only a `206` is taken for proof that ranges are honoured.
pub proof fn law_only_206_proves_ranges(attempt: u64, event: ProbeEvent, step: ProbeStep)
    requires
        is_probe_step(attempt, event, step),
        step is Partial,
    ensures
        event == ProbeEvent::Answered(206),
{
}

/// A resource is never divided on the word of a server that ignored a range, nor
/// without a known size, and a weak `ETag` never becomes the validator.
pub proof fn law_full_response_claims_nothing_unproved(
    original: LinkView,
    last: LinkView,
    h: Fields,
    ranges: bool,
)
    ensures
        !full_info(original, last, h, false).can_segment(),
        full_info(original, last, h, ranges).supports_ranges ==> full_info(
            original,
            last,
            h,
            ranges,
        ).total_size is Some,
        full_info(original, last, h, ranges).validator_is_etag ==> !seq!['W', '/'].is_prefix_of(
            full_info(original, last, h, ranges).validator->0,
        ),
        partial_info(original, last, h).validator_is_etag ==> !seq!['W', '/'].is_prefix_of(
            partial_info(original, last, h).validator->0,
        ),
{
}

/// A strong `ETag` is the validator; where there is none, or only a weak one,
/// `Last-Modified` is. Nothing else ever is.
pub proof fn law_the_best_validator_is_taken(h: Fields)
    ensures
        field(h, "etag"@) is None ==> validator_of(h) == (field(h, "last-modified"@), false),
        field(h, "etag"@) matches Some(v) ==> (seq!['W', '/'].is_prefix_of(v) ==> validator_of(h)
            == (field(h, "last-modified"@), false)),
        field(h, "etag"@) matches Some(v) ==> (!seq!['W', '/'].is_prefix_of(v) ==> validator_of(h)
            == (Some(v), true)),
{
}

/// Whatever the answer, what is known of the file carries the validator, the type
/// and the address of the response.
pub proof fn law_what_is_known_comes_from_the_response(
    original: LinkView,
    last: LinkView,
    h: Fields,
    ranges: bool,
)
    ensures
        partial_info(original, last, h).final_url == last,
        full_info(original, last, h, ranges).final_url == last,
        (partial_info(original, last, h).validator, partial_info(
            original,
            last,
            h,
        ).validator_is_etag) == validator_of(h),
        (full_info(original, last, h, ranges).validator, full_info(
            original,
            last,
            h,
            ranges,
        ).validator_is_etag) == validator_of(h),
        partial_info(original, last, h).mime == field(h, "content-type"@),
        full_info(original, last, h, ranges).mime == field(h, "content-type"@),
        partial_info(original, last, h).filename == full_info(original, last, h, ranges).filename,
{
}

/// The text of a range of `a` to `b` out of `n` bytes.
pub open spec fn range_answer(a: nat, b: nat, n: nat) -> Seq<char> {
    "bytes "@ + text::decimal(a) + seq!['-'] + text::decimal(b) + seq!['/'] + text::decimal(n)
}

proof fn lemma_decimal_lacks(n: nat, c: char)
    requires
        !text::is_digit(c),
    ensures
        !text::decimal(n).contains(c),
{
    text::law_a_number_reads_back(n);
    if text::decimal(n).contains(c) {
        let i = choose|i: int| 0 <= i < text::decimal(n).len() && text::decimal(n)[i] == c;
        assert(text::is_digit(text::decimal(n)[i]));
    }
}

/// A number needs no trimming.
proof fn lemma_decimal_is_bare(n: nat)
    ensures
        text::trimmed(text::decimal(n), Fringe::Space) == text::decimal(n),
{
    text::law_a_number_reads_back(n);
    let d = text::decimal(n);
    assert(text::is_digit(d[0]) && text::is_digit(d[d.len() - 1]));
    text::law_trimming_leaves_the_rest(d, Fringe::Space);
}

/// Where a server says that it sends the bytes from `a` to `b` of `n`, the size is
/// read as `n` and the start as `a`, whatever the numbers.
pub proof fn law_a_range_reads_back(a: nat, b: nat, n: nat)
    requires
        a <= u64::MAX,
        n <= u64::MAX,
    ensures
        content_range_total(range_answer(a, b, n)) == Some(n as u64),
        content_range_start(range_answer(a, b, n)) == Some(a as u64),
{
    reveal_strlit("bytes ");
    reveal_strlit("bytes");
    let da = text::decimal(a);
    let db = text::decimal(b);
    let dn = text::decimal(n);
    let whole = range_answer(a, b, n);
    text::law_a_number_reads_back(a);
    text::law_a_number_reads_back(b);
    text::law_a_number_reads_back(n);
    lemma_decimal_is_bare(a);
    lemma_decimal_is_bare(n);
    lemma_decimal_lacks(n, '/');
    lemma_decimal_lacks(a, '/');
    lemma_decimal_lacks(b, '/');
    lemma_decimal_lacks(a, '-');
    let front = "bytes "@ + da + seq!['-'] + db;
    assert(whole =~= front + seq!['/'] + dn);
    text::law_the_back_is_found(front, '/', dn);
    // The start.
    assert(whole[0] == 'b');
    assert(whole.last() == dn[dn.len() - 1]);
    assert(text::is_digit(dn[dn.len() - 1]));
    text::law_trimming_leaves_the_rest(whole, Fringe::Space);
    assert("bytes"@.is_prefix_of(whole)) by {
        assert("bytes"@ =~= whole.subrange(0, 5));
    }
    let range = da + seq!['-'] + db;
    let rest = range + seq!['/'] + dn;
    let spaced = whole.skip(5);
    assert(spaced =~= seq![' '] + rest);
    assert(text::is_digit(da[0]));
    assert(rest[0] == da[0]);
    assert(rest.last() == dn[dn.len() - 1]);
    assert(spaced.drop_first() =~= rest);
    assert(text::trimmed_start(spaced, Fringe::Space) == rest) by {
        reveal_with_fuel(text::trimmed_start, 2);
    }
    text::law_trimming_leaves_the_rest(rest, Fringe::Space);
    assert(text::trimmed(spaced, Fringe::Space) == rest);
    assert(!range.contains('/')) by {
        if range.contains('/') {
            let i = choose|i: int| 0 <= i < range.len() && range[i] == '/';
            if i < da.len() {
                assert(da[i] == '/');
                assert(da.contains('/'));
            } else if i > da.len() {
                assert(db[i - da.len() - 1] == '/');
                assert(db.contains('/'));
            }
        }
    }
    text::law_the_front_is_found(range, '/', dn);
    assert(range[0] == da[0]);
    assert(range.last() == db[db.len() - 1]);
    assert(text::is_digit(db[db.len() - 1]));
    text::law_trimming_leaves_the_rest(range, Fringe::Space);
    text::law_the_front_is_found(da, '-', db);
}

/// The size of a file is what the server says it is: behind the slash of a partial
/// answer, in `Content-Length` of a full one. A partial answer proves ranges; a full
/// one does only where the server offers them and the size is known.
pub proof fn law_the_size_is_what_the_server_says(
    original: LinkView,
    last: LinkView,
    h: Fields,
    ranges: bool,
    a: nat,
    b: nat,
    n: nat,
)
    requires
        a <= u64::MAX,
        n <= u64::MAX,
    ensures
        headers::header_text(h, "content-range"@) == Some(range_answer(a, b, n)) ==> partial_info(
            original,
            last,
            h,
        ).total_size == Some(n as u64),
        partial_info(original, last, h).supports_ranges,
        headers::header_text(h, "content-range"@) is None ==> partial_info(
            original,
            last,
            h,
        ).total_size is None,
        headers::header_text(h, "content-length"@) == Some(text::decimal(n)) ==> full_info(
            original,
            last,
            h,
            ranges,
        ).total_size == Some(n as u64) && full_info(original, last, h, ranges).supports_ranges
            == ranges,
        headers::header_text(h, "content-length"@) is None ==> full_info(
            original,
            last,
            h,
            ranges,
        ).total_size is None && !full_info(original, last, h, ranges).supports_ranges,
{
    law_a_range_reads_back(a, b, n);
    text::law_a_number_reads_back(n);
    lemma_decimal_is_bare(n);
}

/// A file is divided exactly if the server takes ranges and its size is known and
/// not zero.
pub proof fn law_what_can_be_divided(info: RemoteInfoView)
    ensures
        info.can_segment() <==> info.supports_ranges && info.total_size is Some
            && info.total_size != Some(0u64),
{
}

/// Every answer a probe gets is used: any success is read, a busy server is asked
/// again while there are tries left, a server that balks at ranges, or does not
/// answer, is asked without, and nothing else but a refusal ends the probe.
pub proof fn law_a_probe_makes_use_of_every_answer(
    attempt: u64,
    event: ProbeEvent,
    step: ProbeStep,
)
    requires
        is_probe_step(attempt, event, step),
    ensures
        event matches ProbeEvent::Answered(s) ==> (200 <= s <= 299 ==> step is Partial
            || step is Full),
        event matches ProbeEvent::Answered(s) ==> (s == 206 ==> step is Partial),
        event matches ProbeEvent::Answered(s) ==> ((s == 429 || s == 503) && attempt < 4
            ==> step is Retry),
        event matches ProbeEvent::Answered(s) ==> (s == 400 || s == 405 || s == 416 || s == 501
            ==> step is WithoutRange),
        event is Failed && attempt < 3 ==> step is Retry,
        event is TimedOut ==> step is WithoutRange,
        step matches ProbeStep::Fail(e) ==> (event matches ProbeEvent::Answered(s) ==> e@
            == ErrorView::Status(s)),
        step matches ProbeStep::Fail(e) ==> (event matches ProbeEvent::Failed(f) ==> e@
            == ErrorView::Http(f@)),
        step is Fail ==> !(event is TimedOut),
        step matches ProbeStep::Retry { delay_ms } ==> (1 <= attempt ==> delay_ms >= 500),
{
}

/// A name that the server states is the name, whatever the addresses. Without one
/// the last address gives it, and only if that gives none the first.
pub proof fn law_the_servers_name_comes_first(
    original: LinkView,
    last: LinkView,
    h: Fields,
    name: Seq<char>,
)
    ensures
        headers::header_text(h, "content-disposition"@) matches Some(v) ==> (
        naming::disposition_name(v) == Some(name) ==> response_name(original, last, h) == name),
        headers::header_text(h, "content-disposition"@) is None && naming::url_name(last)
            != "download"@ ==> response_name(original, last, h) == naming::url_name(last),
        headers::header_text(h, "content-disposition"@) is None && naming::url_name(last)
            == "download"@ ==> response_name(original, last, h) == naming::url_name(original),
{
}

/// A server offers ranges if it says anything but `none`, in whatever case.
pub proof fn law_an_offer_of_ranges_is_heard(h: Fields)
    ensures
        field(h, "accept-ranges"@) is None ==> !advertised(h),
        field(h, "accept-ranges"@) == Some("bytes"@) ==> advertised(h),
        field(h, "accept-ranges"@) matches Some(v) ==> (advertised(h) <==> text::lowered(v)
            != "none"@),
{
    reveal_strlit("bytes");
    reveal_strlit("none");
    assert(text::lowered("bytes"@).len() == 5);
}

/// Every question is asked for the plain coding; only the first asks for a range, and
/// that is one byte; only the second asks for the headers alone.
pub proof fn law_each_question_is_asked_its_way(question: Question)
    ensures
        asking(question).1 == "identity"@,
        asking(question).2 is Some <==> question == Question::Ranged,
        asking(Question::Ranged).2 == Some("bytes="@ + text::decimal(0) + "-"@ + text::decimal(0)),
        asking(Question::Head).0 == "HEAD"@,
        asking(Question::Ranged).0 == "GET"@ && asking(Question::Plain).0 == "GET"@,
{
    reveal_strlit("bytes=0-0");
    reveal_strlit("bytes=");
    reveal_strlit("-");
    assert(text::decimal(0) =~= seq!['0']);
    assert("bytes=0-0"@ =~= "bytes="@ + text::decimal(0) + "-"@ + text::decimal(0));
}

/// A success settles the matter, and nothing else does: what the server refuses is
/// reported with its status, and what does not reach it with the failure.
pub proof fn law_only_a_success_settles_the_matter(status: u16, e: HttpFault)
    ensures
        200 <= status <= 299 <==> is_settled(Some(status)),
        !is_settled(None),
        200 <= status <= 299 ==> plain_fault(Ok(status)) is None,
        status < 200 || status > 299 ==> plain_fault(Ok(status)) == Some(ErrorView::Status(status)),
        plain_fault(Err(e)) == Some(ErrorView::Http(e@)),
{
}

/// A field is its text without the blanks around it; one with nothing else in it is
/// as good as none.
pub proof fn law_a_blank_field_is_none(h: Fields, name: Seq<char>, s: Seq<char>)
    requires
        headers::header_text(h, name) == Some(s),
    ensures
        s.len() > 0 && !text::is_space(s[0]) && !text::is_space(s.last()) ==> field(h, name)
            == Some(s),
        (forall|i: int| 0 <= i < s.len() ==> text::is_space(#[trigger] s[i])) ==> field(
            h,
            name,
        ) is None,
{
    if s.len() > 0 && !text::is_space(s[0]) && !text::is_space(s.last()) {
        text::law_trimming_leaves_the_rest(s, Fringe::Space);
    }
    if forall|i: int| 0 <= i < s.len() ==> text::is_space(#[trigger] s[i]) {
        let none = Seq::<char>::empty();
        text::law_what_is_around_is_taken_off(s, none, none, Fringe::Space);
        assert(s + none + none =~= s);
    }
}

} // verus!
