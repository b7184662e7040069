//! URLs, as far as the rules look at them.

use vstd::prelude::*;

use crate::error::joined;
use crate::text;

verus! {

/// A parsed URL.
#[derive(Debug, Clone, PartialEq, Eq)]
pub struct Link {
    /// The whole URL, serialised.
    pub text: String,
    /// Lower case, without the colon.
    pub scheme: String,
    pub host: Option<String>,
    /// The path between its slashes; none where the URL has no such path.
    pub segments: Option<Vec<String>>,
}

/// What a parsed URL is, mathematically.
#[verifier::ext_equal]
pub struct LinkView {
    pub text: Seq<char>,
    pub scheme: Seq<char>,
    pub host: Option<Seq<char>>,
    pub segments: Option<Seq<Seq<char>>>,
}

impl View for Link {
    type V = LinkView;

    open spec fn view(&self) -> LinkView {
        LinkView {
            text: self.text@,
            scheme: self.scheme@,
            host: match self.host {
                Some(h) => Some(h@),
                None => None,
            },
            segments: match self.segments {
                Some(v) => Some(v@.map_values(|s: String| s@)),
                None => None,
            },
        }
    }
}

impl LinkView {
    /// The last segment of the path.
    pub open spec fn last_segment(self) -> Option<Seq<char>> {
        match self.segments {
            Some(v) => if v.len() > 0 {
                Some(v.last())
            } else {
                None
            },
            None => None,
        }
    }
}

/// What `url::Url::parse` makes of a text: the URL's parts, or its message.
pub uninterp spec fn parsed_link(text: Seq<char>) -> Result<LinkView, Seq<char>>;

/// `url::Url::parse`, its result taken apart with `as_str`, `scheme`, `host_str`
/// and `path_segments`, and its error turned into its message. All of it is a
/// function of the text; which texts parse, and to what, is left to the name.
#[verifier::external_body]
pub(crate) fn parse_link(text: &str) -> (r: Result<Link, String>)
    ensures
        match r {
            Ok(link) => parsed_link(text@) == Ok::<LinkView, Seq<char>>(link@),
            Err(e) => parsed_link(text@) == Err::<LinkView, Seq<char>>(e@),
        },
{
    match url::Url::parse(text) {
        Ok(u) => Ok(Link {
            text: u.as_str().to_string(),
            scheme: u.scheme().to_string(),
            host: u.host_str().map(str::to_string),
            segments: u.path_segments().map(|s| s.map(str::to_string).collect()),
        }),
        Err(e) => Err(e.to_string()),
    }
}

impl Link {
    /// Parse an absolute URL; the error is the parser's message.
    pub fn parse(text: &str) -> (r: Result<Link, String>)
        ensures
            match r {
                Ok(link) => parsed_link(text@) == Ok::<LinkView, Seq<char>>(link@),
                Err(e) => parsed_link(text@) == Err::<LinkView, Seq<char>>(e@),
            },
    {
        parse_link(text)
    }

    /// A copy of this URL.
    pub fn copied(&self) -> (r: Link)
        ensures
            r@ == self@,
    {
        let segments: Option<Vec<String>> = match &self.segments {
            Some(v) => {
                let mut out: Vec<String> = Vec::new();
                let mut i: usize = 0;
                while i < v.len()
                    invariant
                        i <= v.len(),
                        out.len() == i,
                        forall|k: int| 0 <= k < i ==> (#[trigger] out[k])@ == v@[k]@,
                    decreases v.len() - i,
                {
                    out.push(v[i].clone());
                    i = i + 1;
                }
                assert(out@.map_values(|s: String| s@) =~= v@.map_values(|s: String| s@));
                Some(out)
            },
            None => None,
        };
        let host: Option<String> = match &self.host {
            Some(h) => Some(h.clone()),
            None => None,
        };
        Link { text: self.text.clone(), scheme: self.scheme.clone(), host, segments }
    }

    /// The last segment of the path.
    pub fn last_segment(&self) -> (r: Option<&str>)
        ensures
            match r {
                Some(s) => self@.last_segment() == Some(s@),
                None => self@.last_segment() is None,
            },
    {
        match &self.segments {
            Some(v) => if v.len() > 0 {
                Some(v[v.len() - 1].as_str())
            } else {
                None
            },
            None => None,
        }
    }
}

/// The URL of a download, or why it is refused. `what` names what is handled, in
/// the words of the caller.
pub open spec fn download_link(
    parsed: Result<LinkView, Seq<char>>,
    what: Seq<char>,
) -> Result<LinkView, Seq<char>> {
    match parsed {
        Err(e) => Err("not a valid URL: "@ + e),
        Ok(link) => if link.scheme != "http"@ && link.scheme != "https"@ {
            Err("FDM only handles "@ + what + ", not "@ + link.scheme + ":"@)
        } else if link.host is None {
            Err("that URL has no host"@)
        } else {
            Ok(link)
        },
    }
}

/// What a parse gave.
pub open spec fn link_result(r: Result<Link, String>) -> Result<LinkView, Seq<char>> {
    match r {
        Ok(l) => Ok(l@),
        Err(e) => Err(e@),
    }
}

/// Check a parsed URL. `file:` is the one that matters: accepting it would turn
/// "add a download" into an arbitrary local file read.
pub fn check_download(parsed: Result<Link, String>, what: &str) -> (r: Result<Link, String>)
    ensures
        link_result(r) == download_link(link_result(parsed), what@),
{
    match parsed {
        Err(e) => Err(joined("not a valid URL: ", e.as_str())),
        Ok(link) => {
            if !text::same_text(link.scheme.as_str(), "http") && !text::same_text(
                link.scheme.as_str(),
                "https",
            ) {
                let mut m = joined("FDM only handles ", what);
                m.append(", not ");
                m.append(link.scheme.as_str());
                m.append(":");
                return Err(m);
            }
            if link.host.is_none() {
                return Err("that URL has no host".to_owned());
            }
            Ok(link)
        },
    }
}

/// Only web URLs with a host are ever downloaded.
pub proof fn law_only_web_urls_are_downloads(parsed: Result<LinkView, Seq<char>>, what: Seq<char>)
    requires
        download_link(parsed, what) is Ok,
    ensures
        parsed == download_link(parsed, what),
        parsed->Ok_0.scheme == "http"@ || parsed->Ok_0.scheme == "https"@,
        parsed->Ok_0.host is Some,
{
}

/// Every web URL with a host is a download, and goes on as it is; one that is not is
/// refused with the scheme it has.
pub proof fn law_every_web_url_is_a_download(link: LinkView, what: Seq<char>)
    ensures
        (link.scheme == "http"@ || link.scheme == "https"@) && link.host is Some ==> download_link(
            Ok(link),
            what,
        ) == Ok::<LinkView, Seq<char>>(link),
        link.scheme != "http"@ && link.scheme != "https"@ ==> download_link(Ok(link), what) is Err,
        link.host is None ==> download_link(Ok(link), what) is Err,
        link.segments matches Some(v) ==> (v.len() > 0 ==> link.last_segment() == Some(v.last())),
{
}

} // verus!
