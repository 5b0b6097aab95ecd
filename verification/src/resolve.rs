//! Validation of a resolved artifact link: an URL is accepted only when
//! it begins with the http(s) scheme marker; the version travels along
//! regardless, since a missing link need not be fatal for the caller.

use vstd::prelude::*;
use vstd::string::{StringExecFns, StrSliceExecFns};
use crate::models::opt_str_view;

verus! {

/// Whether a URL begins with the http(s) scheme: the prefix `http://`
/// or `https://`, and nothing looser.
pub open spec fn is_http_url(s: Seq<char>) -> bool {
    (s.len() >= 7 && s.take(7) == "http://"@) || (s.len() >= 8 && s.take(8) == "https://"@)
}

/// Decides whether `url` begins with the http(s) scheme.
pub fn has_http_scheme(url: &str) -> (r: bool)
    ensures
        r == is_http_url(url@),
{
    proof {
        reveal_strlit("http://");
        reveal_strlit("https://");
    }
    let n = url.unicode_len();
    let http = n >= 7 && url.get_char(0) == 'h' && url.get_char(1) == 't' && url.get_char(2)
        == 't' && url.get_char(3) == 'p' && url.get_char(4) == ':' && url.get_char(5) == '/'
        && url.get_char(6) == '/';
    let https = n >= 8 && url.get_char(0) == 'h' && url.get_char(1) == 't' && url.get_char(2)
        == 't' && url.get_char(3) == 'p' && url.get_char(4) == 's' && url.get_char(5) == ':'
        && url.get_char(6) == '/' && url.get_char(7) == '/';
    proof {
        if n >= 7 {
            let t = url@.take(7);
            assert(t[0] == url@[0]);
            assert(t[1] == url@[1]);
            assert(t[2] == url@[2]);
            assert(t[3] == url@[3]);
            assert(t[4] == url@[4]);
            assert(t[5] == url@[5]);
            assert(t[6] == url@[6]);
            if http {
                assert(t =~= "http://"@);
            } else {
                assert(t != "http://"@);
            }
        }
        if n >= 8 {
            let u = url@.take(8);
            assert(u[0] == url@[0]);
            assert(u[1] == url@[1]);
            assert(u[2] == url@[2]);
            assert(u[3] == url@[3]);
            assert(u[4] == url@[4]);
            assert(u[5] == url@[5]);
            assert(u[6] == url@[6]);
            assert(u[7] == url@[7]);
            if https {
                assert(u =~= "https://"@);
            } else {
                assert(u != "https://"@);
            }
        }
    }
    http || https
}

/// The ephemeral result of resolving one item's detail record: the
/// direct artifact URL, if an acceptable one was present, and the
/// advertised version, if any.
pub struct ResolvedLink {
    pub url: Option<String>,
    pub version: Option<String>,
}

/// Mathematical view of a [`ResolvedLink`].
pub ghost struct ResolvedLinkView {
    pub url: Option<Seq<char>>,
    pub version: Option<Seq<char>>,
}

impl View for ResolvedLink {
    type V = ResolvedLinkView;

    open spec fn view(&self) -> ResolvedLinkView {
        ResolvedLinkView { url: opt_str_view(self.url), version: opt_str_view(self.version) }
    }
}

/// What resolution returns for given detail fields: the link survives
/// exactly when present and carrying the http(s) scheme marker.
pub open spec fn resolved_view(
    download_link: Option<Seq<char>>,
    version: Option<Seq<char>>,
) -> ResolvedLinkView {
    ResolvedLinkView {
        url: match download_link {
            Some(dl) => if is_http_url(dl) {
                Some(dl)
            } else {
                None
            },
            None => None,
        },
        version,
    }
}

/// Turns the raw `download_link` and `version` fields of an item's
/// detail record into a validated [`ResolvedLink`].
pub fn resolve_fields(download_link: Option<String>, version: Option<String>) -> (r: ResolvedLink)
    ensures
        r@ == resolved_view(opt_str_view(download_link), opt_str_view(version)),
{
    match download_link {
        Some(dl) => {
            if has_http_scheme(dl.as_str()) {
                ResolvedLink { url: Some(dl), version }
            } else {
                ResolvedLink { url: None, version }
            }
        },
        None => ResolvedLink { url: None, version },
    }
}

} // verus!
