//! The search-redirect builder and the search handler's decision.
//!
//! Every query, whatever its command token, is sent to the same search
//! engine: the redirect target is the fixed search URL with the full raw
//! query percent-encoded under the fragment rule as its `q` parameter.

use crate::encoding::{
    decodes_unambiguously, encode_fragment, fragment_encoded, lemma_fragment_round_trip,
    percent_decoded,
};
use crate::query::{classify_query, ParsedQuery, SearchBy};
use vstd::prelude::*;
use vstd::string::*;
use vstd::utf8::encode_utf8;

verus! {

/// The search URL a query is redirected to: the fixed prefix, then the raw
/// query's UTF-8 bytes percent-encoded under the fragment rule.
pub open spec fn spec_search_url(q: Seq<char>) -> Seq<char> {
    "https://google.com/search?q="@ + fragment_encoded(encode_utf8(q))
}

/// Build the external search URL for a raw query. The whole raw query, not
/// only the part after its command token, becomes the `q` parameter.
pub fn construct_google_search_url(query: &str) -> (url: String)
    ensures
        url@ == spec_search_url(query@),
{
    let mut url = String::from_str("https://google.com/search?q=");
    let encoded_query = encode_fragment(query);
    url.append(encoded_query.as_str());
    url
}

/// The redirect target for a classified query: every dispatch form maps to
/// the same search URL today, and the match is the seam where a future
/// command would route elsewhere.
pub fn redirect_target(parsed: &ParsedQuery, raw: &str) -> (url: String)
    ensures
        url@ == spec_search_url(raw@),
{
    match parsed {
        _ => construct_google_search_url(raw),
    }
}

/// What the search handler signals to the HTTP boundary: a redirect status
/// and the target URL.
pub struct SearchRedirect {
    pub status: u16,
    pub location: String,
}

/// The search handler's decision: classify the query, then redirect, with
/// found-elsewhere semantics, to the search URL built from the full raw
/// query.
pub fn search(search_by: &SearchBy) -> (response: SearchRedirect)
    ensures
        response.status == 302,
        response.location@ == spec_search_url(search_by.query@),
{
    let parsed = classify_query(search_by.query.as_str());
    let location = redirect_target(&parsed, search_by.query.as_str());
    SearchRedirect { status: 302, location }
}

/// The redirect URL starts with the fixed search prefix, and what follows
/// the prefix percent-decodes back to the raw query's UTF-8 bytes, wherever
/// the query holds no `%` directly followed by two hexadecimal-digit bytes.
pub proof fn lemma_redirect_url_decodes_to_query(q: Seq<char>)
    requires
        decodes_unambiguously(encode_utf8(q)),
    ensures
        spec_search_url(q).len() >= 28,
        spec_search_url(q).subrange(0, 28) == "https://google.com/search?q="@,
        percent_decoded(spec_search_url(q).subrange(28, spec_search_url(q).len() as int))
            == encode_utf8(q),
{
    reveal_strlit("https://google.com/search?q=");
    let prefix = "https://google.com/search?q="@;
    assert(prefix.len() == 28);
    let url = spec_search_url(q);
    assert(url.subrange(0, 28) =~= prefix);
    assert(url.subrange(28, url.len() as int) =~= fragment_encoded(encode_utf8(q)));
    lemma_fragment_round_trip(encode_utf8(q));
}

} // verus!
