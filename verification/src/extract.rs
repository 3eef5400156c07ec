//! Link extraction, done by the `linkify` crate.

use vstd::prelude::*;
use crate::filter::texts;

verus! {

/// What `linkify` finds in a text when it looks for URLs only, with its other
/// settings as `LinkFinder::new` leaves them: the URLs in the order in which
/// they stand in the text, repeats included.
pub uninterp spec fn linkify_urls(text: Seq<char>) -> Seq<Seq<char>>;

/// `LinkFinder::links` of `linkify`, on a finder made by `LinkFinder::new` and
/// narrowed to URLs by `LinkFinder::kinds`. Trusted: the links that come back
/// depend on the text alone.
#[verifier::external_body]
pub(crate) fn find_urls(text: &str) -> (found: Vec<String>)
    ensures
        texts(found@) == linkify_urls(text@),
{
    let mut finder = linkify::LinkFinder::new();
    finder.kinds(&[linkify::LinkKind::Url]);
    let mut found = Vec::new();
    for link in finder.links(text) {
        found.push(String::from(link.as_str()));
    }
    found
}

} // verus!
