//! Finding elements in markup. The markup is parsed and queried by the
//! `scraper` crate; nothing in this file is proved.

use crate::text::string_views;
use vstd::prelude::*;

verus! {

/// For the text `html` read as an HTML document and the CSS selector `css`:
/// the inner markup of each element of the document that matches the
/// selector, in the order in which `scraper` finds them. Empty where `css` is
/// no selector.
pub uninterp spec fn selection(html: Seq<char>, css: Seq<char>) -> Seq<Seq<char>>;

/// For the text `html` read as an HTML document and the CSS selectors `outer`
/// and `inner`: for each element of the document that matches `outer`, the
/// inner markup of each of its descendants that matches `inner`. Empty where
/// one of the two is no selector.
pub uninterp spec fn nested_selection(
    html: Seq<char>,
    outer: Seq<char>,
    inner: Seq<char>,
) -> Seq<Seq<Seq<char>>>;

/// The character sequences that the rows of strings in `rows` hold.
pub open spec fn row_views(rows: Seq<Vec<String>>) -> Seq<Seq<Seq<char>>> {
    Seq::new(rows.len(), |i: int| string_views(rows[i]@))
}

/// The inner markup of the elements of `html` that match `css`. Trusted:
/// `scraper::Html::parse_document` builds the tree, `scraper::Selector::parse`
/// reads the selector, `Html::select` walks the matching elements and
/// `ElementRef::inner_html` serialises the children of each. The result
/// depends on the two texts alone, which is all the contract says; a selector
/// that does not parse yields nothing.
#[verifier::external_body]
pub(crate) fn select_fragments(html: &str, css: &str) -> (found: Vec<String>)
    ensures
        string_views(found@) == selection(html@, css@),
{
    let document = scraper::Html::parse_document(html);
    match scraper::Selector::parse(css) {
        Ok(selector) => document.select(&selector).map(|element| element.inner_html()).collect(),
        Err(_) => Vec::new(),
    }
}

/// For each element of `html` that matches `outer`, the inner markup of its
/// descendants that match `inner`. Trusted: as `select_fragments`, with
/// `ElementRef::select` walking the descendants of each outer element.
#[verifier::external_body]
pub(crate) fn select_nested(html: &str, outer: &str, inner: &str) -> (found: Vec<Vec<String>>)
    ensures
        row_views(found@) == nested_selection(html@, outer@, inner@),
{
    let document = scraper::Html::parse_document(html);
    match (scraper::Selector::parse(outer), scraper::Selector::parse(inner)) {
        (Ok(outer), Ok(inner)) => document.select(&outer).map(
            |element| element.select(&inner).map(|cell| cell.inner_html()).collect(),
        ).collect(),
        _ => Vec::new(),
    }
}

} // verus!
