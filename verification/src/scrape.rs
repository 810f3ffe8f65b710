//! Selecting elements of an HTML document with the `scraper` crate.

use vstd::prelude::*;

verus! {

/// An element picked out of a document: its text (all text below it, joined in
/// the order of the parsed tree) and the value of one of its attributes, if it has it.
#[derive(Clone, Debug, PartialEq, Eq)]
pub struct ElementData {
    pub text: String,
    pub attribute: Option<String>,
}

/// The value of an optional string.
pub open spec fn opt_string_view(o: Option<String>) -> Option<Seq<char>> {
    match o {
        Some(s) => Some(s@),
        None => None,
    }
}

/// An element as values: its text and its attribute.
pub open spec fn element_view(e: ElementData) -> (Seq<char>, Option<Seq<char>>) {
    (e.text@, opt_string_view(e.attribute))
}

/// A sequence of elements as values.
pub open spec fn element_views(s: Seq<ElementData>) -> Seq<(Seq<char>, Option<Seq<char>>)> {
    s.map_values(|e: ElementData| element_view(e))
}

/// What `scraper` selects in a document: `None` when the selector does not
/// parse; otherwise, for each element that matches the selector, in the order
/// `Html::select` yields them (the order in which the parser created the
/// nodes), its text and the value of the named attribute.
pub uninterp spec fn css_select(
    document: Seq<char>,
    selector: Seq<char>,
    attribute: Seq<char>,
) -> Option<Seq<(Seq<char>, Option<Seq<char>>)>>;

/// Parses `document` with `scraper::Html::parse_document` and `selector` with
/// `scraper::Selector::parse`, and lists the elements that `Html::select`
/// yields, each with the text of `ElementRef::text` joined together and the
/// value of `ElementRef::attr(attribute)`.
/// Claimed: the outcome is the named result `css_select` of the three
/// arguments, `None` exactly when the selector is refused. Parsing HTML does
/// not fail in `scraper`: a malformed document is repaired, never refused.
#[verifier::external_body]
pub(crate) fn select_elements(document: &str, selector: &str, attribute: &str) -> (res: Option<
    Vec<ElementData>,
>)
    ensures
        res is None <==> css_select(document@, selector@, attribute@) is None,
        res matches Some(v) ==> css_select(document@, selector@, attribute@) == Some(
            element_views(v@),
        ),
{
    let html = scraper::Html::parse_document(document);
    let parsed = match scraper::Selector::parse(selector) {
        Ok(s) => s,
        Err(_) => return None,
    };
    let mut found = Vec::new();
    for element in html.select(&parsed) {
        let value = match element.attr(attribute) {
            Some(v) => Some(v.to_string()),
            None => None,
        };
        found.push(ElementData { text: element.text().collect::<String>(), attribute: value });
    }
    Some(found)
}

} // verus!
