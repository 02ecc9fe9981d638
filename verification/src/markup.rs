//! HTML documents and CSS selectors: the parser and the selector engine of the `scraper`
//! crate, behind contracts that are stated but not proved.

use crate::text::text_views;
use scraper::error::SelectorErrorKind;
use scraper::{Html, Selector};
use vstd::prelude::*;
use vstd::string::*;

verus! {

/// `scraper::Html`, a parsed document, carried through verified code as an opaque value.
#[verifier::external_type_specification]
#[verifier::external_body]
pub struct ExHtml(scraper::Html);

/// `scraper::Selector`, a compiled selector group, carried through verified code as an
/// opaque value.
#[verifier::external_type_specification]
#[verifier::external_body]
pub struct ExSelector(scraper::Selector);

/// `scraper::error::SelectorErrorKind`, the reason why a selector was refused.
#[verifier::external_type_specification]
#[verifier::external_body]
pub struct ExSelectorErrorKind(scraper::error::SelectorErrorKind);

/// The document that `Html::parse_document` builds from `source`.
pub uninterp spec fn parsed_document(source: Seq<char>) -> Html;

/// The selector that `Selector::parse` builds from `text`, and `None` where it refuses
/// `text`.
pub uninterp spec fn parsed_selector(text: Seq<char>) -> Option<Selector>;

/// For each element of `document` that `selector` matches, in the order in which
/// `Html::select` yields them, the text nodes below the element put together.
pub uninterp spec fn selected_text(document: Html, selector: Selector) -> Seq<Seq<char>>;

/// For each element of `document` that `selector` matches, in the order in which
/// `Html::select` yields them, the value of its attribute `name`, and `None` where the
/// element has no such attribute.
pub uninterp spec fn selected_attr(document: Html, selector: Selector, name: Seq<char>) -> Seq<
    Option<Seq<char>>,
>;

/// The longest source, in bytes, that is handed to the parser. The parser keeps text in
/// buffers whose capacity it rounds up to a power of two in a `u32`, and it stops the
/// program when a buffer must hold more than 2^31 bytes, for which there is no such
/// power. It can put three bytes in the place of one (the replacement character for a
/// zero byte), so a source of a third of 2^31 bytes, rounded down, is safe.
pub const MAX_SOURCE_BYTES: usize = 715_827_882;

/// The views of a list of optional texts.
pub open spec fn option_views(values: Seq<Option<String>>) -> Seq<Option<Seq<char>>> {
    Seq::new(
        values.len(),
        |i: int|
            match values[i] {
                Some(value) => Some(value@),
                None => None,
            },
    )
}

/// Calls `Html::parse_document`. Parsing does not fail: what is no well-formed HTML is
/// repaired as browsers do. The same source always gives the same document. A source
/// beyond `MAX_SOURCE_BYTES` can make a buffer of the parser outgrow its limit, which
/// stops the program, so such a source is left out.
#[verifier::external_body]
pub(crate) fn parse_document(source: &str) -> (document: Html)
    requires
        source.len() <= MAX_SOURCE_BYTES,
    ensures
        document == parsed_document(source@),
{
    Html::parse_document(source)
}

/// Calls `Selector::parse`, which compiles a selector group or refuses it. The same
/// text always gives the same selector or is always refused.
#[verifier::external_body]
pub(crate) fn parse_selector(text: &str) -> (parsed: Result<Selector, SelectorErrorKind>)
    ensures
        match parsed {
            Ok(selector) => parsed_selector(text@) == Some(selector),
            Err(_) => parsed_selector(text@) is None,
        },
{
    Selector::parse(text)
}

/// Calls `Html::select` and, on each element that it yields, `ElementRef::text`, whose
/// pieces are put together into one text for the element.
#[verifier::external_body]
pub(crate) fn select_text(document: &Html, selector: &Selector) -> (texts: Vec<String>)
    ensures
        text_views(texts@) == selected_text(*document, *selector),
{
    document.select(selector).map(|element| element.text().collect::<String>()).collect()
}

/// Calls `Html::select` and, on each element that it yields, `Element::attr` with
/// `name`.
#[verifier::external_body]
pub(crate) fn select_attr(document: &Html, selector: &Selector, name: &str) -> (values: Vec<
    Option<String>,
>)
    ensures
        option_views(values@) == selected_attr(*document, *selector, name@),
{
    document.select(selector).map(|element| element.value().attr(name).map(String::from)).collect()
}

} // verus!
