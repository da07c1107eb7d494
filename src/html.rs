use vstd::prelude::*;

verus! {

/// The text views of a sequence of strings.
pub open spec fn views(v: Seq<String>) -> Seq<Seq<char>> {
    v.map_values(|s: String| s@)
}

/// The text view of an optional string.
pub open spec fn opt_view(o: Option<String>) -> Option<Seq<char>> {
    match o {
        Some(s) => Some(s@),
        None => None,
    }
}

/// The text views of a sequence of optional strings.
pub open spec fn opt_views(v: Seq<Option<String>>) -> Seq<Option<Seq<char>>> {
    v.map_values(|o: Option<String>| opt_view(o))
}

/// The text that a document yields for its first detail card: the concatenated
/// text of the card's headings, and the text of each of its description blocks.
pub struct CardText {
    pub heading: String,
    pub blocks: Vec<String>,
}

/// For a document, a CSS selector and an attribute name: the attribute of each
/// element that the selector matches, in document order (`None` for an element
/// without it); `None` as a whole where the selector does not parse.
pub uninterp spec fn selected_attrs(html: Seq<char>, selector: Seq<char>, attr: Seq<char>) -> Option<
    Seq<Option<Seq<char>>>,
>;

/// Relies on scraper's `Selector::parse`, `Html::parse_document`, `Html::select`
/// and `Element::attr`: the result depends on the three strings alone.
#[verifier::external_body]
pub(crate) fn select_attrs(html: &str, selector: &str, attr: &str) -> (r: Option<Vec<Option<String>>>)
    ensures
        match r {
            Some(v) => selected_attrs(html@, selector@, attr@) == Some(opt_views(v@)),
            None => selected_attrs(html@, selector@, attr@) is None,
        },
{
    let sel = scraper::Selector::parse(selector).ok()?;
    let doc = scraper::Html::parse_document(html);
    Some(doc.select(&sel).map(|e| e.value().attr(attr).map(|v| v.to_string())).collect())
}

/// For a document and three CSS selectors (card, heading, block): of the first
/// element that the card selector matches, the concatenated text of the
/// headings inside it and the text of each block inside it, in document order;
/// `Some(None)` where no element matches, `None` where a selector does not parse.
pub uninterp spec fn first_card_text(
    html: Seq<char>,
    card: Seq<char>,
    heading: Seq<char>,
    block: Seq<char>,
) -> Option<Option<(Seq<char>, Seq<Seq<char>>)>>;

/// The view of a card's text.
pub open spec fn card_view(c: Option<CardText>) -> Option<(Seq<char>, Seq<Seq<char>>)> {
    match c {
        Some(t) => Some((t.heading@, views(t.blocks@))),
        None => None,
    }
}

/// Relies on scraper's `Selector::parse`, `Html::parse_document`,
/// `Html::select`, `ElementRef::select` and `ElementRef::text`: the result
/// depends on the four strings alone.
#[verifier::external_body]
pub(crate) fn select_card_text(html: &str, card: &str, heading: &str, block: &str) -> (r: Option<Option<CardText>>)
    ensures
        match r {
            Some(c) => first_card_text(html@, card@, heading@, block@) == Some(card_view(c)),
            None => first_card_text(html@, card@, heading@, block@) is None,
        },
{
    let card_sel = scraper::Selector::parse(card).ok()?;
    let heading_sel = scraper::Selector::parse(heading).ok()?;
    let block_sel = scraper::Selector::parse(block).ok()?;
    let doc = scraper::Html::parse_document(html);
    let text = |e: scraper::ElementRef| e.text().collect::<String>();
    Some(doc.select(&card_sel).next().map(|c| CardText {
        heading: c.select(&heading_sel).map(text).collect(),
        blocks: c.select(&block_sel).map(text).collect(),
    }))
}

} // verus!
