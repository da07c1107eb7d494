use vstd::prelude::*;

use crate::html::{first_card_text, select_card_text, views, CardText};
use crate::text::{label_tail, tail_after, trim_text, trimmed};

verus! {

/// Selects a member's detail card.
pub const CARD: &'static str = "div[class=\"socios-panel-lat\"]";

/// Selects the heading that holds the member's name, inside a card.
pub const NAME_HEADING: &'static str = "h2[class=\"tit-soc\"]";

/// Selects the description blocks inside a card.
pub const DESCRIPTION: &'static str = "div[class=\"socios-descripcion\"]";

/// The label in front of the address.
pub const ADDRESS_LABEL: &'static str = "Domicilio";

/// The label in front of the phone number.
pub const PHONE_LABEL: &'static str = "Teléfono";

/// The label in front of the email address.
pub const EMAIL_LABEL: &'static str = "Correo electrónico";

/// The label in front of the contact person.
pub const CONTACT_LABEL: &'static str = "Persona de contacto";

/// One member of the directory, as read from its detail page.
#[derive(Debug)]
pub struct Enterprise {
    pub name: String,
    pub address: String,
    pub phone: String,
    pub email: String,
    pub contact_person: String,
}

impl Enterprise {
    /// A record with every field empty.
    pub fn new() -> (r: Self)
        ensures
            r.name@.len() == 0,
            r.address@.len() == 0,
            r.phone@.len() == 0,
            r.email@.len() == 0,
            r.contact_person@.len() == 0,
    {
        Self {
            name: String::new(),
            address: String::new(),
            phone: String::new(),
            email: String::new(),
            contact_person: String::new(),
        }
    }
}

/// The value of a labelled field over a card's description blocks: the last
/// block in which the label occurs decides, and gives the trimmed text after
/// the label up to the end of that block; empty where no block holds the label.
pub open spec fn field_value(blocks: Seq<Seq<char>>, label: Seq<char>) -> Seq<char>
    decreases blocks.len(),
{
    if blocks.len() == 0 {
        Seq::empty()
    } else {
        match tail_after(blocks.last(), label) {
            Some(t) => trimmed(t),
            None => field_value(blocks.drop_last(), label),
        }
    }
}

/// `e` is the record that a card with this heading text and these blocks gives.
pub open spec fn is_card_record(e: Enterprise, heading: Seq<char>, blocks: Seq<Seq<char>>) -> bool {
    &&& e.name@ == trimmed(heading)
    &&& e.address@ == field_value(blocks, ADDRESS_LABEL@)
    &&& e.phone@ == field_value(blocks, PHONE_LABEL@)
    &&& e.email@ == field_value(blocks, EMAIL_LABEL@)
    &&& e.contact_person@ == field_value(blocks, CONTACT_LABEL@)
}

/// The value of one labelled field over the description blocks.
pub fn field_from_blocks(blocks: &Vec<String>, label: &str) -> (r: String)
    ensures
        r@ == field_value(views(blocks@), label@),
{
    let mut r = String::new();
    let mut i: usize = 0;
    while i < blocks.len()
        invariant
            i <= blocks@.len(),
            r@ == field_value(views(blocks@.take(i as int)), label@),
        decreases blocks@.len() - i,
    {
        proof {
            assert(views(blocks@.take(i + 1)).drop_last() =~= views(blocks@.take(i as int)));
            assert(views(blocks@.take(i + 1)).last() == blocks@[i as int]@);
        }
        match label_tail(blocks[i].as_str(), label) {
            Some(t) => {
                r = trim_text(t.as_str());
            },
            None => {},
        }
        i = i + 1;
    }
    assert(blocks@.take(i as int) =~= blocks@);
    r
}

/// The record that a detail card's text gives: the trimmed heading as the
/// name, and each labelled field from the description blocks.
pub fn enterprise_from_card(card: &CardText) -> (r: Enterprise)
    ensures
        is_card_record(r, card.heading@, views(card.blocks@)),
{
    let mut e = Enterprise::new();
    e.name = trim_text(card.heading.as_str());
    e.address = field_from_blocks(&card.blocks, ADDRESS_LABEL);
    e.phone = field_from_blocks(&card.blocks, PHONE_LABEL);
    e.email = field_from_blocks(&card.blocks, EMAIL_LABEL);
    e.contact_person = field_from_blocks(&card.blocks, CONTACT_LABEL);
    e
}

/// The record of a detail page; `None` for a page without a detail card.
pub fn extract_enterprise_data(body: &str) -> (r: Option<Enterprise>)
    ensures
        match first_card_text(body@, CARD@, NAME_HEADING@, DESCRIPTION@) {
            Some(Some((heading, blocks))) => r matches Some(e) && is_card_record(e, heading, blocks),
            _ => r is None,
        },
{
    match select_card_text(body, CARD, NAME_HEADING, DESCRIPTION) {
        Some(Some(card)) => Some(enterprise_from_card(&card)),
        _ => None,
    }
}

} // verus!
