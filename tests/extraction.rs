use directory_crawler::html::CardText;
use directory_crawler::links::{extract_enterprise_links, extract_pagination_links, keep_absolute};
use directory_crawler::record::{
    enterprise_from_card, extract_enterprise_data, field_from_blocks, Enterprise, ADDRESS_LABEL, CONTACT_LABEL,
    EMAIL_LABEL, PHONE_LABEL,
};
use directory_crawler::text::{find_first, label_tail};

fn strings(v: &[&str]) -> Vec<String> {
    v.iter().map(|s| s.to_string()).collect()
}

#[test]
fn label_tail_runs_to_end_of_blob() {
    let blob = "Domicilio: 123 Main St Teléfono: 555-1234";
    assert_eq!(label_tail(blob, "Domicilio"), Some(": 123 Main St Teléfono: 555-1234".to_string()));
    assert_eq!(label_tail(blob, "Teléfono"), Some(": 555-1234".to_string()));
    assert_eq!(label_tail(blob, "Correo electrónico"), None);
}

#[test]
fn label_tail_takes_first_occurrence() {
    assert_eq!(label_tail("ab x ab y", "ab"), Some(" x ab y".to_string()));
    assert_eq!(label_tail("ab", "ab"), Some(String::new()));
    assert_eq!(label_tail("", "ab"), None);
}

#[test]
fn find_first_counts_characters() {
    assert_eq!(find_first("éé abc", "abc"), Some(3));
    assert_eq!(find_first("abc", ""), Some(0));
    assert_eq!(find_first("abc", "abcd"), None);
    assert_eq!(find_first("aab", "ab"), Some(1));
}

#[test]
fn fields_slice_whole_tail_of_shared_blob() {
    let blocks = strings(&["Domicilio 123 Main St Teléfono 555-1234"]);
    assert_eq!(field_from_blocks(&blocks, ADDRESS_LABEL), "123 Main St Teléfono 555-1234");
    assert_eq!(field_from_blocks(&blocks, PHONE_LABEL), "555-1234");
    assert_eq!(field_from_blocks(&blocks, EMAIL_LABEL), "");
}

#[test]
fn fields_from_separate_blocks() {
    let blocks = strings(&[
        "\n Domicilio\n  Calle 1  ",
        "Teléfono 555",
        "Correo electrónico a@b.example",
        "Persona de contacto  Ana ",
    ]);
    assert_eq!(field_from_blocks(&blocks, ADDRESS_LABEL), "Calle 1");
    assert_eq!(field_from_blocks(&blocks, PHONE_LABEL), "555");
    assert_eq!(field_from_blocks(&blocks, EMAIL_LABEL), "a@b.example");
    assert_eq!(field_from_blocks(&blocks, CONTACT_LABEL), "Ana");
}

#[test]
fn later_block_overrides_earlier() {
    let blocks = strings(&["Teléfono 1", "Teléfono 2"]);
    assert_eq!(field_from_blocks(&blocks, PHONE_LABEL), "2");
    assert_eq!(field_from_blocks(&Vec::new(), PHONE_LABEL), "");
}

#[test]
fn record_from_card_trims_name() {
    let card = CardText { heading: "  Acme S.A.\n".to_string(), blocks: strings(&["Email nothing"]) };
    let e = enterprise_from_card(&card);
    assert_eq!(e.name, "Acme S.A.");
    assert_eq!(e.address, "");
    assert_eq!(e.phone, "");
    assert_eq!(e.email, "");
    assert_eq!(e.contact_person, "");
}

#[test]
fn new_enterprise_is_empty() {
    let e = Enterprise::new();
    assert!(e.name.is_empty() && e.address.is_empty() && e.phone.is_empty());
    assert!(e.email.is_empty() && e.contact_person.is_empty());
}

#[test]
fn keep_absolute_drops_relative_and_missing() {
    let hrefs = vec![
        Some("/relative".to_string()),
        Some("javascript:void(0)".to_string()),
        Some("https://ok.example/x".to_string()),
        None,
        Some("".to_string()),
        Some("http://a.example/".to_string()),
        Some("http:/bad".to_string()),
    ];
    assert_eq!(keep_absolute(&hrefs), strings(&["https://ok.example/x", "http://a.example/"]));
}

#[test]
fn pagination_links_only_absolute() {
    let page = r#"<html><body>
        <ul class="pager lfr-pagination-buttons">
          <li><a href="/relative">1</a></li>
          <li><a href="javascript:void(0)">2</a></li>
          <li><a href="https://ok.example/x">3</a></li>
        </ul>
        <a href="https://elsewhere.example/">outside</a>
        </body></html>"#;
    assert_eq!(extract_pagination_links(page), strings(&["https://ok.example/x"]));
    assert!(extract_enterprise_links(page).is_empty());
}

#[test]
fn enterprise_links_keep_duplicates_in_order() {
    let page = r#"<div>
        <a class="lm" href="https://d.example/2">b</a>
        <a class="lm" href="https://d.example/1">a</a>
        <a class="other" href="https://d.example/3">c</a>
        <a class="lm" href="https://d.example/2">b</a>
        <a class="lm" href="/4">d</a>
        </div>"#;
    assert_eq!(
        extract_enterprise_links(page),
        strings(&["https://d.example/2", "https://d.example/1", "https://d.example/2"])
    );
    assert!(extract_pagination_links(page).is_empty());
}

#[test]
fn detail_page_gives_record() {
    let page = r#"<html><body><div class="socios-panel-lat">
        <h2 class="tit-soc"> Acme <b>Tools</b> </h2>
        <div class="socios-descripcion"><strong>Domicilio</strong> Calle 1</div>
        <div class="socios-descripcion"><strong>Teléfono</strong> 555-1234</div>
        <div class="socios-descripcion"><strong>Correo electrónico</strong> info@acme.example</div>
        <div class="socios-descripcion"><strong>Persona de contacto</strong> Ana Pérez</div>
        </div></body></html>"#;
    let e = extract_enterprise_data(page).expect("a detail card");
    assert_eq!(e.name, "Acme Tools");
    assert_eq!(e.address, "Calle 1");
    assert_eq!(e.phone, "555-1234");
    assert_eq!(e.email, "info@acme.example");
    assert_eq!(e.contact_person, "Ana Pérez");
}

#[test]
fn listing_page_gives_no_record() {
    let page = r#"<html><body><div class="socios-descripcion">Domicilio x</div></body></html>"#;
    assert!(extract_enterprise_data(page).is_none());
    assert!(extract_enterprise_data("").is_none());
}

#[test]
fn trim_removes_unicode_white_space() {
    let card = CardText { heading: "\u{a0}\t Acme \u{3000}\n".to_string(), blocks: strings(&["Teléfono\u{2003}555\u{85}"]) };
    let e = enterprise_from_card(&card);
    assert_eq!(e.name, "Acme");
    assert_eq!(e.phone, "555");
}
