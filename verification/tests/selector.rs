use readingtime::select::{extract_url, parse_url, Entity, EntityKind, Message, UrlError};
use readingtime::urlfind::find_urls;
use url::Url;

fn text_message(text: &str) -> Message {
    Message {
        entities: Vec::new(),
        caption_entities: Vec::new(),
        text: Some(text.to_string()),
        caption: None,
    }
}

fn link_entity(target: &str) -> Entity {
    Entity {
        kind: EntityKind::TextLink { url: Url::parse(target).unwrap() },
        offset: 0,
        length: 0,
    }
}

#[test]
fn empty_message_selects_nothing() {
    let msg = Message {
        entities: Vec::new(),
        caption_entities: Vec::new(),
        text: None,
        caption: None,
    };
    assert!(extract_url(&msg).is_none());
}

#[test]
fn first_text_match_wins() {
    let msg = text_message("Check this out https://example.com/a and also https://example.com/b");
    let picked = extract_url(&msg).unwrap().unwrap();
    assert_eq!(picked.as_str(), "https://example.com/a");
}

#[test]
fn entity_beats_text_match() {
    let mut msg = text_message("look at https://y.test please");
    msg.entities.push(link_entity("https://x.test"));
    let picked = extract_url(&msg).unwrap().unwrap();
    assert_eq!(picked, Url::parse("https://x.test").unwrap());
}

#[test]
fn body_entity_beats_caption_entity() {
    let msg = Message {
        entities: vec![link_entity("https://body.test")],
        caption_entities: vec![link_entity("https://caption.test")],
        text: None,
        caption: None,
    };
    let picked = extract_url(&msg).unwrap().unwrap();
    assert_eq!(picked, Url::parse("https://body.test").unwrap());
}

#[test]
fn other_entities_are_skipped() {
    let msg = Message {
        entities: vec![
            Entity { kind: EntityKind::Other, offset: 0, length: 4 },
            link_entity("https://second.test"),
        ],
        caption_entities: Vec::new(),
        text: None,
        caption: None,
    };
    let picked = extract_url(&msg).unwrap().unwrap();
    assert_eq!(picked, Url::parse("https://second.test").unwrap());
}

#[test]
fn caption_text_is_scanned_last() {
    let msg = Message {
        entities: Vec::new(),
        caption_entities: Vec::new(),
        text: None,
        caption: Some("photo of https://caption.test here".to_string()),
    };
    let picked = extract_url(&msg).unwrap().unwrap();
    assert_eq!(picked.as_str(), "https://caption.test/");
}

#[test]
fn find_urls_scans_leftmost_non_overlapping() {
    let found = find_urls("a https://one.test/x b http://two.org c");
    assert_eq!(found, vec!["https://one.test/x", "http://two.org"]);
    assert_eq!(find_urls("no links here"), Vec::<String>::new());
}

#[test]
fn tld_is_at_most_four_letters() {
    // the grammar asks for a 2-4 letter TLD at a word boundary, so a longer
    // final label keeps the candidate from matching at all
    assert_eq!(find_urls("https://one.example/x"), Vec::<String>::new());
}

#[test]
fn www_prefix_backtracks_into_host() {
    // with `www.` taken as prefix the remaining host is too short, so the
    // matcher backs up and matches it as part of the host instead
    assert_eq!(find_urls("see https://www.ab now"), vec!["https://www.ab"]);
    assert_eq!(find_urls("see https://www.example.org now"), vec![
        "https://www.example.org"
    ]);
}

#[test]
fn trailing_word_character_blocks_the_boundary() {
    // the TLD must end at a word boundary; an underscore right after keeps
    // every candidate length from matching
    assert_eq!(find_urls("https://example.co_"), Vec::<String>::new());
}

#[test]
fn scheme_must_be_complete() {
    assert_eq!(find_urls("httpx://example.com"), Vec::<String>::new());
    assert_eq!(find_urls("https:/example.com"), Vec::<String>::new());
}

#[test]
fn parse_url_keeps_match_order_and_flags_bad_candidates() {
    let results = parse_url("first https://ok.test/p then http://%%.ab end");
    assert_eq!(results.len(), 2);
    assert_eq!(results[0].as_ref().unwrap().as_str(), "https://ok.test/p");
    assert!(matches!(results[1], Err(UrlError::UrlParseFailed)));
}

#[test]
fn malformed_match_is_reported_not_skipped() {
    let msg = text_message("broken http://%%.ab and fine https://ok.example/p");
    let picked = extract_url(&msg).unwrap();
    assert!(matches!(picked, Err(UrlError::UrlParseFailed)));
}
