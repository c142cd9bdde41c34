use itaots::catalog::{catalog_entries, parse_response, search_url, CatalogError};
use itaots::matching::{matches_upper, parse, resolve};
use itaots::query::build_query;
use itaots::reply::{format_bulletpoint, format_reply, get_footer, parse_request, reply_content, reply_lines};

fn pair(artist: &str, title: &str) -> (String, String) {
    (artist.to_string(), title.to_string())
}

#[test]
fn query_drops_punctuation() {
    assert_eq!(build_query("V:D:C."), "V* D* C*");
}

#[test]
fn query_of_plain_acronym() {
    assert_eq!(build_query("ITAOTS"), "I* T* A* O* T* S*");
}

#[test]
fn query_of_empty_and_punctuation_only() {
    assert_eq!(build_query(""), "");
    assert_eq!(build_query(":.!"), "");
}

#[test]
fn query_keeps_digits_and_unicode_letters() {
    assert_eq!(build_query("a1é"), "a* 1* é*");
}

#[test]
fn query_charset_holds() {
    for acronym in ["V:D:C.", "a-b_c", "?!x y\t", "ÉTÉ#2", "**"] {
        let q = build_query(acronym);
        assert!(q
            .chars()
            .all(|c| c.is_alphanumeric() || c.is_whitespace() || c == '*'));
    }
}

#[test]
fn matching_rule_examples() {
    assert!(itaots::matching::matches("Since I Left You", "SILY"));
    assert!(itaots::matching::matches("The Lonesome Crowded West", "TLCW"));
    assert!(!itaots::matching::matches("Since I Left You", "SILX"));
}

#[test]
fn matching_uppercases_the_title() {
    assert!(itaots::matching::matches("since i left you", "SILY"));
    assert!(!itaots::matching::matches("since i left you", "sily"));
}

#[test]
fn matching_fails_closed_on_empty_words() {
    assert!(!itaots::matching::matches(" Since I Left You", "SILY"));
    assert!(!itaots::matching::matches("Since I Left You ", "SILY"));
    assert!(!itaots::matching::matches("Since  I Left You", "SILY"));
    assert!(!itaots::matching::matches("", ""));
}

#[test]
fn matching_on_uppercased_title() {
    assert!(matches_upper("IN THE AEROPLANE OVER THE SEA", "ITAOTS"));
    assert!(!matches_upper("IN THE AEROPLANE", "ITAOTS"));
}

#[test]
fn parse_keeps_matches_in_order() {
    let results = vec![
        pair("A", "No Match Title"),
        pair("B", "Since I Left You"),
        pair("C", "Sunny Is Lovely Yes"),
    ];
    let kept = parse(&results, "SILY");
    assert_eq!(kept, vec![pair("B", "Since I Left You"), pair("C", "Sunny Is Lovely Yes")]);
}

#[test]
fn resolve_takes_first_match() {
    let results = vec![pair("A", "No Match Title"), pair("B", "Since I Left You")];
    assert_eq!(resolve(&results, "SILY"), Some(pair("B", "Since I Left You")));
    assert_eq!(resolve(&results, "sily"), Some(pair("B", "Since I Left You")));
    assert_eq!(resolve(&results, "TLCW"), None);
    assert_eq!(resolve(&Vec::new(), "SILY"), None);
}

#[test]
fn resolve_is_deterministic() {
    let results = vec![pair("A", "No Match Title"), pair("B", "Since I Left You")];
    let first = resolve(&results, "SILY");
    let second = resolve(&results, "SILY");
    assert_eq!(first, second);
}

#[test]
fn bulletpoint_shape() {
    let line = format_bulletpoint(&pair("The Avalanches", "Since I Left You"), "SILY");
    assert_eq!(line, "💿 **SILY** is **Since I Left You** by The Avalanches");
}

#[test]
fn reply_joining() {
    assert_eq!(format_reply(&Vec::new()), "");
    assert_eq!(
        format_reply(&vec!["L1".to_string(), "L2".to_string()]),
        "L1  \n\nL2  \n\n"
    );
}

#[test]
fn footer_text() {
    assert_eq!(
        get_footer(),
        "✍️ [Usage](https://github.com/aquelemiguel/itaots-reddit#usage) | 🐛 [Report issues](https://github.com/aquelemiguel/itaots-reddit/issues) | ⭐️ [GitHub](https://github.com/aquelemiguel/itaots-reddit)"
    );
}

#[test]
fn request_tokens() {
    assert_eq!(parse_request("@bot sily TLCW"), vec!["SILY".to_string(), "TLCW".to_string()]);
    assert_eq!(parse_request("@bot SILY SILY"), vec!["SILY".to_string(), "SILY".to_string()]);
    assert_eq!(parse_request("@bot"), Vec::<String>::new());
    assert_eq!(parse_request("@bot  x"), vec!["".to_string(), "X".to_string()]);
}

#[test]
fn orchestrator_keeps_order_and_skips_unresolved() {
    let acronyms = parse_request("@bot SILY TLCW");
    let outcomes = vec![Ok(Some(pair("The Avalanches", "Since I Left You"))), Ok(None)];
    let lines = reply_lines(&acronyms, &outcomes);
    assert_eq!(lines, vec!["💿 **SILY** is **Since I Left You** by The Avalanches".to_string()]);
}

#[test]
fn orchestrator_skips_failed_resolution() {
    let acronyms = parse_request("@bot TLCW SILY");
    let outcomes = vec![
        Err(CatalogError::Transport),
        Ok(Some(pair("The Avalanches", "Since I Left You"))),
    ];
    let lines = reply_lines(&acronyms, &outcomes);
    assert_eq!(lines.len(), 1);
    assert!(lines[0].starts_with("💿 **SILY**"));
}

#[test]
fn orchestrator_reply_body() {
    let acronyms = parse_request("@bot SILY TLCW");
    let outcomes = vec![Ok(Some(pair("The Avalanches", "Since I Left You"))), Ok(None)];
    let body = reply_content(&reply_lines(&acronyms, &outcomes)).unwrap();
    assert_eq!(body, "💿 **SILY** is **Since I Left You** by The Avalanches  \n\n");
}

#[test]
fn reply_content_posts_only_with_lines() {
    assert_eq!(reply_content(&Vec::new()), None);
    let body = reply_content(&vec!["L1".to_string()]).unwrap();
    assert_eq!(body, "L1  \n\n");
}

#[test]
fn catalog_empty_album_array() {
    let body = r#"{"results":{"albummatches":{"album":[]}}}"#;
    assert_eq!(parse_response(body), Ok(Vec::new()));
}

#[test]
fn catalog_missing_or_malformed_array() {
    assert_eq!(parse_response(r#"{"results":{"albummatches":{}}}"#), Ok(Vec::new()));
    assert_eq!(parse_response(r#"{}"#), Ok(Vec::new()));
    assert_eq!(parse_response(r#"[1, 2]"#), Ok(Vec::new()));
    assert_eq!(
        parse_response(r#"{"results":{"albummatches":{"album":[{"artist":"X","name":3}]}}}"#),
        Ok(Vec::new())
    );
    assert_eq!(parse_response(r#"{"results":{"albummatches":{"album":7}}}"#), Ok(Vec::new()));
    assert_eq!(
        parse_response(r#"{"results":{"albummatches":{"album":[{"artist":"X"}]}}}"#),
        Ok(Vec::new())
    );
}

#[test]
fn catalog_errors() {
    assert_eq!(parse_response("<html>"), Err(CatalogError::BadResponse));
    assert_eq!(
        parse_response(r#"{"error":6,"message":"Invalid parameters"}"#),
        Err(CatalogError::Service)
    );
    assert_eq!(
        parse_response(r#"{"error":10,"message":"Invalid API key","results":{"albummatches":{"album":[]}}}"#),
        Err(CatalogError::Service)
    );
}

#[test]
fn catalog_entries_trimmed_in_order() {
    let body = r#"{"results":{"albummatches":{"album":[
        {"artist":" The Avalanches ","name":"Since I Left You\n"},
        {"artist":"Modest Mouse","name":"  The Lonesome Crowded West"}]}}}"#;
    assert_eq!(
        parse_response(body),
        Ok(vec![
            pair("The Avalanches", "Since I Left You"),
            pair("Modest Mouse", "The Lonesome Crowded West")
        ])
    );
}

#[test]
fn catalog_records() {
    let records = vec![(Some(" a ".to_string()), Some("b\t".to_string()))];
    assert_eq!(catalog_entries(&records), vec![pair("a", "b")]);
    let incomplete = vec![
        (Some("a".to_string()), Some("b".to_string())),
        (None, Some("c".to_string())),
    ];
    assert_eq!(catalog_entries(&incomplete), Vec::new());
}

#[test]
fn search_request() {
    assert_eq!(search_url("", "k"), None);
    assert_eq!(
        search_url("S* I*", "k3y").unwrap(),
        "http://ws.audioscrobbler.com/2.0/?method=album.search&album=S* I*&api_key=k3y&format=json"
    );
}
