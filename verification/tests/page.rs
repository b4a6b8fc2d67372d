use webproxy::ascii::{ascii_eq_ignore_case, contains_ascii_case_insensitive, find_ignore_case};
use webproxy::bridge::{
    inject_state_bridge, rewrite_html, STATE_BRIDGE_SCRIPT_CLOSE, STATE_BRIDGE_SCRIPT_OPEN,
};
use webproxy::html::{find_meta_tag, find_start_tag, find_tag_end};
use webproxy::policy::strip_meta_frame_policies;
use webproxy::script::STATE_BRIDGE_SCRIPT;

fn element() -> String {
    format!("{}{}{}", STATE_BRIDGE_SCRIPT_OPEN, STATE_BRIDGE_SCRIPT, STATE_BRIDGE_SCRIPT_CLOSE)
}

#[test]
fn removes_meta_csp_without_touching_other_meta_tags() {
    let html = br#"<!doctype html><head>
      <meta charset="utf-8">
      <META content="default-src 'none' > x" HTTP-EQUIV='Content-Security-Policy'>
      <meta name="description" content="content-security-policy">
    </head><body>ok</body>"#;
    let (html, changed) = strip_meta_frame_policies(html);
    let html = String::from_utf8(html).unwrap();
    assert!(changed);
    assert!(!html.contains("HTTP-EQUIV='Content-Security-Policy'"));
    assert!(html.contains("<meta charset=\"utf-8\">"));
    assert!(html.contains("name=\"description\""));
}

#[test]
fn injects_state_bridge_at_start_of_head() {
    let html = br#"<!doctype html><html><head><title>Hello</title></head><body>ok</body></html>"#;
    let (html, changed) = rewrite_html(html);
    let html = String::from_utf8(html).unwrap();

    assert!(changed);
    let head = html.find("<head>").unwrap();
    let bridge = html.find("data-webproxy-state-bridge").unwrap();
    let title = html.find("<title>Hello</title>").unwrap();
    assert!(head < bridge && bridge < title);
}

#[test]
fn does_not_inject_state_bridge_twice() {
    let html = br#"<!doctype html><head><script data-webproxy-state-bridge></script></head>"#;
    let (html, changed) = inject_state_bridge(html);
    let html = String::from_utf8(html).unwrap();

    assert!(!changed);
    assert_eq!(html.matches("data-webproxy-state-bridge").count(), 1);
}

#[test]
fn injects_state_bridge_after_html_when_head_is_missing() {
    let html = br#"<!doctype html><html><body>ok</body></html>"#;
    let (html, changed) = inject_state_bridge(html);
    let html = String::from_utf8(html).unwrap();

    assert!(changed);
    let html_tag = html.find("<html>").unwrap();
    let bridge = html.find("data-webproxy-state-bridge").unwrap();
    let body = html.find("<body>").unwrap();
    assert!(html_tag < bridge && bridge < body);
}

#[test]
fn bridge_script_must_not_close_script_element() {
    assert!(
        !STATE_BRIDGE_SCRIPT.to_ascii_lowercase().contains("</script"),
        "webproxy_bridge.js must not contain a literal </script"
    );
}

#[test]
fn compares_ascii_letters_only() {
    assert!(ascii_eq_ignore_case(b"HTTP-Equiv", b"http-equiv"));
    assert!(!ascii_eq_ignore_case(b"http", b"https"));
    // The bytes next to the letters are not letters.
    assert!(!ascii_eq_ignore_case(b"@", b"`"));
    assert!(!ascii_eq_ignore_case(b"[", b"{"));
    assert!(!ascii_eq_ignore_case(&[0xc4], &[0xe4]));
    assert!(ascii_eq_ignore_case(b"", b""));
}

#[test]
fn finds_text_in_any_case() {
    assert!(contains_ascii_case_insensitive(b"a X-Frame-OPTIONS b", b"x-frame-options"));
    assert!(!contains_ascii_case_insensitive(b"x-frame", b"x-frame-options"));
    assert!(!contains_ascii_case_insensitive(b"", b"a"));
    assert_eq!(find_ignore_case(b"abAB", b"ab", 1), Some(2));
    assert_eq!(find_ignore_case(b"abAB", b"ab", 3), None);
    assert_eq!(find_ignore_case(b"abAB", b"ab", 99), None);
}

#[test]
fn a_start_tag_ends_its_name() {
    assert_eq!(find_start_tag(b"<header><HEAD\tx>", b"<head"), Some(8));
    assert_eq!(find_start_tag(b"<head/>", b"<head"), Some(0));
    assert_eq!(find_start_tag(b"x<head", b"<head"), Some(1));
    assert_eq!(find_start_tag(b"<heading>", b"<head"), None);
    // Occurrences that overlap the one before are skipped.
    assert_eq!(find_start_tag(b"aaa ", b"aa"), None);
    assert_eq!(find_start_tag(b"aa ", b"aa"), Some(0));
}

#[test]
fn meta_tags_are_found_from_a_position_on() {
    assert_eq!(find_meta_tag(b"<meta a><META b>", 0), Some(0));
    assert_eq!(find_meta_tag(b"<meta a><META b>", 1), Some(8));
    assert_eq!(find_meta_tag(b"<metadata><meta\n>", 0), Some(10));
    assert_eq!(find_meta_tag(b"<meta a>", 9), None);
    assert_eq!(find_meta_tag(b"<me", 0), None);
}

#[test]
fn quotes_hide_the_end_of_a_tag() {
    assert_eq!(find_tag_end(b"<a b='>' c=\">'\">x", 0), Some(15));
    assert_eq!(find_tag_end(b"<a b='>", 0), None);
    assert_eq!(find_tag_end(b"x>y>", 2), Some(3));
    assert_eq!(find_tag_end(b"x>", 2), None);
}

#[test]
fn every_policy_tag_is_removed() {
    let page = b"a<meta http-equiv=X-Frame-Options content=DENY>b<meta name=x>c<meta http-equiv=content-security-policy-report-only>d";
    let (left, changed) = strip_meta_frame_policies(page);
    assert_eq!(left, b"ab<meta name=x>cd".to_vec());
    assert!(changed);
}

#[test]
fn a_page_without_policies_is_kept() {
    let page = b"<meta http-equiv=refresh><meta name=content-security-policy>";
    let (left, changed) = strip_meta_frame_policies(page);
    assert_eq!(left, page.to_vec());
    assert!(!changed);
}

#[test]
fn an_unclosed_tag_ends_the_scan() {
    let page = b"<meta x='><meta http-equiv=x-frame-options>";
    let (left, changed) = strip_meta_frame_policies(page);
    assert_eq!(left, page.to_vec());
    assert!(!changed);
}

#[test]
fn stripping_twice_changes_nothing_more() {
    let page = b"<meta http-equiv=x-frame-options>a<meta http-equiv=x-frame-options>";
    let (once, _) = strip_meta_frame_policies(page);
    let (twice, changed) = strip_meta_frame_policies(&once);
    assert_eq!(once, twice);
    assert!(!changed);
}

#[test]
fn a_removal_can_join_a_new_tag() {
    let page = b"<me<meta http-equiv=x-frame-options>ta http-equiv=x-frame-options>";
    let (once, _) = strip_meta_frame_policies(page);
    assert_eq!(once, b"<meta http-equiv=x-frame-options>".to_vec());
    let (twice, changed) = strip_meta_frame_policies(&once);
    assert!(twice.is_empty());
    assert!(changed);
}

#[test]
fn a_joined_tag_without_a_policy_is_harmless() {
    let page = b"<me<meta http-equiv=x-frame-options>ta charset=a>";
    let (once, changed) = strip_meta_frame_policies(page);
    assert!(changed);
    assert_eq!(once, b"<meta charset=a>".to_vec());
    let (twice, changed) = strip_meta_frame_policies(&once);
    assert!(!changed);
    assert_eq!(twice, once);
}

#[test]
fn a_joined_tag_can_uncover_a_policy_behind_it() {
    let page = b"<me<meta http-equiv=x-frame-options>ta a=\"<meta b\"><meta x=\">\" http-equiv=x-frame-options>";
    let (once, _) = strip_meta_frame_policies(page);
    assert_eq!(
        once,
        b"<meta a=\"<meta b\"><meta x=\">\" http-equiv=x-frame-options>".to_vec()
    );
    let (twice, changed) = strip_meta_frame_policies(&once);
    assert!(changed);
    assert_eq!(twice, b"<meta a=\"<meta b\">".to_vec());
}

#[test]
fn the_whole_element_is_inserted() {
    let (page, changed) = inject_state_bridge(b"<HTML lang='>'><Head data-x=1>t</head>");
    assert!(changed);
    let expected = format!("<HTML lang='>'><Head data-x=1>{}t</head>", element());
    assert_eq!(String::from_utf8(page).unwrap(), expected);
}

#[test]
fn an_unclosed_head_falls_back_to_html() {
    let (page, _) = inject_state_bridge(b"<html><head '");
    assert_eq!(String::from_utf8(page).unwrap(), format!("<html>{}<head '", element()));
}

#[test]
fn a_fragment_gets_the_element_in_front() {
    let (page, changed) = inject_state_bridge(b"plain");
    assert!(changed);
    assert_eq!(String::from_utf8(page).unwrap(), format!("{}plain", element()));
}

#[test]
fn a_marker_in_text_does_not_prevent_injection() {
    let (_, changed) = inject_state_bridge(b"<p>data-webproxy-state-bridge</p>");
    assert!(changed);
    let (_, changed) = inject_state_bridge(b"<SCRIPT DATA-webproxy-state-bridge>");
    assert!(!changed);
}

#[test]
fn rewriting_twice_changes_nothing_more() {
    let (once, _) = rewrite_html(b"<head><meta http-equiv=x-frame-options></head>");
    let (twice, changed) = rewrite_html(&once);
    assert_eq!(once, twice);
    assert!(!changed);
}

#[test]
fn rewritten_pages_declare_no_policy() {
    let pages: [&[u8]; 6] = [
        b"<head><meta http-equiv=x-frame-options content=DENY></head>",
        b"<meta http-equiv=content-security-policy><p>no head</p>",
        b"<meta name='<head>' x><meta http-equiv=x-frame-options>",
        b"<meta name=\"<head>\" x><meta http-equiv=x-frame-options>",
        b"<meta name='<head><meta http-equiv=x-frame-options>",
        b"<html><met<head>a http-equiv=x-frame-options>",
    ];
    for page in pages {
        let (rewritten, changed) = rewrite_html(page);
        assert!(changed);
        let (left, has_policy) = strip_meta_frame_policies(&rewritten);
        assert!(!has_policy, "{}", String::from_utf8_lossy(page));
        assert_eq!(left, rewritten);
    }
}

#[test]
fn a_head_in_an_attribute_takes_the_element() {
    let (page, changed) = rewrite_html(b"<meta name='<head>' x><meta http-equiv=x-frame-options>");
    assert!(changed);
    let expected = format!("<meta name='<head>{}' x>", element());
    assert_eq!(String::from_utf8(page).unwrap(), expected);
}

#[test]
fn the_script_holds_no_quotes() {
    assert!(!STATE_BRIDGE_SCRIPT.contains('\''));
    assert!(!STATE_BRIDGE_SCRIPT.contains('"'));
}
