use std::collections::HashMap;
use std::sync::Arc;
use wappalyzer::pattern::{check_text, strip_metadata};
use wappalyzer::wapp::{check, header_names_agree, App, AppsJsonData, Category, Cookie, RawData, Tech};
use wappalyzer::{analysis_of, WappError};

fn signature(cats: Vec<u32>) -> App {
    App {
        name: String::new(),
        cats,
        website: String::from("https://example.com"),
        priority: 0,
        html: vec![],
        headers: vec![],
        cookies: vec![],
        js: vec![],
        url: String::new(),
        meta: vec![],
        icon: String::new(),
        implies: vec![],
        excludes: vec![],
        script: vec![],
    }
}

fn pair(a: &str, b: &str) -> (String, String) {
    (String::from(a), String::from(b))
}

fn empty_page() -> RawData {
    RawData {
        headers: vec![],
        cookies: vec![],
        meta_tags: vec![],
        script_tags: vec![],
        html: String::new(),
    }
}

fn categories() -> HashMap<u32, Category> {
    let mut cats = HashMap::new();
    cats.insert(10, Category { name: String::from("Analytics"), priority: 9 });
    cats.insert(22, Category { name: String::from("Web Servers"), priority: 8 });
    cats.insert(23, Category { name: String::from("Cache Tools"), priority: 9 });
    cats
}

fn catalog(apps: Vec<(&str, App)>) -> AppsJsonData {
    let named = apps.into_iter().map(|(n, a)| (String::from(n), a)).collect();
    AppsJsonData::new(named, categories()).unwrap()
}

fn sorted(mut techs: Vec<Tech>) -> Vec<(String, String)> {
    let mut out: Vec<(String, String)> = techs.drain(..).map(|t| (t.name, t.category)).collect();
    out.sort();
    out
}

#[test]
fn test_check_text() {
    assert!(check_text("foo", "somefood"));
    assert!(!check_text("bar", "somefood"));
    assert!(check_text("[CK]amva", "Kamva"));
    assert!(!check_text("[CK]amva", "Lamva"));
    assert!(check_text(
        "cf\\.kampyle\\.com/k_button\\.js",
        "some cf.kampyle.com/k_button.js"
    ));
    assert!(!check_text(
        "cf\\.kampyle\\.com/k_button\\.js",
        "some cXf.kampyle.com/k_button.js"
    ));
    assert!(check_text(
        "optimizely\\.com.*\\.js",
        "cdn.optimizely.com/js/711892001.js"
    ));
    assert!(!check_text(
        "<link[^>]+?href=[^\"]/css/([\\d.]+)/bootstrap\\.(?:min\\.)?css\\;version:\\1",
        "cdn.optimizely.com/js/711892001.js"
    ));
}

#[test]
fn metadata_is_cut_at_first_delimiter() {
    assert_eq!(strip_metadata("^(.+)$\\;version:\\1"), "^(.+)$");
    assert_eq!(strip_metadata("a\\;b\\;c"), "a");
    assert_eq!(strip_metadata("plain"), "plain");
    assert_eq!(strip_metadata(""), "");
    assert_eq!(strip_metadata("\\;confidence:50"), "");
}

#[test]
fn metadata_never_changes_outcome() {
    assert_eq!(check_text("foo\\;version:\\1", "somefood"), check_text("foo", "somefood"));
    assert!(check_text("foo\\;(((", "somefood"));
    assert!(!check_text("bar\\;foo", "somefood"));
}

#[test]
fn invalid_pattern_never_hits() {
    assert!(!check_text("(", "("));
    assert!(!check_text("[a-", "anything [a-"));
    assert!(!check_text("(unclosed", ""));
}

#[test]
fn invalid_pattern_beside_valid_rule_still_matches() {
    let mut app = signature(vec![10]);
    app.html = vec![String::from("(broken"), String::from("<!-- Tag -->")];
    let mut page = empty_page();
    page.html = String::from("<html><!-- Tag --></html>");
    assert!(app.check(Arc::new(page)));
}

#[test]
fn header_names_ignore_ascii_case() {
    assert!(header_names_agree("Server", "server"));
    assert!(header_names_agree("X-VARNISH", "x-varnish"));
    assert!(!header_names_agree("Server", "servers"));
    assert!(!header_names_agree("Server", "Servex"));
}

#[test]
fn apache_header_scenario() {
    let mut app = signature(vec![22]);
    app.headers = vec![pair("Server", "(?:Apache(?:$|/([\\d.]+)|[^/-])|(?:^|\\b)HTTPD)\\;version:\\1")];
    let data = catalog(vec![("Apache", app)]);
    let mut page = empty_page();
    page.headers = vec![pair("server", "Apache/2.4.41 (Ubuntu)")];
    let found = check(Arc::new(page), &data);
    assert_eq!(found.len(), 1);
    assert_eq!(found[0].name, "Apache");
    assert_eq!(found[0].category, "Web Servers");
}

#[test]
fn meta_generator_scenario() {
    let mut app = signature(vec![10]);
    app.meta = vec![pair("generator", "WordPress")];
    let mut page = empty_page();
    page.meta_tags = vec![pair("generator", "WordPress 5.4")];
    assert!(app.check(Arc::new(page)));
}

#[test]
fn cookie_presence_scenario() {
    let mut app = signature(vec![23]);
    app.cookies = vec![pair("__cfduid", "")];
    let mut page = empty_page();
    page.cookies = vec![Cookie { name: String::from("__cfduid"), value: String::from("abc123") }];
    assert!(app.check(Arc::new(page)));
}

#[test]
fn cookie_presence_ignores_value() {
    let mut app = signature(vec![23]);
    app.cookies = vec![pair("_ga", "")];
    let mut page = empty_page();
    page.cookies = vec![Cookie { name: String::from("_ga"), value: String::new() }];
    assert!(app.check(Arc::new(page)));
    let mut other = empty_page();
    other.cookies = vec![Cookie { name: String::from("_gat"), value: String::from("1") }];
    assert!(!app.check(Arc::new(other)));
}

#[test]
fn first_cookie_of_a_name_decides() {
    let mut app = signature(vec![23]);
    app.cookies = vec![pair("sid", "^x")];
    let mut page = empty_page();
    page.cookies = vec![
        Cookie { name: String::from("sid"), value: String::from("abc") },
        Cookie { name: String::from("sid"), value: String::from("xyz") },
    ];
    assert!(!app.check(Arc::new(page)));
}

#[test]
fn script_token_scenario() {
    let mut app = signature(vec![10]);
    app.js = vec![pair("optimizely", "")];
    let mut page = empty_page();
    page.script_tags = vec![
        String::from("<script src=\"a.js\"></script>"),
        String::from("<script>window.optimizely = [];</script>"),
    ];
    assert!(app.check(Arc::new(page)));
}

#[test]
fn nothing_found_on_bare_page() {
    let mut html_app = signature(vec![10]);
    html_app.html = vec![String::from("googletagmanager\\.com")];
    let mut header_app = signature(vec![22]);
    header_app.headers = vec![pair("Server", "nginx")];
    let mut cookie_app = signature(vec![23]);
    cookie_app.cookies = vec![pair("__cfduid", "")];
    let data = catalog(vec![("GTM", html_app), ("Nginx", header_app), ("CloudFlare", cookie_app)]);
    let mut page = empty_page();
    page.html = String::from("<html><body>hello</body></html>");
    assert!(check(Arc::new(page), &data).is_empty());
}

#[test]
fn shared_category_is_not_deduplicated() {
    let mut a = signature(vec![10]);
    a.html = vec![String::from("alpha")];
    let mut b = signature(vec![10, 22]);
    b.html = vec![String::from("beta")];
    let data = catalog(vec![("Alpha", a), ("Beta", b)]);
    let mut page = empty_page();
    page.html = String::from("alpha beta");
    let found = sorted(check(Arc::new(page), &data));
    assert_eq!(
        found,
        vec![
            (String::from("Alpha"), String::from("Analytics")),
            (String::from("Beta"), String::from("Analytics")),
        ]
    );
}

#[test]
fn invalid_only_pattern_never_matches() {
    let mut broken = signature(vec![10]);
    broken.html = vec![String::from("([")];
    let mut fine = signature(vec![22]);
    fine.html = vec![String::from("ok")];
    let data = catalog(vec![("Broken", broken), ("Fine", fine)]);
    let mut page = empty_page();
    page.html = String::from("ok ([");
    let found = check(Arc::new(page), &data);
    assert_eq!(found.len(), 1);
    assert_eq!(found[0].name, "Fine");
    assert_eq!(found[0].category, "Web Servers");
}

#[test]
fn evaluation_is_repeatable() {
    let mut app = signature(vec![10]);
    app.html = vec![String::from("needle")];
    let mut page = empty_page();
    page.html = String::from("hay needle hay");
    let page = Arc::new(page);
    let first = app.check(page.clone());
    let second = app.check(page);
    assert!(first);
    assert_eq!(first, second);
}

#[test]
fn runs_find_the_same_set() {
    let mut a = signature(vec![10]);
    a.meta = vec![pair("generator", "Word")];
    let mut b = signature(vec![23]);
    b.headers = vec![pair("Via", "varnish")];
    let mut c = signature(vec![22]);
    c.html = vec![String::from("absent")];
    let data = catalog(vec![("A", a), ("B", b), ("C", c)]);
    let mut page = empty_page();
    page.meta_tags = vec![pair("generator", "WordPress")];
    page.headers = vec![pair("via", "1.1 varnish")];
    let page = Arc::new(page);
    let first = sorted(check(page.clone(), &data));
    let second = sorted(check(page, &data));
    assert_eq!(first, second);
    assert_eq!(
        first,
        vec![
            (String::from("A"), String::from("Analytics")),
            (String::from("B"), String::from("Cache Tools")),
        ]
    );
}

#[test]
fn catalog_names_each_signature_by_its_key() {
    let mut app = signature(vec![22]);
    app.name = String::from("stale");
    let data = catalog(vec![("Apache", app)]);
    assert_eq!(data.apps[0].name, "Apache");
    assert_eq!(data.apps[0].category_name(&data), "Web Servers");
    let tech = Tech::from(&data.apps[0], &data);
    assert_eq!(tech, Tech { name: String::from("Apache"), category: String::from("Web Servers") });
}

#[test]
fn catalog_rejects_repeated_names() {
    let twice = vec![(String::from("Same"), signature(vec![10])), (String::from("Same"), signature(vec![22]))];
    assert!(AppsJsonData::new(twice, categories()).is_none());
    let mut app = signature(vec![10]);
    app.headers = vec![pair("Server", "a"), pair("Server", "b")];
    assert!(AppsJsonData::new(vec![(String::from("Dup"), app)], categories()).is_none());
    let distinct = vec![(String::from("One"), signature(vec![10])), (String::from("Two"), signature(vec![10]))];
    assert!(AppsJsonData::new(distinct, categories()).is_some());
}

#[test]
fn unresolved_category_counts_as_no_match() {
    let mut lost = signature(vec![99, 10]);
    lost.html = vec![String::from("hit")];
    let mut none = signature(vec![]);
    none.html = vec![String::from("hit")];
    let mut kept = signature(vec![22]);
    kept.html = vec![String::from("hit")];
    let data = catalog(vec![("Lost", lost), ("NoCats", none), ("Kept", kept)]);
    let mut page = empty_page();
    page.html = String::from("a hit");
    let page = Arc::new(page);
    assert!(data.apps[0].tech(page.clone(), &data).is_none());
    let found = check(page, &data);
    assert_eq!(found, vec![Tech { name: String::from("Kept"), category: String::from("Web Servers") }]);
}

#[test]
fn tech_of_a_matching_signature() {
    let mut app = signature(vec![23]);
    app.js = vec![pair("Varnish", "")];
    let data = catalog(vec![("Varnish", app)]);
    let mut page = empty_page();
    page.script_tags = vec![String::from("<script>Varnish</script>")];
    let page = Arc::new(page);
    assert_eq!(
        data.apps[0].tech(page, &data),
        Some(Tech { name: String::from("Varnish"), category: String::from("Cache Tools") })
    );
    assert_eq!(data.apps[0].tech(Arc::new(empty_page()), &data), None);
}

#[test]
fn later_meta_tag_replaces_earlier() {
    let mut page = empty_page();
    page.add_meta(String::from("generator"), String::from("Joomla"));
    page.add_meta(String::from("viewport"), String::from("width=device-width"));
    page.add_meta(String::from("generator"), String::from("WordPress 5.4"));
    assert_eq!(page.meta_tags, vec![pair("generator", "WordPress 5.4"), pair("viewport", "width=device-width")]);
    let mut app = signature(vec![10]);
    app.meta = vec![pair("generator", "^WordPress")];
    assert!(app.check(Arc::new(page)));
}

#[test]
fn category_lookup() {
    let data = catalog(vec![]);
    assert_eq!(data.category_name(23), Some(String::from("Cache Tools")));
    assert_eq!(data.category_name(7), None);
}

#[test]
fn error_messages() {
    assert_eq!(WappError::Fetch(String::from("Non-200 status code: 404")).to_text(), "Fetch/Non-200 status code: 404");
    assert_eq!(WappError::Analyze(String::from("x")).to_text(), "Analyze/x");
    assert_eq!(WappError::Other(String::new()).to_text(), "Other/");
}

#[test]
fn analysis_carries_fetch_error() {
    let data = catalog(vec![]);
    let a = analysis_of(String::from("https://a.test/"), Err(WappError::Fetch(String::from("down"))), &data);
    assert_eq!(a.url, "https://a.test/");
    assert_eq!(a.result, Err(String::from("Fetch/down")));
}

#[test]
fn analysis_lists_findings() {
    let mut app = signature(vec![22]);
    app.headers = vec![pair("Server", "Apache")];
    let data = catalog(vec![("Apache", app)]);
    let mut page = empty_page();
    page.headers = vec![pair("server", "Apache")];
    let a = analysis_of(String::from("https://b.test/"), Ok(Arc::new(page)), &data);
    assert_eq!(a.url, "https://b.test/");
    let techs = a.result.unwrap();
    assert_eq!(techs, vec![Tech { name: String::from("Apache"), category: String::from("Web Servers") }]);
}
