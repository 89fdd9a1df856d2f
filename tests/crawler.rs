use sitemap_crawler::discovery::{check_status, Discovery, DiscoveryError, HttpError, Stage, Step};
use sitemap_crawler::names::{base_name_chars, base_name_from_parts, url_to_filename, NameRegistry};
use sitemap_crawler::report::{page_result, summarize, PageResult, Transfer};
use sitemap_crawler::xml::{decode_sitemap, decode_sitemap_tokens, decode_url_set, decode_url_set_tokens, ParseError, Sitemap, XmlToken};

const URLSET3: &str = r#"<?xml version="1.0" encoding="UTF-8"?>
<urlset xmlns="http://www.sitemaps.org/schemas/sitemap/0.9">
  <url><loc>https://a.com/one</loc><lastmod>2024-01-01</lastmod></url>
  <url><loc>https://a.com/two</loc></url>
  <url><priority>0.5</priority><loc>https://a.com/three</loc></url>
</urlset>"#;

const INDEX2: &str = r#"<?xml version="1.0"?>
<sitemapindex xmlns="http://www.sitemaps.org/schemas/sitemap/0.9">
  <sitemap><loc>https://a.com/s1.xml</loc></sitemap>
  <sitemap><loc>https://a.com/s2.xml</loc><lastmod>2024-01-01</lastmod></sitemap>
</sitemapindex>"#;

fn strings(v: &[&str]) -> Vec<String> {
    v.iter().map(|s| s.to_string()).collect()
}

fn run(root: &str, fetch: &dyn Fn(&str) -> Result<String, HttpError>) -> (Step, Vec<String>, usize) {
    let mut d = Discovery::new(root.to_string());
    let mut fetched = Vec::new();
    let mut skipped = 0;
    loop {
        match d.next_step() {
            Step::Fetch(u) => {
                fetched.push(u.clone());
                if d.feed(fetch(&u)).is_some() {
                    skipped += 1;
                }
            }
            other => return (other, fetched, skipped),
        }
    }
}

fn received(url: &str, len: usize) -> PageResult {
    page_result(
        url,
        Transfer::Received { status_code: 200, content_type: Some("text/html".to_string()), content_length: len },
        None,
    )
}

#[test]
fn url_set_locations_in_document_order() {
    let r = decode_url_set(URLSET3).unwrap();
    assert_eq!(r, strings(&["https://a.com/one", "https://a.com/two", "https://a.com/three"]));
}

#[test]
fn url_set_keeps_repeated_locations() {
    let doc = "<urlset><url><loc>http://x.com/a</loc></url><url><loc>http://x.com/a</loc></url></urlset>";
    assert_eq!(decode_url_set(doc).unwrap(), strings(&["http://x.com/a", "http://x.com/a"]));
}

#[test]
fn location_text_is_trimmed_and_unescaped() {
    let doc = "<urlset><url><loc>\n  http://x.com/?a=1&amp;b=2\n</loc></url></urlset>";
    assert_eq!(decode_url_set(doc).unwrap(), strings(&["http://x.com/?a=1&b=2"]));
}

#[test]
fn cdata_location() {
    let doc = "<urlset><url><loc><![CDATA[http://x.com/c]]></loc></url></urlset>";
    assert_eq!(decode_url_set(doc).unwrap(), strings(&["http://x.com/c"]));
}

#[test]
fn cdata_joins_surrounding_text() {
    let doc = "<urlset><url><loc>http://x.com/<![CDATA[a&b]]></loc></url></urlset>";
    assert_eq!(decode_url_set(doc).unwrap(), strings(&["http://x.com/a&b"]));
}

#[test]
fn empty_loc_element_gives_empty_location() {
    let doc = "<urlset><url><loc/></url></urlset>";
    assert_eq!(decode_url_set(doc).unwrap(), strings(&[""]));
}

#[test]
fn url_without_loc_is_an_error() {
    assert_eq!(decode_url_set("<urlset><url><lastmod>x</lastmod></url></urlset>"), Err(ParseError::MissingLoc));
    assert_eq!(decode_url_set("<urlset><url/></urlset>"), Err(ParseError::MissingLoc));
}

#[test]
fn document_without_root_is_an_error() {
    assert_eq!(decode_url_set(""), Err(ParseError::NoRoot));
    assert_eq!(decode_url_set("<?xml version=\"1.0\"?>"), Err(ParseError::NoRoot));
}

#[test]
fn mismatched_tags_are_malformed() {
    assert_eq!(decode_url_set("<urlset><url><loc>a</url></urlset>"), Err(ParseError::Malformed));
}

#[test]
fn index_decodes_as_index() {
    match decode_sitemap(INDEX2).unwrap() {
        Sitemap::Index(c) => assert_eq!(c, strings(&["https://a.com/s1.xml", "https://a.com/s2.xml"])),
        other => panic!("expected an index, got {:?}", other),
    }
}

#[test]
fn url_set_decodes_as_url_set() {
    match decode_sitemap(URLSET3).unwrap() {
        Sitemap::UrlSet(p) => assert_eq!(p.len(), 3),
        other => panic!("expected a url-set, got {:?}", other),
    }
}

#[test]
fn nested_index_child_yields_no_pages() {
    assert_eq!(decode_url_set(INDEX2).unwrap(), Vec::<String>::new());
}

#[test]
fn index_with_entry_missing_loc_falls_back_to_url_set() {
    let doc = "<sitemapindex><sitemap><lastmod>x</lastmod></sitemap></sitemapindex>";
    match decode_sitemap(doc).unwrap() {
        Sitemap::UrlSet(p) => assert!(p.is_empty()),
        other => panic!("expected a url-set, got {:?}", other),
    }
}

#[test]
fn url_set_from_tokens() {
    let t = vec![
        XmlToken::Other,
        XmlToken::Open("urlset".to_string()),
        XmlToken::Open("url".to_string()),
        XmlToken::Open("loc".to_string()),
        XmlToken::Text("a".to_string()),
        XmlToken::Text("b".to_string()),
        XmlToken::Close("loc".to_string()),
        XmlToken::Close("url".to_string()),
        XmlToken::Leaf("url".to_string()),
        XmlToken::Close("urlset".to_string()),
    ];
    assert_eq!(decode_url_set_tokens(&t[..8].to_vec().into_iter().chain(std::iter::once(XmlToken::Close("urlset".to_string()))).collect()), Ok(strings(&["ab"])));
    assert_eq!(decode_url_set_tokens(&t), Err(ParseError::MissingLoc));
    assert_eq!(decode_url_set_tokens(&vec![XmlToken::Other]), Err(ParseError::NoRoot));
}

#[test]
fn index_from_tokens() {
    let t = vec![
        XmlToken::Open("sitemapindex".to_string()),
        XmlToken::Open("sitemap".to_string()),
        XmlToken::Leaf("loc".to_string()),
        XmlToken::Close("sitemap".to_string()),
        XmlToken::Close("sitemapindex".to_string()),
    ];
    match decode_sitemap_tokens(&t).unwrap() {
        Sitemap::Index(c) => assert_eq!(c, strings(&[""])),
        other => panic!("expected an index, got {:?}", other),
    }
}

#[test]
fn base_name_from_given_parts() {
    let s = |p: Option<(Option<String>, String)>| base_name_from_parts(p).into_iter().collect::<String>();
    assert_eq!(s(Some((Some("x.com".to_string()), "/a/b c".to_string()))), "x.com_a_b_c");
    assert_eq!(s(Some((None, "/p~q".to_string()))), "unknown_p_q");
    assert_eq!(s(None), "example.com_");
}

#[test]
fn status_check() {
    assert_eq!(check_status(200), Ok(()));
    assert_eq!(check_status(299), Ok(()));
    assert_eq!(check_status(301), Err(HttpError::Status(301)));
    assert_eq!(check_status(500), Err(HttpError::Status(500)));
}

#[test]
fn discovery_of_url_set_root() {
    let (step, fetched, skipped) = run("https://a.com/sitemap.xml", &|_| Ok(URLSET3.to_string()));
    assert_eq!(fetched, strings(&["https://a.com/sitemap.xml"]));
    assert_eq!(skipped, 0);
    match step {
        Step::Done(p) => assert_eq!(p, strings(&["https://a.com/one", "https://a.com/two", "https://a.com/three"])),
        _ => panic!("discovery did not finish"),
    }
}

#[test]
fn discovery_of_index_with_failing_child() {
    let fetch = |u: &str| -> Result<String, HttpError> {
        match u {
            "https://a.com/root.xml" => Ok(INDEX2.to_string()),
            "https://a.com/s1.xml" => Err(HttpError::Status(500)),
            _ => Ok("<urlset><url><loc>https://a.com/p</loc></url><url><loc>https://a.com/q</loc></url></urlset>".to_string()),
        }
    };
    let (step, fetched, skipped) = run("https://a.com/root.xml", &fetch);
    assert_eq!(fetched, strings(&["https://a.com/root.xml", "https://a.com/s1.xml", "https://a.com/s2.xml"]));
    assert_eq!(skipped, 1);
    match step {
        Step::Done(p) => assert_eq!(p, strings(&["https://a.com/p", "https://a.com/q"])),
        _ => panic!("discovery did not finish"),
    }
}

#[test]
fn discovery_concatenates_children_in_order() {
    let fetch = |u: &str| -> Result<String, HttpError> {
        match u {
            "r" => Ok(INDEX2.to_string()),
            "https://a.com/s1.xml" => Ok("<urlset><url><loc>1</loc></url><url><loc>2</loc></url></urlset>".to_string()),
            _ => Ok("<urlset><url><loc>3</loc></url><url><loc>1</loc></url></urlset>".to_string()),
        }
    };
    match run("r", &fetch).0 {
        Step::Done(p) => assert_eq!(p, strings(&["1", "2", "3", "1"])),
        _ => panic!("discovery did not finish"),
    }
}

#[test]
fn discovery_skips_child_that_does_not_parse() {
    let mut d = Discovery::new("r".to_string());
    assert!(d.feed(Ok(INDEX2.to_string())).is_none());
    assert_eq!(d.feed(Ok("<urlset><url></urlset>".to_string())), Some(DiscoveryError::Parse(ParseError::Malformed)));
    assert_eq!(d.feed(Err(HttpError::Transport("timeout".to_string()))), Some(DiscoveryError::Fetch(HttpError::Transport("timeout".to_string()))));
    assert_eq!(d.stage, Stage::Finished);
    assert!(d.pages.is_empty());
}

#[test]
fn discovery_of_empty_index_finishes() {
    match run("r", &|_| Ok("<sitemapindex></sitemapindex>".to_string())).0 {
        Step::Done(p) => assert!(p.is_empty()),
        _ => panic!("discovery did not finish"),
    }
}

#[test]
fn discovery_fails_when_root_fails() {
    match run("r", &|_| Err(HttpError::Status(404))).0 {
        Step::Fail(e) => assert_eq!(e, DiscoveryError::Fetch(HttpError::Status(404))),
        _ => panic!("discovery did not fail"),
    }
    match run("r", &|_| Ok("not xml <".to_string())).0 {
        Step::Fail(DiscoveryError::Parse(_)) => {}
        _ => panic!("discovery did not fail"),
    }
}

#[test]
fn base_names() {
    let s = |u: &str| base_name_chars(u).into_iter().collect::<String>();
    assert_eq!(s("http://x.com/a?x=1"), "x.com_a");
    assert_eq!(s("https://example.org/blog/post-1.html"), "example.org_blog_post-1.html");
    assert_eq!(s("https://x.com/"), "x.com_");
    assert_eq!(s("not a url"), "example.com_");
    assert_eq!(s("mailto:me@x.com"), "unknownme_x.com");
}

#[test]
fn colliding_urls_get_numbered_names() {
    let mut reg = NameRegistry::new();
    assert_eq!(url_to_filename("http://x.com/a?x=1", &mut reg), "x.com_a");
    assert_eq!(url_to_filename("http://x.com/a?x=2", &mut reg), "x.com_a_2");
    assert_eq!(url_to_filename("http://x.com/a?x=3", &mut reg), "x.com_a_3");
    assert_eq!(url_to_filename("http://x.com/b", &mut reg), "x.com_b");
    assert!(reg.contains(&"x.com_a_2".to_string()));
    assert!(!reg.contains(&"x.com_a_4".to_string()));
}

#[test]
fn tenth_collision_gets_two_digits() {
    let mut reg = NameRegistry::new();
    let mut last = String::new();
    for _ in 0..10 {
        last = reg.assign("http://x.com/a");
    }
    assert_eq!(last, "x.com_a_10");
    assert_eq!(reg.names.len(), 10);
}

#[test]
fn rerun_against_filled_registry_differs() {
    let mut reg = NameRegistry::new();
    reg.names.push("x.com_a".to_string());
    assert_eq!(reg.assign("http://x.com/a"), "x.com_a_2");
}

#[test]
fn request_failure_result() {
    let r = page_result("http://x.com/a", Transfer::RequestFailed { cause: "refused".to_string() }, None);
    assert_eq!(r.url, "http://x.com/a");
    assert_eq!(r.status_code, 0);
    assert_eq!(r.content_length, 0);
    assert_eq!(r.mime_type, "unknown");
    assert_eq!(r.error.as_deref(), Some("Request failed: refused"));
}

#[test]
fn body_failure_result() {
    let t = Transfer::BodyFailed { status_code: 200, content_type: None, cause: "reset".to_string() };
    let r = page_result("u", t, None);
    assert_eq!((r.status_code, r.content_length), (200, 0));
    assert_eq!(r.mime_type, "unknown");
    assert_eq!(r.error.as_deref(), Some("Failed to read response body: reset"));
}

#[test]
fn received_and_save_failure_results() {
    let r = received("u", 42);
    assert_eq!((r.status_code, r.content_length), (200, 42));
    assert_eq!(r.mime_type, "text/html");
    assert!(r.error.is_none());
    let t = Transfer::Received { status_code: 404, content_type: None, content_length: 7 };
    let r = page_result("u", t, Some("disk full".to_string()));
    assert_eq!((r.status_code, r.content_length), (404, 7));
    assert_eq!(r.error.as_deref(), Some("Failed to save file: disk full"));
}

#[test]
fn summary_counts() {
    let results = vec![
        received("a", 1),
        page_result("b", Transfer::RequestFailed { cause: "x".to_string() }, None),
        received("c", 3),
    ];
    let report = summarize(results);
    assert_eq!((report.successful, report.failed), (2, 1));
    assert_eq!(report.results.len(), 3);
    assert_eq!(report.results[1].url, "b");
    let empty = summarize(Vec::new());
    assert_eq!((empty.successful, empty.failed), (0, 0));
}

#[test]
fn three_page_url_set_scenario() {
    let (step, _, _) = run("https://a.com/sitemap.xml", &|_| Ok(URLSET3.to_string()));
    let urls = match step {
        Step::Done(p) => p,
        _ => panic!("discovery did not finish"),
    };
    let results: Vec<PageResult> = urls.iter().map(|u| received(u, 10)).collect();
    let report = summarize(results);
    assert_eq!(report.results.iter().map(|r| r.url.as_str()).collect::<Vec<_>>(), vec!["https://a.com/one", "https://a.com/two", "https://a.com/three"]);
    assert!(report.results.iter().all(|r| r.error.is_none()));
    assert_eq!((report.successful, report.failed), (3, 0));
}

#[test]
fn same_base_scenario_names_do_not_collide() {
    let mut reg = NameRegistry::new();
    let a = url_to_filename("http://x.com/a?x=1", &mut reg);
    let b = url_to_filename("http://x.com/a?x=2", &mut reg);
    assert_eq!((a.as_str(), b.as_str()), ("x.com_a", "x.com_a_2"));
}

#[test]
fn first_unused_suffix_is_taken() {
    let mut reg = NameRegistry::new();
    reg.names.push("x.com_a".to_string());
    reg.names.push("x.com_a_3".to_string());
    assert_eq!(url_to_filename("http://x.com/a", &mut reg), "x.com_a_2");
    assert_eq!(reg.names.len(), 3);
}

#[test]
fn encoded_space_in_path() {
    let mut reg = NameRegistry::new();
    assert_eq!(url_to_filename("https://example.com/a b/c.html", &mut reg), "example.com_a_20b_c.html");
}
