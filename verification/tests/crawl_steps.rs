use link_graph::crawl::{CrawlConfig, CrawlError, FetchOutcome, LinkFinderFor};
use link_graph::model::NodeState;

fn page_of<'a>(pages: &'a [(&'a str, &'a str)], url: &str) -> Option<&'a str> {
    for (address, body) in pages {
        if *address == url {
            return Some(*body);
        }
    }
    None
}

/// Runs a crawl to its end against pages held in memory: an address that is
/// not listed cannot be fetched.
fn crawl(
    seed: &str,
    limit: u64,
    breaking: bool,
    pages: &[(&str, &str)],
) -> (LinkFinderFor, Result<(), CrawlError>, Vec<String>) {
    let mut finder = LinkFinderFor::new(limit, String::from(seed));
    let mut asked = Vec::new();
    while let Some(url) = finder.next_url() {
        asked.push(url.clone());
        let done = match page_of(pages, &url) {
            Some(body) => finder.fetched(body),
            None => finder.fetch_failed(breaking),
        };
        if done.is_err() {
            return (finder, done, asked);
        }
    }
    (finder, Ok(()), asked)
}

#[test]
fn a_new_crawl_holds_the_seed_alone() {
    let finder = LinkFinderFor::new(3, String::from("http://a.test"));
    assert_eq!(finder.node_count(), 1);
    assert_eq!(finder.edge_count(), 0);
    assert_eq!(finder.limit(), 3);
    assert_eq!(finder.node_url(0), Some(String::from("http://a.test")));
    assert_eq!(finder.node_url(1), None);
    assert_eq!(finder.depth_of(0), Some(1));
    assert_eq!(finder.depth_of(1), None);
    assert_eq!(finder.state_of(0), Some(NodeState::Pending));
    assert_eq!(finder.state_of(1), None);
    assert!(!finder.is_finished());
    assert!(!finder.is_halted());
    assert_eq!(finder.next_url(), Some(String::from("http://a.test")));
    assert!(finder.children(0).is_empty());
    assert!(finder.children(7).is_empty());
}

#[test]
fn one_accepted_and_one_rejected_link() {
    let pages = [(
        "http://a.test",
        "see http://www.b.test/page and http://www.b.test/logo.gif for more",
    )];
    let (finder, done, asked) = crawl("http://a.test", 1, false, &pages);
    assert_eq!(done, Ok(()));
    assert_eq!(finder.node_count(), 2);
    assert_eq!(finder.edge_count(), 1);
    assert_eq!(finder.node_url(1), Some(String::from("http://www.b.test/page")));
    assert_eq!(finder.children(0), vec![1]);
    assert_eq!(asked, vec![String::from("http://a.test")]);
    assert_eq!(finder.state_of(0), Some(NodeState::Expanded));
    assert_eq!(finder.state_of(1), Some(NodeState::Pending));
    assert_eq!(finder.depth_of(1), Some(2));
    assert!(finder.is_finished());
}

#[test]
fn fail_fast_at_the_seed_stops_the_crawl() {
    let (finder, done, asked) = crawl("http://a.test", 3, true, &[]);
    assert_eq!(done, Err(CrawlError::FetchFailed));
    assert_eq!(asked.len(), 1);
    assert_eq!(finder.node_count(), 1);
    assert_eq!(finder.edge_count(), 0);
    assert!(finder.is_halted());
    assert_eq!(finder.next_url(), None);
}

#[test]
fn the_seed_stays_when_its_fetch_fails() {
    let (finder, done, _) = crawl("http://a.test", 3, false, &[]);
    assert_eq!(done, Ok(()));
    assert_eq!(finder.node_count(), 1);
    assert_eq!(finder.node_url(0), Some(String::from("http://a.test")));
    assert_eq!(finder.state_of(0), Some(NodeState::FetchFailed));
    assert!(finder.children(0).is_empty());
    assert!(finder.is_finished());
}

#[test]
fn a_failed_node_is_a_leaf_and_its_siblings_go_on() {
    let pages = [
        ("http://a.test", "http://www.one.test/ http://www.two.test/"),
        ("http://www.one.test/", "http://www.three.test/"),
    ];
    let (finder, done, asked) = crawl("http://a.test", 3, false, &pages);
    assert_eq!(done, Ok(()));
    // the child added last is fetched first, fails, and the other follows
    assert_eq!(
        asked,
        vec![
            String::from("http://a.test"),
            String::from("http://www.two.test/"),
            String::from("http://www.one.test/"),
            String::from("http://www.three.test/"),
        ]
    );
    assert_eq!(finder.node_count(), 4);
    assert_eq!(finder.edge_count(), 3);
    assert_eq!(finder.state_of(2), Some(NodeState::FetchFailed));
    assert_eq!(finder.depth_of(2), Some(2));
    assert!(finder.children(2).is_empty());
    assert_eq!(finder.state_of(1), Some(NodeState::Expanded));
    assert_eq!(finder.children(1), vec![3]);
    assert_eq!(finder.node_url(3), Some(String::from("http://www.three.test/")));
    assert_eq!(finder.state_of(3), Some(NodeState::FetchFailed));
    assert_eq!(finder.depth_of(3), Some(3));
}

#[test]
fn a_link_back_to_the_seed_is_a_node_of_its_own() {
    let pages = [("http://www.a.test/", "back to http://www.a.test/ again")];
    let (finder, done, asked) = crawl("http://www.a.test/", 2, false, &pages);
    assert_eq!(done, Ok(()));
    // seed, its copy at depth 2, and the copy's copy beyond the limit
    assert_eq!(finder.node_count(), 3);
    assert_eq!(finder.edge_count(), 2);
    assert_eq!(finder.node_url(0), finder.node_url(1));
    assert_eq!(finder.node_url(1), finder.node_url(2));
    assert_eq!(finder.children(0), vec![1]);
    assert_eq!(finder.children(1), vec![2]);
    assert!(finder.children(2).is_empty());
    assert_eq!(asked.len(), 2);
}

#[test]
fn the_same_link_twice_on_a_page_gives_two_nodes() {
    let pages = [("http://a.test", "http://www.b.test/ http://www.b.test/")];
    let (finder, _, _) = crawl("http://a.test", 1, false, &pages);
    assert_eq!(finder.node_count(), 3);
    assert_eq!(finder.children(0), vec![2, 1]);
}

#[test]
fn no_node_lies_deeper_than_the_limit_allows() {
    let body = "http://www.x.test/ and http://www.y.test/";
    let pages = [
        ("http://a.test", body),
        ("http://www.x.test/", body),
        ("http://www.y.test/", body),
    ];
    for limit in 1..5u64 {
        let (finder, done, _) = crawl("http://a.test", limit, false, &pages);
        assert_eq!(done, Ok(()));
        // a full binary tree with `limit` levels below the seed
        let expected = (1usize << (limit + 1)) - 1;
        assert_eq!(finder.node_count(), expected);
        assert_eq!(finder.edge_count(), expected - 1);
        for node in 0..finder.node_count() {
            let depth = finder.depth_of(node).unwrap();
            assert!(depth >= 1 && depth <= limit + 1);
            let state = finder.state_of(node).unwrap();
            if depth <= limit {
                assert_eq!(state, NodeState::Expanded);
                assert_eq!(finder.children(node).len(), 2);
            } else {
                assert_eq!(state, NodeState::Pending);
                assert!(finder.children(node).is_empty());
            }
            for child in finder.children(node) {
                assert!(child > node);
                assert_eq!(finder.depth_of(child), Some(depth + 1));
            }
        }
    }
}

#[test]
fn a_limit_of_zero_fetches_nothing() {
    let (finder, done, asked) = crawl("http://a.test", 0, true, &[]);
    assert_eq!(done, Ok(()));
    assert!(asked.is_empty());
    assert_eq!(finder.node_count(), 1);
    assert_eq!(finder.state_of(0), Some(NodeState::Pending));
}

#[test]
fn expand_takes_links_that_were_found_elsewhere() {
    let mut finder = LinkFinderFor::new(2, String::from("http://a.test"));
    let candidates = vec![
        String::from("http://www.b.test/1"),
        String::from("mailto:someone@www.b.test"),
        String::from("http://b.test/2"),
        String::from("http://www.b.test/3"),
        String::from("http://www.b.test/4.svg"),
    ];
    assert_eq!(finder.expand(&candidates), Ok(()));
    assert_eq!(finder.node_count(), 4);
    assert_eq!(finder.edge_count(), 3);
    assert_eq!(finder.node_url(1), Some(String::from("http://www.b.test/1")));
    assert_eq!(finder.node_url(2), Some(String::from("mailto:someone@www.b.test")));
    assert_eq!(finder.node_url(3), Some(String::from("http://www.b.test/3")));
    assert_eq!(finder.children(0), vec![3, 2, 1]);
    // the child added last is asked for first
    assert_eq!(finder.next_url(), Some(String::from("http://www.b.test/3")));
    assert_eq!(finder.fetch_failed(false), Ok(()));
    assert_eq!(finder.next_url(), Some(String::from("mailto:someone@www.b.test")));
    assert_eq!(finder.fetch_failed(false), Ok(()));
    assert_eq!(finder.next_url(), Some(String::from("http://www.b.test/1")));
    assert_eq!(finder.expand(&Vec::new()), Ok(()));
    assert_eq!(finder.next_url(), None);
    assert!(finder.is_finished());
    assert_eq!(finder.node_count(), 4);
}

#[test]
fn extraction_finds_links_inside_markup() {
    let mut finder = LinkFinderFor::new(1, String::from("http://a.test"));
    let body = "<a href=\"https://www.b.test/x?y=1\">b</a> mail me at me@www.c.test \
                or visit www.no-scheme.test, then https://www.d.test/.";
    assert_eq!(finder.fetched(body), Ok(()));
    assert_eq!(finder.node_count(), 3);
    assert_eq!(finder.node_url(1), Some(String::from("https://www.b.test/x?y=1")));
    assert_eq!(finder.node_url(2), Some(String::from("https://www.d.test/")));
}

#[test]
fn fetch_failed_reports_the_stop_only_when_breaking() {
    let mut first = LinkFinderFor::new(3, String::from("http://a.test"));
    assert_eq!(first.fetch_failed(false), Ok(()));
    assert_eq!(first.state_of(0), Some(NodeState::FetchFailed));
    let mut second = LinkFinderFor::new(3, String::from("http://a.test"));
    assert!(!first.is_halted());
    assert_eq!(second.fetch_failed(true), Err(CrawlError::FetchFailed));
    assert_eq!(second.state_of(0), Some(NodeState::FetchFailed));
    assert!(second.is_finished());
    assert!(second.is_halted());
}

#[test]
fn a_halted_crawl_asks_for_nothing_more() {
    let mut finder = LinkFinderFor::new(3, String::from("http://a.test"));
    let links = vec![String::from("http://www.b.test/"), String::from("http://www.c.test/")];
    assert_eq!(finder.expand(&links), Ok(()));
    assert_eq!(finder.next_url(), Some(String::from("http://www.c.test/")));
    assert_eq!(finder.fetch_failed(true), Err(CrawlError::FetchFailed));
    // the other child still waited, and is never asked for
    assert_eq!(finder.state_of(1), Some(NodeState::Pending));
    assert_eq!(finder.next_url(), None);
    assert!(finder.is_finished());
    assert!(finder.is_halted());
    assert_eq!(finder.node_count(), 3);
    assert_eq!(finder.edge_count(), 2);
}

#[test]
fn advance_follows_the_outcome() {
    let mut finder = LinkFinderFor::new(3, String::from("http://a.test"));
    let body = FetchOutcome::Body(String::from("http://www.b.test/ http://www.c.test/"));
    assert_eq!(finder.advance(&body, true), Ok(()));
    assert_eq!(finder.node_count(), 3);
    assert_eq!(finder.advance(&FetchOutcome::Failed, false), Ok(()));
    assert_eq!(finder.state_of(2), Some(NodeState::FetchFailed));
    assert!(!finder.is_halted());
    assert_eq!(finder.advance(&FetchOutcome::Failed, true), Err(CrawlError::FetchFailed));
    assert_eq!(finder.state_of(1), Some(NodeState::FetchFailed));
    assert!(finder.is_halted());
}

#[test]
fn an_unreadable_body_always_stops_the_crawl() {
    for breaking in [false, true] {
        let mut finder = LinkFinderFor::new(3, String::from("http://a.test"));
        assert_eq!(
            finder.advance(&FetchOutcome::Unreadable, breaking),
            Err(CrawlError::Unreadable)
        );
        assert_eq!(finder.state_of(0), Some(NodeState::Pending));
        assert_eq!(finder.node_count(), 1);
        assert!(finder.is_halted());
        assert!(finder.is_finished());
        assert_eq!(finder.next_url(), None);
    }
}

#[test]
fn config_defaults_and_limits() {
    let config = CrawlConfig::default();
    assert_eq!(config.limit, 3);
    assert!(!config.breaking);
    assert_eq!(CrawlConfig::new(0, false), Err(CrawlError::BadLimit));
    assert_eq!(CrawlConfig::new(1, true), Ok(CrawlConfig { limit: 1, breaking: true }));
    assert_eq!(CrawlConfig::new(u64::MAX, false), Ok(CrawlConfig { limit: u64::MAX, breaking: false }));
}

#[test]
fn render_writes_the_graph_as_dot() {
    let pages = [("http://a.test", "http://www.b.test/page http://www.b.test/logo.gif")];
    let (finder, _, _) = crawl("http://a.test", 1, false, &pages);
    let expected = "digraph {\n    0 [ label = \"\\\"http://a.test\\\"\" ]\n    \
                    1 [ label = \"\\\"http://www.b.test/page\\\"\" ]\n    0 -> 1 [ ]\n}\n";
    assert_eq!(finder.render(), expected);
}

#[test]
fn render_of_the_seed_alone() {
    let finder = LinkFinderFor::new(3, String::from("http://a.test"));
    assert_eq!(finder.render(), "digraph {\n    0 [ label = \"\\\"http://a.test\\\"\" ]\n}\n");
}
