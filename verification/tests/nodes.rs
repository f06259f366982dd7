use spark_dashboard::nodes::{parse_node_urls, NodePoller, NodeReport, STALE_AFTER_POLLS};

#[test]
fn parse_node_urls_splits_comma_list() {
    let urls = parse_node_urls("http://a:3001, http://b:3001 ,, http://c:3001");
    assert_eq!(urls.len(), 3);
    assert_eq!(urls[0], "http://a:3001");
    assert_eq!(urls[1], "http://b:3001");
    assert_eq!(urls[2], "http://c:3001");
}

#[test]
fn parse_node_urls_empty_string() {
    assert!(parse_node_urls("").is_empty());
    assert!(parse_node_urls("  ,  ,  ").is_empty());
}

#[test]
fn parse_node_urls_trims_unicode_white_space() {
    let urls = parse_node_urls("\u{3000}http://a:3001\u{00A0},\t\nhttp://b:3001\r");
    assert_eq!(urls, vec!["http://a:3001".to_string(), "http://b:3001".to_string()]);
}

#[test]
fn parse_node_urls_keeps_inner_spaces_and_single_entry() {
    assert_eq!(parse_node_urls("http://a b"), vec!["http://a b".to_string()]);
    assert_eq!(parse_node_urls(",x,"), vec!["x".to_string()]);
}

fn report(host: &str, reading: u32) -> Option<NodeReport<u32>> {
    Some(NodeReport { hostname: host.to_string(), snapshot: reading })
}

#[test]
fn poller_starts_with_full_offline_roster() {
    let p: NodePoller<u32> = NodePoller::new(vec!["http://a".to_string(), "http://b".to_string()]);
    let nodes = p.nodes();
    assert_eq!(nodes.len(), 2);
    assert_eq!(nodes[0].hostname, "http://a");
    assert_eq!(nodes[1].url, "http://b");
    assert!(!nodes[0].online);
    assert_eq!(nodes[0].last_seen_ms, 0);
    assert!(nodes[1].snapshot.is_none());
}

#[test]
fn poller_answer_brings_node_online() {
    let mut p: NodePoller<u32> = NodePoller::new(vec!["http://a".to_string(), "http://b".to_string()]);
    p.record_poll(&"http://b".to_string(), report("spark-b", 7), 1234);
    let nodes = p.nodes();
    assert!(nodes[1].online);
    assert_eq!(nodes[1].hostname, "spark-b");
    assert_eq!(nodes[1].snapshot, Some(7));
    assert_eq!(nodes[1].last_seen_ms, 1234);
    assert!(!nodes[0].online);
    assert_eq!(p.fail_count_of(&"http://b".to_string()), 0);
}

#[test]
fn poller_keeps_readings_until_stale() {
    let url = "http://a".to_string();
    let mut p: NodePoller<u32> = NodePoller::new(vec![url.clone()]);
    p.record_poll(&url, report("spark-a", 42), 1000);
    for k in 1..STALE_AFTER_POLLS {
        p.record_poll(&url, None, 5000);
        let n = &p.nodes()[0];
        assert!(!n.online);
        assert_eq!(n.snapshot, Some(42), "readings kept after {} failures", k);
        assert_eq!(n.last_seen_ms, 1000);
        assert_eq!(n.hostname, "spark-a");
    }
    p.record_poll(&url, None, 5000);
    assert_eq!(p.nodes()[0].snapshot, None);
    assert_eq!(p.fail_count_of(&url), STALE_AFTER_POLLS);
    p.record_poll(&url, report("spark-a", 43), 9000);
    assert!(p.nodes()[0].online);
    assert_eq!(p.nodes()[0].snapshot, Some(43));
    assert_eq!(p.fail_count_of(&url), 0);
}

#[test]
fn poller_files_duplicate_urls_under_first_slot_and_ignores_unknown() {
    let url = "http://a".to_string();
    let mut p: NodePoller<u32> = NodePoller::new(vec![url.clone(), url.clone()]);
    p.record_poll(&url, report("h", 1), 10);
    assert!(p.nodes()[0].online);
    assert!(!p.nodes()[1].online);
    p.record_poll(&"http://zzz".to_string(), report("h", 2), 20);
    assert_eq!(p.nodes()[0].snapshot, Some(1));
    assert_eq!(p.nodes()[1].snapshot, None);
    assert_eq!(p.fail_count_of(&"http://zzz".to_string()), 0);
}

#[test]
fn polls_never_change_the_roster() {
    let urls = vec!["http://a".to_string(), "http://b".to_string(), "http://a".to_string()];
    let mut p: NodePoller<u32> = NodePoller::new(urls.clone());
    p.record_poll(&urls[0], report("x", 1), 1);
    p.record_poll(&urls[1], None, 2);
    p.record_poll(&"http://c".to_string(), None, 3);
    let got: Vec<String> = p.nodes().iter().map(|n| n.url.clone()).collect();
    assert_eq!(got, urls);
}

#[test]
fn node_urls_have_no_surrounding_space_or_comma() {
    for u in parse_node_urls(" a , b\u{2003},\u{0085}c d ,,") {
        assert!(!u.is_empty());
        assert!(!u.starts_with(char::is_whitespace));
        assert!(!u.ends_with(char::is_whitespace));
        assert!(!u.contains(','));
    }
    assert_eq!(parse_node_urls(" a , b\u{2003},\u{0085}c d ,,"), vec!["a", "b", "c d"]);
}

#[test]
fn online_nodes_always_hold_readings() {
    let url = "http://a".to_string();
    let mut p: NodePoller<u32> = NodePoller::new(vec![url.clone(), "http://b".to_string()]);
    let outcomes = [report("h", 1), None, report("h", 2), None, None];
    for o in outcomes {
        p.record_poll(&url, o, 7);
        for n in p.nodes() {
            assert!(!n.online || n.snapshot.is_some());
        }
    }
}

#[test]
fn joined_clean_urls_parse_back() {
    let urls = vec!["http://a:3001".to_string(), "http://b c".to_string(), "x".to_string()];
    assert_eq!(parse_node_urls(&urls.join(",")), urls);
    assert!(parse_node_urls(&Vec::<String>::new().join(",")).is_empty());
}
