use cloud_metadata::count::parse_count;
use cloud_metadata::store::{kept_values, KeyPage, KeyScan};
use cloud_metadata::tally::{
    bump_counter, checked_region_totals, region_totals, Counter, RegionTotals, UAStats,
};
use cloud_metadata::text::{contains_char, contains_str, last_piece_of, split_pieces};
use cloud_metadata::visits::{visit_keys, visit_keys_for_request, UserAgent};

fn pairs(items: &[(&str, &str)]) -> Vec<(String, String)> {
    items.iter().map(|(k, v)| (k.to_string(), v.to_string())).collect()
}

fn stats<'a>(t: &'a RegionTotals, region: &str) -> Option<&'a UAStats> {
    t.regions.iter().find(|r| r.region == region).map(|r| &r.stats)
}

fn count(cs: &[Counter], name: &str) -> Option<u64> {
    cs.iter().find(|c| c.name == name).map(|c| c.count)
}

#[test]
fn parse_count_reads_unsigned_decimals() {
    assert_eq!(parse_count("42"), Some(42));
    assert_eq!(parse_count("+7"), Some(7));
    assert_eq!(parse_count("007"), Some(7));
    assert_eq!(parse_count("18446744073709551615"), Some(u64::MAX));
    assert_eq!(parse_count("18446744073709551616"), None);
    assert_eq!(parse_count(""), None);
    assert_eq!(parse_count("+"), None);
    assert_eq!(parse_count("-1"), None);
    assert_eq!(parse_count("4a"), None);
    assert_eq!(parse_count(" 4"), None);
}

#[test]
fn parse_count_agrees_with_std() {
    for s in ["0", "1", "+0", "99999", "00", "1_0", "++1", "9999999999999999999", "18446744073709551615"] {
        assert_eq!(parse_count(s), s.parse::<u64>().ok(), "{s}");
    }
}

#[test]
fn text_pieces() {
    assert_eq!(split_pieces("us:os:Linux", ':'), vec!["us", "os", "Linux"]);
    assert_eq!(split_pieces("", ':'), vec![""]);
    assert_eq!(split_pieces(":a::", ':'), vec!["", "a", "", ""]);
    assert_eq!(last_piece_of("projects/1/zones/us-central1-a", '/'), "us-central1-a");
    assert_eq!(last_piece_of("a/", '/'), "");
    assert!(contains_char("a:b", ':'));
    assert!(!contains_char("ab", ':'));
    assert!(contains_str("iad:browser:Chrome", ":browser:"));
    assert!(!contains_str("iad:browser", ":browser:"));
    assert!(contains_str("anything", ""));
}

#[test]
fn totals_per_region() {
    let data = pairs(&[
        ("iad", "3"),
        ("iad:browser:Chrome", "2"),
        ("iad:browser:Firefox", "1"),
        ("iad:os:Linux", "1"),
        ("ord", "5"),
        ("sea:os:Mac OSX", "4"),
    ]);
    let t = region_totals(&data);
    assert_eq!(t.regions.len(), 3);
    let iad = stats(&t, "iad").unwrap();
    assert_eq!(iad.visits, 3);
    assert_eq!(count(&iad.browsers, "Chrome"), Some(2));
    assert_eq!(count(&iad.browsers, "Firefox"), Some(1));
    assert_eq!(count(&iad.os, "Linux"), Some(1));
    assert_eq!(iad.os.len(), 1);
    let ord = stats(&t, "ord").unwrap();
    assert_eq!(ord.visits, 5);
    assert!(ord.os.is_empty() && ord.browsers.is_empty());
    let sea = stats(&t, "sea").unwrap();
    assert_eq!(sea.visits, 0);
    assert_eq!(count(&sea.os, "Mac OSX"), Some(4));
}

#[test]
fn totals_add_counters_that_name_the_same_label() {
    let data = pairs(&[("lhr:os:Linux", "2"), ("lhr:os:Linux:x", "3"), ("other:key", "not a number")]);
    let t = region_totals(&data);
    assert_eq!(t.regions.len(), 1);
    let lhr = stats(&t, "lhr").unwrap();
    assert_eq!(count(&lhr.os, "Linux"), Some(5));
    assert_eq!(lhr.visits, 0);
}

#[test]
fn totals_of_nothing() {
    let t = region_totals(&Vec::new());
    assert!(t.regions.is_empty());
}

#[test]
fn region_visits_read_back() {
    let data = pairs(&[("ams", "12"), ("ams:os:Windows 10", "7"), ("nrt", "+1")]);
    let t = region_totals(&data);
    assert_eq!(stats(&t, "ams").unwrap().visits, 12);
    assert_eq!(stats(&t, "nrt").unwrap().visits, 1);
}

#[test]
fn visit_keys_read_back() {
    let keys = visit_keys(
        &"fra".to_string(),
        Some(UserAgent { name: "Safari".to_string(), os: "iPhone".to_string() }),
    );
    assert_eq!(keys, vec!["fra", "fra:browser:Safari", "fra:os:iPhone"]);
    let data: Vec<(String, String)> = keys.into_iter().map(|k| (k, "1".to_string())).collect();
    let t = region_totals(&data);
    let fra = stats(&t, "fra").unwrap();
    assert_eq!(fra.visits, 1);
    assert_eq!(count(&fra.browsers, "Safari"), Some(1));
    assert_eq!(count(&fra.os, "iPhone"), Some(1));
    assert_eq!(fra.browsers.len(), 1);
    assert_eq!(fra.os.len(), 1);
}

#[test]
fn visit_keys_without_user_agent() {
    assert_eq!(visit_keys(&"gru".to_string(), None), vec!["gru"]);
    assert_eq!(visit_keys_for_request(&"gru".to_string(), None), vec!["gru"]);
}

#[test]
fn visit_keys_from_user_agent_header() {
    let ua = "Mozilla/5.0 (Windows NT 10.0; Win64; x64) AppleWebKit/537.36 (KHTML, like Gecko) Chrome/120.0.0.0 Safari/537.36";
    let keys = visit_keys_for_request(&"iad".to_string(), Some(ua));
    assert_eq!(keys, vec!["iad", "iad:browser:Chrome", "iad:os:Windows 10"]);
    let keys = visit_keys_for_request(&"iad".to_string(), Some(""));
    assert_eq!(keys, vec!["iad", "iad:browser:UNKNOWN", "iad:os:UNKNOWN"]);
}

#[test]
fn key_scan_follows_cursor_until_done() {
    let mut scan = KeyScan::new();
    scan.absorb(Ok(KeyPage { keys: vec!["a".to_string(), "b".to_string()], cursor: Some(2) }));
    assert!(!scan.finished);
    assert_eq!(scan.cursor, Some(2));
    scan.absorb(Ok(KeyPage { keys: vec!["c".to_string()], cursor: None }));
    assert!(scan.finished);
    assert_eq!(scan.keys, vec!["a", "b", "c"]);
}

#[test]
fn key_scan_stops_on_error() {
    let mut scan = KeyScan::new();
    scan.absorb(Ok(KeyPage { keys: vec!["a".to_string()], cursor: Some(1) }));
    scan.absorb(Err("store down".to_string()));
    assert!(scan.finished);
    assert_eq!(scan.keys, vec!["a"]);
    assert_eq!(scan.cursor, Some(1));
}

#[test]
fn checked_totals_refuse_unreadable_counters() {
    assert!(checked_region_totals(&pairs(&[("iad", "many")])).is_none());
    assert!(checked_region_totals(&pairs(&[("iad:browser:Chrome", "-3")])).is_none());
    assert!(checked_region_totals(&pairs(&[("a:b", "not a counter")])).is_some());
}

#[test]
fn checked_totals_refuse_overflow() {
    let max = u64::MAX.to_string();
    let data = pairs(&[("iad:os:Linux", max.as_str()), ("iad:os:Linux:2", "1")]);
    assert!(checked_region_totals(&data).is_none());
    let data = pairs(&[("iad", max.as_str()), ("iad:os:Linux", "1")]);
    let t = checked_region_totals(&data).unwrap();
    assert_eq!(stats(&t, "iad").unwrap().visits, u64::MAX);
}

#[test]
fn totals_do_not_depend_on_order() {
    let forward = pairs(&[("b:os:X", "1"), ("a", "2"), ("a:browser:Y", "3"), ("b", "4")]);
    let mut backward = forward.clone();
    backward.reverse();
    let t1 = region_totals(&forward);
    let t2 = region_totals(&backward);
    for region in ["a", "b"] {
        let s1 = stats(&t1, region).unwrap();
        let s2 = stats(&t2, region).unwrap();
        assert_eq!(s1.visits, s2.visits);
        assert_eq!(count(&s1.os, "X"), count(&s2.os, "X"));
        assert_eq!(count(&s1.browsers, "Y"), count(&s2.browsers, "Y"));
    }
    assert_eq!(t1.regions.len(), t2.regions.len());
}

#[test]
fn bump_counter_adds_or_starts() {
    let mut cs = vec![Counter { name: "Linux".to_string(), count: 2 }];
    assert!(bump_counter(&mut cs, &"Linux".to_string(), 3));
    assert!(bump_counter(&mut cs, &"BSD".to_string(), 1));
    assert_eq!(count(&cs, "Linux"), Some(5));
    assert_eq!(count(&cs, "BSD"), Some(1));
    assert!(!bump_counter(&mut cs, &"Linux".to_string(), u64::MAX));
    assert_eq!(count(&cs, "Linux"), Some(5));
}

#[test]
fn kept_values_drop_absent_and_failed_reads() {
    let keys = vec!["a".to_string(), "b".to_string(), "c".to_string()];
    let reads = vec![Ok(Some("1".to_string())), Ok(None), Err("down".to_string())];
    assert_eq!(kept_values(&keys, &reads), vec![("a".to_string(), "1".to_string())]);
}

#[test]
fn other_keys_change_nothing() {
    let base = pairs(&[("iad", "3"), ("iad:os:Linux", "1")]);
    let mut more = base.clone();
    more.insert(1, ("iad:misc".to_string(), "not a number".to_string()));
    let t1 = checked_region_totals(&base).unwrap();
    let t2 = checked_region_totals(&more).unwrap();
    assert_eq!(t1.regions.len(), t2.regions.len());
    let (s1, s2) = (stats(&t1, "iad").unwrap(), stats(&t2, "iad").unwrap());
    assert_eq!(s1.visits, s2.visits);
    assert_eq!(count(&s1.os, "Linux"), count(&s2.os, "Linux"));
    assert_eq!(s1.browsers.len(), s2.browsers.len());
}
