use cloud_metadata::page::{cloud_page_reply, fly_page_reply};
use cloud_metadata::web::{cloud_stop_on, failure_message, stop_on, Failure};

fn strings(items: &[&str]) -> Vec<String> {
    items.iter().map(|s| s.to_string()).collect()
}

fn pairs(items: &[(&str, &str)]) -> Vec<(String, String)> {
    items.iter().map(|(k, v)| (k.to_string(), v.to_string())).collect()
}

const FLY_TEMPLATE: &str = "{{code}} {{location}}{{#each region_data}} {{@key}}={{this}}{{/each}}";

#[test]
fn fly_page_lists_the_counts_read() {
    let keys = strings(&["ord", "iad", "lhr", "sin"]);
    let reads = vec![
        Ok(Some("1".to_string())),
        Ok(Some("3".to_string())),
        Ok(None),
        Err("unreachable".to_string()),
    ];
    let r = fly_page_reply(FLY_TEMPLATE, "iad", "Ashburn, Virginia (US)", &keys, &reads).unwrap();
    assert_eq!(r.status, 200);
    assert_eq!(r.content_type, None);
    assert_eq!(String::from_utf8(r.body).unwrap(), "iad Ashburn, Virginia (US) iad=3 ord=1");
}

#[test]
fn fly_page_with_no_keys() {
    let r = fly_page_reply("[{{code}}]{{#each region_data}}x{{/each}}", "", "here", &vec![], &vec![]).unwrap();
    assert_eq!(r.body, b"[]".to_vec());
}

#[test]
fn fly_page_of_a_broken_template() {
    let keys = strings(&["iad"]);
    let reads = vec![Ok(Some("3".to_string()))];
    assert!(fly_page_reply("{{#each region_data}}", "iad", "Ashburn", &keys, &reads).is_none());
}

#[test]
fn cloud_page_shows_the_totals() {
    let data = pairs(&[
        ("iad", "3"),
        ("iad:browser:Chrome", "2"),
        ("iad:os:Linux", "1"),
        ("ord:os:Mac OSX", "4"),
    ]);
    let template = "{{code}}|{{location}}|{{{region_json}}}|{{#each region_data}}{{@key}}={{this.visits}};{{/each}}";
    let r = cloud_page_reply(template, "iad", "Ashburn", &data).unwrap();
    assert_eq!(r.status, 200);
    assert_eq!(r.content_type.as_deref(), Some("text/html"));
    assert_eq!(
        String::from_utf8(r.body).unwrap(),
        "iad|Ashburn|".to_string()
            + r#"{"iad":{"browsers":{"Chrome":2},"os":{"Linux":1},"visits":3},"#
            + r#""ord":{"browsers":{},"os":{"Mac OSX":4},"visits":0}}"#
            + "|iad=3;ord=0;"
    );
}

#[test]
fn cloud_page_counts_in_any_order() {
    let template = "{{{region_json}}}";
    let a = cloud_page_reply(template, "x", "y", &pairs(&[("iad:os:Linux", "1"), ("iad", "2")])).unwrap();
    let b = cloud_page_reply(template, "x", "y", &pairs(&[("iad", "2"), ("iad:os:Linux", "1")])).unwrap();
    assert_eq!(a.body, b.body);
    assert_eq!(a.body, br#"{"iad":{"browsers":{},"os":{"Linux":1},"visits":2}}"#.to_vec());
}

#[test]
fn cloud_page_refuses_unreadable_or_oversized_counts() {
    let template = "{{{region_json}}}";
    assert!(cloud_page_reply(template, "iad", "Ashburn", &pairs(&[("iad", "many")])).is_none());
    let big = pairs(&[("iad", "18446744073709551615"), ("iad", "1")]);
    assert!(cloud_page_reply(template, "iad", "Ashburn", &big).is_none());
    assert!(cloud_page_reply("{{#if}}", "iad", "Ashburn", &pairs(&[("iad", "1")])).is_none());
}

#[test]
fn cloud_steps_stop_only_without_metadata() {
    let failed: Result<(), String> = Err("down".to_string());
    let fine: Result<(), String> = Ok(());
    let r = cloud_stop_on(Failure::GetMetadata, &failed).unwrap();
    assert_eq!((r.status, r.content_type, r.body.len()), (500, None, 0));
    assert!(cloud_stop_on(Failure::GetMetadata, &fine).is_none());
    assert!(cloud_stop_on(Failure::IncrementKey, &failed).is_none());
    assert!(cloud_stop_on(Failure::ListKeys, &failed).is_none());
    assert_eq!(failure_message(Failure::ListKeys, "down"), "Error listing keys: down");
    let r = stop_on(Failure::ListKeys, &failed).unwrap();
    assert_eq!(r.body, b"Error: Error listing keys: down".to_vec());
}
