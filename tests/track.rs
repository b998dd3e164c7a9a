use track::config::{Config, ConfigError};
use track::date::Date;
use track::redmine::{Activity, CustomField, CustomValue, Named, TimeEntry, User};
use track::track::{default_activity, filter_entries, flag_is_set, is_ignored, issue_ids, list_range};

fn entry(id: i32, issue: Option<i32>, fields: Vec<CustomValue>) -> TimeEntry {
    TimeEntry {
        id,
        user: Named { id: 1, name: None },
        project: Named { id: 1, name: Some("P".to_string()) },
        issue: issue.map(|i| Named { id: i, name: None }),
        hours: 100,
        comments: None,
        spent_on: "2022-01-01".to_string(),
        custom_fields: fields,
    }
}

fn value(name: &str, v: Option<&str>) -> CustomValue {
    CustomValue { id: 1, name: name.to_string(), value: v.map(|s| s.to_string()) }
}

#[test]
fn list_range_for_days_and_weeks() {
    let thursday = Date::parse("2023-02-16").unwrap();
    assert_eq!(list_range(&thursday, false, false), (thursday, None));
    assert_eq!(list_range(&thursday, true, false), (Date::parse("2023-02-15").unwrap(), None));
    assert_eq!(
        list_range(&thursday, false, true),
        (Date::parse("2023-02-13").unwrap(), Date::parse("2023-02-19"))
    );
    assert_eq!(
        list_range(&thursday, true, true),
        (Date::parse("2023-02-06").unwrap(), Date::parse("2023-02-12"))
    );
}

#[test]
fn ignored_entries_are_left_out() {
    let entries = vec![
        entry(1, None, vec![value("billable", Some("TRUE"))]),
        entry(2, None, vec![value("billable", Some("0"))]),
        entry(3, None, vec![value("billable", None)]),
        entry(4, None, vec![value("other", Some("1")), value("billable", Some("1"))]),
        entry(5, None, vec![value("other", Some("1"))]),
    ];
    assert!(is_ignored(&entries[0], "billable"));
    assert!(!is_ignored(&entries[1], "billable"));
    assert!(!is_ignored(&entries[2], "billable"));
    assert!(is_ignored(&entries[3], "billable"));
    let kept = filter_entries(&entries, &Some("billable".to_string()));
    let ids: Vec<i32> = kept.iter().map(|e| e.id).collect();
    assert_eq!(ids, vec![2, 3, 5]);
    assert_eq!(filter_entries(&entries, &None), entries);
}

#[test]
fn flags_read_one_or_true() {
    assert!(flag_is_set(&"1".to_string(), &"1".to_string()));
    assert!(flag_is_set(&"True".to_string(), &"true".to_string()));
    assert!(!flag_is_set(&"yes".to_string(), &"yes".to_string()));
}

#[test]
fn issue_ids_in_order() {
    let entries = vec![entry(1, Some(7), vec![]), entry(2, None, vec![]), entry(3, Some(3), vec![])];
    assert_eq!(issue_ids(&entries), vec![7, 3]);
}

#[test]
fn default_activity_is_the_first_marked() {
    let act = |id, d| Activity { id, name: format!("a{id}"), is_default: d };
    assert_eq!(default_activity(&vec![act(1, None), act(2, Some(false)), act(3, Some(true)), act(4, Some(true))]), 2);
    assert_eq!(default_activity(&vec![act(1, None), act(2, Some(false))]), 0);
    assert_eq!(default_activity(&vec![]), 0);
}

#[test]
fn custom_field_kinds() {
    let field = |kind: &str, required| CustomField {
        id: 1,
        name: "f".to_string(),
        is_required: required,
        field_format: "bool".to_string(),
        customized_type: kind.to_string(),
    };
    assert!(field("time_entry", None).is_for_time_entry());
    assert!(!field("issue", None).is_for_time_entry());
    assert!(field("issue", Some(true)).is_required());
    assert!(!field("issue", Some(false)).is_required());
    assert!(!field("issue", None).is_required());
}

#[test]
fn config_needs_an_api_key() {
    let url = url::Url::parse("https://tracker.example.com/").unwrap();
    let user = User {
        id: 5,
        login: "jd".to_string(),
        firstname: "J".to_string(),
        lastname: "D".to_string(),
        api_key: Some("abc".to_string()),
    };
    let config = Config::new(url.clone(), user.clone()).unwrap();
    assert_eq!(config.key, "abc");
    assert_eq!(config.user_id, 5);
    assert_eq!(config.login, "jd");
    assert_eq!(config.base_url, url);
    assert!(config.custom_fields.is_empty());
    let keyless = User { api_key: None, ..user };
    assert!(matches!(Config::new(url, keyless), Err(ConfigError::ApiKeyMissing)));
}
