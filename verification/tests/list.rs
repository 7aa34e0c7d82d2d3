use systemctui::directory::{resolve, DirectoryError, Listing};
use systemctui::list::{canonicalize, dedup, get_services, retain_named, sort_by_name};
use systemctui::service::{AutoStartStatus, ServiceRecord};
use systemctui::text::{chars_le, chars_of, key_of};

fn unit(name: &str) -> ServiceRecord {
    ServiceRecord {
        name: name.to_string(),
        active: false,
        auto_start: AutoStartStatus::Disabled,
        description: None,
    }
}

fn described(name: &str, description: &str) -> ServiceRecord {
    ServiceRecord {
        name: name.to_string(),
        active: true,
        auto_start: AutoStartStatus::Enabled,
        description: Some(description.to_string()),
    }
}

fn names(list: &Vec<ServiceRecord>) -> Vec<String> {
    let mut out = Vec::new();
    for record in list {
        out.push(record.name.clone());
    }
    out
}

fn all_ok(records: Vec<ServiceRecord>) -> Listing {
    let mut units = Vec::new();
    for record in records {
        units.push(Ok(record));
    }
    Ok(units)
}

#[test]
fn builds_sorted_list_without_duplicates_and_empty_names() {
    let listing = all_ok(vec![
        unit("b.service"),
        unit("a.service"),
        unit("a.service"),
        unit(""),
        unit("c.service"),
    ]);
    let list = get_services(listing);
    assert_eq!(names(&list), vec!["a.service", "b.service", "c.service"]);
    assert_eq!(list, vec![unit("a.service"), unit("b.service"), unit("c.service")]);
}

#[test]
fn failed_query_gives_empty_list() {
    let list = get_services(Err(DirectoryError::QueryFailure));
    assert!(list.is_empty());
}

#[test]
fn empty_listing_gives_empty_list() {
    let list = get_services(Ok(Vec::new()));
    assert!(list.is_empty());
}

#[test]
fn unresolved_unit_is_left_out() {
    let listing: Listing = Ok(vec![
        Ok(unit("b.service")),
        Err(DirectoryError::Unresolvable),
        Ok(unit("a.service")),
        Err(DirectoryError::QueryFailure),
    ]);
    let list = get_services(listing);
    assert_eq!(names(&list), vec!["a.service", "b.service"]);
}

#[test]
fn resolve_puts_placeholder_for_failure() {
    let record = resolve(Err(DirectoryError::Unresolvable));
    assert_eq!(record.name, "");
    assert!(!record.active);
    assert_eq!(record.auto_start, AutoStartStatus::Disabled);
    assert_eq!(record.description, None);
    assert_eq!(record, ServiceRecord::default());
}

#[test]
fn resolve_keeps_described_record() {
    let record = resolve(Ok(described("sshd.service", "OpenSSH server daemon")));
    assert_eq!(record, described("sshd.service", "OpenSSH server daemon"));
}

#[test]
fn order_ignores_case() {
    let list = canonicalize(vec![unit("b.service"), unit("C.service"), unit("A.service")]);
    assert_eq!(names(&list), vec!["A.service", "b.service", "C.service"]);
}

#[test]
fn upper_case_name_sorts_behind_lower_case_name_that_precedes_it() {
    // by code points alone "Zebra" would come before "apple"
    let list = sort_by_name(vec![unit("Zebra.service"), unit("apple.service")]);
    assert_eq!(names(&list), vec!["apple.service", "Zebra.service"]);
}

#[test]
fn names_alike_but_for_case_keep_their_order() {
    let list = canonicalize(vec![unit("A.service"), unit("a.service"), unit("A.service")]);
    assert_eq!(names(&list), vec!["A.service", "a.service", "A.service"]);
    let list = canonicalize(vec![unit("a.service"), unit("A.service")]);
    assert_eq!(names(&list), vec!["a.service", "A.service"]);
}

#[test]
fn sort_is_stable() {
    let list = sort_by_name(vec![
        described("x.service", "first"),
        unit("a.service"),
        described("X.service", "second"),
        described("x.service", "third"),
    ]);
    assert_eq!(
        list,
        vec![
            unit("a.service"),
            described("x.service", "first"),
            described("X.service", "second"),
            described("x.service", "third"),
        ]
    );
}

#[test]
fn prefix_sorts_first() {
    let list = sort_by_name(vec![unit("ab.service"), unit("ab"), unit("a"), unit("abc")]);
    assert_eq!(names(&list), vec!["a", "ab", "ab.service", "abc"]);
}

#[test]
fn records_that_differ_in_any_field_are_both_kept() {
    let mut stopped = described("a.service", "same");
    stopped.active = false;
    let mut disabled = described("a.service", "same");
    disabled.auto_start = AutoStartStatus::Disabled;
    let list = canonicalize(vec![
        described("a.service", "same"),
        stopped.clone(),
        disabled.clone(),
        described("a.service", "other"),
        unit("a.service"),
    ]);
    assert_eq!(list.len(), 5);
    assert_eq!(list[0], described("a.service", "same"));
    assert_eq!(list[1], stopped);
    assert_eq!(list[2], disabled);
    assert_eq!(list[3], described("a.service", "other"));
    assert_eq!(list[4], unit("a.service"));
}

#[test]
fn dedup_collapses_runs_only() {
    let list = dedup(vec![
        unit("a"),
        unit("a"),
        unit("b"),
        unit("a"),
        unit("a"),
        unit("a"),
        unit("c"),
    ]);
    assert_eq!(names(&list), vec!["a", "b", "a", "c"]);
    assert!(dedup(Vec::new()).is_empty());
    assert_eq!(names(&dedup(vec![unit("a")])), vec!["a"]);
}

#[test]
fn retain_named_keeps_order() {
    let list = retain_named(vec![unit(""), unit("b"), unit(""), unit("a"), unit("")]);
    assert_eq!(names(&list), vec!["b", "a"]);
    assert!(retain_named(vec![unit(""), unit("")]).is_empty());
}

#[test]
fn building_twice_gives_the_same_list() {
    let records = vec![
        unit("Nginx.service"),
        unit("cron.service"),
        unit(""),
        described("sshd.service", "OpenSSH"),
        unit("cron.service"),
        unit("nginx.service"),
    ];
    let once = canonicalize(records.clone());
    let again = canonicalize(records);
    assert_eq!(once, again);
    let twice = canonicalize(once.clone());
    assert_eq!(twice, once);
    assert_eq!(
        names(&once),
        vec!["cron.service", "Nginx.service", "nginx.service", "sshd.service"]
    );
}

#[test]
fn list_is_ordered_and_free_of_adjacent_repeats() {
    let list = canonicalize(vec![
        unit("d"),
        unit("B"),
        unit("a"),
        unit("b"),
        unit("D"),
        unit("a"),
        unit("c"),
        unit(""),
    ]);
    for i in 1..list.len() {
        assert!(list[i - 1].name.to_lowercase() <= list[i].name.to_lowercase());
        assert_ne!(list[i - 1], list[i]);
    }
    for record in &list {
        assert!(!record.name.is_empty());
    }
    assert_eq!(names(&list), vec!["a", "B", "b", "c", "d", "D"]);
}

#[test]
fn key_is_the_lowercase_name() {
    assert_eq!(key_of(&"SSHD.Service".to_string()), vec!['s', 's', 'h', 'd', '.', 's', 'e', 'r', 'v', 'i', 'c', 'e']);
    assert_eq!(key_of(&"ÄB".to_string()), vec!['ä', 'b']);
    assert_eq!(key_of(&String::new()), Vec::<char>::new());
}

#[test]
fn chars_of_gives_the_characters() {
    assert_eq!(chars_of("aé1"), vec!['a', 'é', '1']);
    assert_eq!(chars_of(""), Vec::<char>::new());
}

#[test]
fn chars_le_is_lexicographic() {
    let le = |a: &str, b: &str| chars_le(&chars_of(a), &chars_of(b));
    assert!(le("", ""));
    assert!(le("", "a"));
    assert!(!le("a", ""));
    assert!(le("a", "a"));
    assert!(le("a", "b"));
    assert!(!le("b", "a"));
    assert!(le("ab", "abc"));
    assert!(!le("abc", "ab"));
    assert!(le("abc", "abd"));
    assert!(le("B", "a"));
    assert!(le("z", "é"));
    assert!(!le("é", "z"));
    // agrees with the order of strings
    for (a, b) in [("a", "B"), ("é", "e"), ("ab", "a"), ("", "x"), ("€", "é")] {
        assert_eq!(le(a, b), a <= b);
        assert_eq!(le(b, a), b <= a);
    }
}
