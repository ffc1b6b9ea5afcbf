use task_switcher::order::{sort_by_key, sort_by_title, KeyedApp, ProcessInfo};

fn app(pid: u32, title: &str) -> ProcessInfo {
    ProcessInfo { pid, name: format!("app{pid}.exe"), title: title.to_string(), icon: None }
}

fn keyed(pid: u32, key: &str) -> KeyedApp {
    KeyedApp { key: key.chars().collect(), app: app(pid, "untitled") }
}

fn key_order(items: &[KeyedApp]) -> Vec<(u32, String)> {
    items.iter().map(|k| (k.app.pid, k.key.iter().collect())).collect()
}

fn order(apps: &[ProcessInfo]) -> Vec<(u32, String)> {
    apps.iter().map(|a| (a.pid, a.title.clone())).collect()
}

#[test]
fn sort_orders_by_title() {
    let sorted = sort_by_title(&[app(1, "Gamma"), app(2, "Alpha"), app(3, "Beta")]);
    assert_eq!(
        order(&sorted),
        vec![(2, "Alpha".to_string()), (3, "Beta".to_string()), (1, "Gamma".to_string())]
    );
}

#[test]
fn sort_disregards_case() {
    let sorted = sort_by_title(&[app(1, "beta"), app(2, "Alpha"), app(3, "GAMMA"), app(4, "aLPHABET")]);
    assert_eq!(
        order(&sorted),
        vec![
            (2, "Alpha".to_string()),
            (4, "aLPHABET".to_string()),
            (1, "beta".to_string()),
            (3, "GAMMA".to_string())
        ]
    );
}

#[test]
fn sort_keeps_the_order_of_titles_that_differ_only_in_case() {
    let sorted = sort_by_title(&[app(1, "notes"), app(2, "Notes"), app(3, "NOTES"), app(4, "Mail")]);
    assert_eq!(
        order(&sorted),
        vec![
            (4, "Mail".to_string()),
            (1, "notes".to_string()),
            (2, "Notes".to_string()),
            (3, "NOTES".to_string())
        ]
    );
    let reversed = sort_by_title(&[app(3, "NOTES"), app(2, "Notes"), app(1, "notes")]);
    assert_eq!(
        order(&reversed),
        vec![(3, "NOTES".to_string()), (2, "Notes".to_string()), (1, "notes".to_string())]
    );
}

#[test]
fn sort_puts_a_title_before_its_extensions() {
    let sorted = sort_by_title(&[app(1, "Editor - notes"), app(2, "Editor"), app(3, "Edit")]);
    assert_eq!(
        order(&sorted),
        vec![(3, "Edit".to_string()), (2, "Editor".to_string()), (1, "Editor - notes".to_string())]
    );
}

#[test]
fn sort_lowers_letters_outside_ascii() {
    // "É" becomes "é", which comes after every ASCII letter.
    let sorted = sort_by_title(&[app(1, "Éclair"), app(2, "zebra"), app(3, "éclair"), app(4, "Zoo")]);
    assert_eq!(
        order(&sorted),
        vec![
            (2, "zebra".to_string()),
            (4, "Zoo".to_string()),
            (1, "Éclair".to_string()),
            (3, "éclair".to_string())
        ]
    );
}

#[test]
fn sort_of_nothing_and_of_one() {
    assert!(sort_by_title(&[]).is_empty());
    assert_eq!(order(&sort_by_title(&[app(9, "Only")])), vec![(9, "Only".to_string())]);
}

#[test]
fn sort_keeps_every_field() {
    let with_icon = ProcessInfo {
        pid: 4,
        name: "paint.exe".to_string(),
        title: "Paint".to_string(),
        icon: Some("data:image/png;base64,AAAA".to_string()),
    };
    let sorted = sort_by_title(&[app(1, "Zed"), with_icon]);
    assert_eq!(sorted[0].pid, 4);
    assert_eq!(sorted[0].name, "paint.exe");
    assert_eq!(sorted[0].title, "Paint");
    assert_eq!(sorted[0].icon.as_deref(), Some("data:image/png;base64,AAAA"));
    assert_eq!(sorted[1].pid, 1);
    assert_eq!(sorted[1].icon, None);
}

#[test]
fn sort_agrees_with_a_stable_sort_by_lowercase_title() {
    let titles = [
        "delta", "Alpha", "charlie", "BRAVO", "alpha", "Echo", "bravo", "ALPHA", "Zulu", "echo",
        "", "1 file", "文档", "Über", "uber",
    ];
    let mut apps = Vec::new();
    for (i, title) in titles.iter().enumerate() {
        apps.push(app(i as u32 + 1, title));
    }
    let mut expected = order(&apps);
    expected.sort_by(|a, b| a.1.to_lowercase().cmp(&b.1.to_lowercase()));
    assert_eq!(order(&sort_by_title(&apps)), expected);
}

#[test]
fn sorted_titles_never_go_down() {
    let titles = ["m", "B", "a", "C", "b", "A", "z", "Y", "x"];
    let mut apps = Vec::new();
    for (i, title) in titles.iter().enumerate() {
        apps.push(app(i as u32, title));
    }
    let sorted = sort_by_title(&apps);
    assert_eq!(sorted.len(), apps.len());
    for pair in sorted.windows(2) {
        assert!(pair[0].title.to_lowercase() <= pair[1].title.to_lowercase());
    }
}

#[test]
fn sort_by_key_orders_by_the_keys_given() {
    let sorted = sort_by_key(vec![keyed(1, "pear"), keyed(2, "apple"), keyed(3, "fig")]);
    assert_eq!(
        key_order(&sorted),
        vec![(2, "apple".to_string()), (3, "fig".to_string()), (1, "pear".to_string())]
    );
}

#[test]
fn sort_by_key_does_not_fold_case() {
    let sorted = sort_by_key(vec![keyed(1, "b"), keyed(2, "a"), keyed(3, "B"), keyed(4, "A")]);
    assert_eq!(
        key_order(&sorted),
        vec![
            (4, "A".to_string()),
            (3, "B".to_string()),
            (2, "a".to_string()),
            (1, "b".to_string())
        ]
    );
}

#[test]
fn sort_by_key_keeps_the_order_of_equal_keys() {
    let sorted = sort_by_key(vec![
        keyed(1, "same"),
        keyed(2, "other"),
        keyed(3, "same"),
        keyed(4, "same"),
        keyed(5, "other"),
    ]);
    assert_eq!(
        key_order(&sorted),
        vec![
            (2, "other".to_string()),
            (5, "other".to_string()),
            (1, "same".to_string()),
            (3, "same".to_string()),
            (4, "same".to_string())
        ]
    );
}

#[test]
fn sort_by_key_puts_a_prefix_first_and_the_empty_key_before_all() {
    let sorted = sort_by_key(vec![keyed(1, "abc"), keyed(2, "ab"), keyed(3, ""), keyed(4, "abd")]);
    assert_eq!(
        key_order(&sorted),
        vec![
            (3, "".to_string()),
            (2, "ab".to_string()),
            (1, "abc".to_string()),
            (4, "abd".to_string())
        ]
    );
}

#[test]
fn sort_by_key_of_nothing_is_empty() {
    assert!(sort_by_key(Vec::new()).is_empty());
}

#[test]
fn sort_by_key_keeps_the_applications_with_their_keys() {
    let items = vec![
        KeyedApp { key: vec!['z'], app: app(1, "First") },
        KeyedApp { key: vec!['y'], app: app(2, "Second") },
    ];
    let sorted = sort_by_key(items);
    assert_eq!(sorted[0].key, vec!['y']);
    assert_eq!(sorted[0].app.title, "Second");
    assert_eq!(sorted[1].key, vec!['z']);
    assert_eq!(sorted[1].app.title, "First");
}
