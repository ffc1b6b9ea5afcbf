use task_switcher::window::{
    accept_window, dedup_by_process, enumerate_windows, skips_title, RawWindow, WindowInfo,
};

fn window(pid: u32, title: &str) -> WindowInfo {
    WindowInfo { pid, title: title.to_string() }
}

fn raw(visible: bool, title: &str, pid: u32) -> RawWindow {
    RawWindow { visible, title: title.to_string(), pid }
}

fn pairs(windows: &[WindowInfo]) -> Vec<(u32, String)> {
    windows.iter().map(|w| (w.pid, w.title.clone())).collect()
}

#[test]
fn empty_title_is_skipped() {
    assert!(skips_title(""));
}

#[test]
fn desktop_title_is_skipped() {
    assert!(skips_title("Program Manager"));
}

#[test]
fn input_experience_title_is_skipped() {
    assert!(skips_title("Windows Input Experience"));
}

#[test]
fn input_method_prefix_is_skipped() {
    assert!(skips_title("MSCTFIME"));
    assert!(skips_title("MSCTFIME UI"));
}

#[test]
fn skip_list_is_case_sensitive() {
    assert!(!skips_title("program manager"));
    assert!(!skips_title("PROGRAM MANAGER"));
    assert!(!skips_title("windows input experience"));
    assert!(!skips_title("msctfime ui"));
}

#[test]
fn skip_list_needs_the_whole_title_or_the_prefix() {
    assert!(!skips_title("Program Manager 2"));
    assert!(!skips_title("My Program Manager"));
    assert!(!skips_title("Windows Input Experience Settings"));
    assert!(!skips_title("About MSCTFIME"));
    assert!(!skips_title("MSCTFIM"));
    assert!(!skips_title(" "));
}

#[test]
fn ordinary_titles_are_kept() {
    assert!(!skips_title("Notepad"));
    assert!(!skips_title("文档 - 记事本"));
}

#[test]
fn visible_titled_window_with_owner_is_accepted() {
    assert!(accept_window(true, "Notepad", 42));
}

#[test]
fn invisible_window_is_rejected() {
    assert!(!accept_window(false, "Notepad", 42));
}

#[test]
fn window_without_owner_is_rejected() {
    assert!(!accept_window(true, "Notepad", 0));
}

#[test]
fn window_with_skipped_title_is_rejected() {
    assert!(!accept_window(true, "", 42));
    assert!(!accept_window(true, "Program Manager", 42));
    assert!(!accept_window(true, "MSCTFIME UI", 42));
}

#[test]
fn enumeration_keeps_application_windows_in_order() {
    let reported = vec![
        raw(true, "Zeta", 7),
        raw(false, "Hidden", 8),
        raw(true, "", 9),
        raw(true, "Program Manager", 10),
        raw(true, "Alpha", 0),
        raw(true, "Alpha", 11),
        raw(true, "MSCTFIME UI", 12),
        raw(true, "Zeta", 7),
    ];
    let windows = enumerate_windows(&reported);
    assert_eq!(
        pairs(&windows),
        vec![(7, "Zeta".to_string()), (11, "Alpha".to_string()), (7, "Zeta".to_string())]
    );
}

#[test]
fn enumeration_of_nothing_is_empty() {
    assert!(enumerate_windows(&[]).is_empty());
}

#[test]
fn dedup_keeps_the_longest_title_of_each_process() {
    let windows = vec![window(10, "A"), window(10, "Alpha"), window(20, "Beta")];
    let kept = dedup_by_process(&windows);
    assert_eq!(pairs(&kept), vec![(10, "Alpha".to_string()), (20, "Beta".to_string())]);
}

#[test]
fn dedup_keeps_the_first_of_equally_long_titles() {
    let windows = vec![window(5, "left"), window(5, "east"), window(5, "west")];
    let kept = dedup_by_process(&windows);
    assert_eq!(pairs(&kept), vec![(5, "left".to_string())]);
}

#[test]
fn dedup_ignores_a_shorter_later_title() {
    let windows = vec![window(5, "Document - Editor"), window(5, "Editor")];
    let kept = dedup_by_process(&windows);
    assert_eq!(pairs(&kept), vec![(5, "Document - Editor".to_string())]);
}

#[test]
fn dedup_keeps_processes_in_order_of_first_appearance() {
    let windows = vec![
        window(30, "c"),
        window(10, "a"),
        window(20, "b"),
        window(10, "aaaa"),
        window(30, "cc"),
        window(10, "aa"),
    ];
    let kept = dedup_by_process(&windows);
    assert_eq!(
        pairs(&kept),
        vec![(30, "cc".to_string()), (10, "aaaa".to_string()), (20, "b".to_string())]
    );
}

#[test]
fn dedup_measures_titles_in_utf8_bytes() {
    // "é" takes two bytes and "zz" takes two: the first stays.
    let tie = dedup_by_process(&[window(1, "é"), window(1, "zz")]);
    assert_eq!(pairs(&tie), vec![(1, "é".to_string())]);
    // "é" takes two bytes and "z" one: the later, longer one wins.
    let longer = dedup_by_process(&[window(1, "z"), window(1, "é")]);
    assert_eq!(pairs(&longer), vec![(1, "é".to_string())]);
    // Three characters of one byte lose against two characters of three bytes each.
    let wide = dedup_by_process(&[window(1, "abc"), window(1, "文档")]);
    assert_eq!(pairs(&wide), vec![(1, "文档".to_string())]);
}

#[test]
fn dedup_of_nothing_is_empty() {
    assert!(dedup_by_process(&[]).is_empty());
}

#[test]
fn dedup_has_one_entry_for_each_process() {
    let mut windows = Vec::new();
    for round in 0..5u32 {
        for pid in 1..=8u32 {
            windows.push(window(pid, &"x".repeat(((pid * 7 + round * 3) % 11) as usize + 1)));
        }
    }
    let kept = dedup_by_process(&windows);
    assert_eq!(kept.len(), 8);
    for pid in 1..=8u32 {
        let of_pid: Vec<&WindowInfo> = windows.iter().filter(|w| w.pid == pid).collect();
        let longest = of_pid.iter().map(|w| w.title.len()).max().unwrap();
        let first_longest = of_pid.iter().find(|w| w.title.len() == longest).unwrap();
        let entry: Vec<&WindowInfo> = kept.iter().filter(|w| w.pid == pid).collect();
        assert_eq!(entry.len(), 1);
        assert_eq!(entry[0].title, first_longest.title);
    }
}
