use local_quota_widget::quota::QuotaSnapshot;
use local_quota_widget::session::{
    auth_path, codex_session_root, collect_rollout_files, is_rollout_name, no_home_snapshot,
    no_sessions_snapshot, snapshot_from_tail, tail_start, text_snapshot, Entry, HomeVariable,
    ScanStep, SessionScan, MAX_FILES_TO_SCAN, MAX_TAIL_BYTES,
};

fn line(percent: u32) -> String {
    format!(
        "{{\"type\":\"event_msg\",\"timestamp\":\"t{percent}\",\"payload\":{{\"type\":\"token_count\",\"rate_limits\":{{\"primary\":{{\"used_percent\":{percent}}}}}}}}}"
    )
}

fn observed(snapshot: Option<QuotaSnapshot>) -> Option<String> {
    snapshot.and_then(|found| found.observed_at)
}

fn file(name: &str, modified: Option<i128>, id: usize) -> Entry {
    Entry::File {
        name: Some(name.to_owned()),
        modified,
        id,
    }
}

#[test]
fn the_data_is_found_below_the_named_directory_first() {
    let place = codex_session_root(true, true).expect("a place");
    assert_eq!(place.base, HomeVariable::CodexHome);
    assert_eq!(place.components, vec!["sessions"]);
    let place = codex_session_root(false, true).expect("a place");
    assert_eq!(place.base, HomeVariable::UserProfile);
    assert_eq!(place.components, vec![".codex", "sessions"]);
    assert!(codex_session_root(false, false).is_none());
    let place = auth_path(true, false).expect("a place");
    assert_eq!(place.base, HomeVariable::CodexHome);
    assert_eq!(place.components, vec!["auth.json"]);
    let place = auth_path(false, true).expect("a place");
    assert_eq!(place.components, vec![".codex", "auth.json"]);
    assert!(auth_path(false, false).is_none());
}

#[test]
fn session_logs_go_by_their_names() {
    assert!(is_rollout_name("rollout-2026.jsonl"));
    assert!(is_rollout_name("rollout-.jsonl"));
    assert!(!is_rollout_name("rollout-2026.json"));
    assert!(!is_rollout_name("a-rollout-2026.jsonl"));
    assert!(!is_rollout_name("rollout.jsonl"));
    assert!(!is_rollout_name(""));
}

#[test]
fn logs_are_found_at_any_depth() {
    let entries = vec![
        file("rollout-a.jsonl", Some(3), 0),
        Entry::Directory(vec![
            file("notes.txt", Some(9), 1),
            Entry::Directory(vec![file("rollout-b.jsonl", None, 2)]),
            Entry::Unknown,
        ]),
        Entry::File {
            name: None,
            modified: Some(8),
            id: 3,
        },
        Entry::Directory(vec![]),
        file("rollout-c.jsonl", Some(-1), 4),
    ];
    assert_eq!(collect_rollout_files(&entries), vec![(3, 0), (0, 2), (-1, 4)]);
}

fn read_order(logs: &Vec<(i128, usize)>) -> Vec<usize> {
    let mut scan = SessionScan::begin(logs);
    let mut order = Vec::new();
    loop {
        match scan.step(None) {
            ScanStep::Read(id) => order.push(id),
            ScanStep::Done(snapshot) => {
                assert_eq!(snapshot.status, "missing");
                assert_eq!(
                    snapshot.message.as_deref(),
                    Some("会话日志中尚无额度事件，请在 Codex 中运行一次任务后刷新。")
                );
                return order;
            }
        }
    }
}

#[test]
fn newer_logs_are_read_first() {
    assert_eq!(
        read_order(&vec![(5, 50), (9, 90), (5, 51), (-2, 20), (9, 91)]),
        vec![90, 91, 50, 51, 20]
    );
    assert_eq!(read_order(&vec![]), Vec::<usize>::new());
}

#[test]
fn no_more_logs_are_read_than_the_limit() {
    let logs: Vec<(i128, usize)> = (0..100).map(|i| ((i % 7) as i128, i)).collect();
    let mut sorted = logs.clone();
    sorted.sort_by_key(|log| std::cmp::Reverse(log.0));
    let expected: Vec<usize> = sorted
        .into_iter()
        .take(MAX_FILES_TO_SCAN)
        .map(|log| log.1)
        .collect();
    assert_eq!(read_order(&logs), expected);
    assert_eq!(expected.len(), 32);
}

#[test]
fn the_newest_snapshot_ends_the_scan() {
    let mut scan = SessionScan::begin(&vec![(1, 10), (2, 20), (3, 30)]);
    assert!(matches!(scan.step(None), ScanStep::Read(30)));
    assert!(matches!(scan.step(None), ScanStep::Read(20)));
    let held = text_snapshot(&line(4));
    match scan.step(held) {
        ScanStep::Done(snapshot) => assert_eq!(snapshot.observed_at.as_deref(), Some("t4")),
        ScanStep::Read(id) => panic!("asked for {id}"),
    }
}

#[test]
fn missing_directories_are_told() {
    assert_eq!(
        no_home_snapshot().message.as_deref(),
        Some("无法定位用户目录。")
    );
    assert_eq!(
        no_sessions_snapshot().message.as_deref(),
        Some("尚未找到 Codex 会话目录，请先运行一次 Codex 任务。")
    );
}

#[test]
fn the_end_of_a_log_is_read() {
    assert_eq!(tail_start(0), 0);
    assert_eq!(tail_start(MAX_TAIL_BYTES), 0);
    assert_eq!(tail_start(MAX_TAIL_BYTES + 5), 5);
    assert_eq!(tail_start(u64::MAX), u64::MAX - 2 * 1024 * 1024);
}

#[test]
fn the_last_event_of_a_log_wins() {
    let text = format!("{}\n{}\nnot json\n{{}}\n", line(1), line(2));
    assert_eq!(
        observed(snapshot_from_tail(text.as_bytes(), false)),
        Some("t2".to_owned())
    );
    assert_eq!(observed(text_snapshot("")), None);
    assert_eq!(observed(snapshot_from_tail(b"", false)), None);
}

#[test]
fn a_cut_line_is_left_out() {
    let text = format!("{}\n{}\r\n", line(1), line(2));
    assert_eq!(
        observed(snapshot_from_tail(text.as_bytes(), true)),
        Some("t2".to_owned())
    );
    let single = line(3);
    assert_eq!(
        observed(snapshot_from_tail(single.as_bytes(), false)),
        Some("t3".to_owned())
    );
    assert_eq!(observed(snapshot_from_tail(single.as_bytes(), true)), None);
    let only_cut = format!("{}\n", line(3));
    assert_eq!(observed(snapshot_from_tail(only_cut.as_bytes(), true)), None);
}

#[test]
fn bytes_that_are_no_text_spoil_their_line_alone() {
    let mut bytes = line(5).into_bytes();
    bytes.extend_from_slice(b"\n\xff\xfe{\n");
    assert_eq!(
        observed(snapshot_from_tail(&bytes, false)),
        Some("t5".to_owned())
    );
}
