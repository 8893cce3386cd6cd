use flint::who::{elsewhere_line, split_here, who_report, Presence, Recent};
use serde_json::Value;

fn run(pid: u32, cwd: &str) -> Presence {
    Presence {
        pid,
        cwd: cwd.to_string(),
        provider: "deepseek".to_string(),
        model: "deepseek-chat".to_string(),
        readonly: false,
        started: 0,
        last_seen: 0,
        session: String::new(),
    }
}

#[test]
fn the_runs_of_this_directory_are_told_from_the_others() {
    let records = vec![run(1, "/a"), run(2, "/b"), run(3, "/a"), run(4, "/a/sub")];
    let (here, elsewhere) = split_here("/a", &records);
    assert_eq!(here, vec![0, 2]);
    assert_eq!(elsewhere, vec![1, 3]);
    let (here, elsewhere) = split_here("/c", &records);
    assert!(here.is_empty());
    assert_eq!(elsewhere.len(), 4);
}

#[test]
fn the_runs_elsewhere_are_counted_in_one_line() {
    assert_eq!(elsewhere_line(0, false), None);
    assert_eq!(
        elsewhere_line(1, false).as_deref(),
        Some("  (1 other run live elsewhere on this machine -- `flint who --all` names them)")
    );
    assert_eq!(
        elsewhere_line(3, true).as_deref(),
        Some("  (3 other runs live elsewhere on this machine)")
    );
}

#[test]
fn the_json_report_lists_this_directory_and_counts_the_rest() {
    let mut mine = run(1, "/a");
    mine.session = "/a/.flint/sessions/s1.jsonl".to_string();
    mine.last_seen = 90;
    let alive = vec![mine, run(2, "/b")];
    let stale = vec![run(3, "/a"), run(4, "/c")];
    let recent = Recent {
        window_secs: 600,
        git_paths: 2,
        files: vec![("src/x.rs".to_string(), 30)],
        note: None,
    };
    let line = who_report("/a", &alive, &stale, false, 100, &recent, &None, &[]);
    assert!(!line.contains('\n'));
    let v: Value = serde_json::from_str(&line).unwrap();
    assert_eq!(v["type"], "who");
    assert_eq!(v["cwd"], "/a");
    assert_eq!(v["other_live"], 1);
    assert_eq!(v["live"].as_array().unwrap().len(), 1);
    assert_eq!(v["live"][0]["pid"], 1);
    assert_eq!(v["live"][0]["seen_secs_ago"], 10);
    assert_eq!(v["live"][0]["session"], "/a/.flint/sessions/s1.jsonl");
    assert_eq!(v["stale"][0]["pid"], 3);
    assert!(v["stale"][0]["session"].is_null());
    assert_eq!(v["changed"]["files"][0]["secs_ago"], 30);
    assert!(v["changed"]["note"].is_null());
    assert!(v["newest_session"].is_null());
    assert!(v.get("live_elsewhere").is_none());
    let all = who_report(
        "/a",
        &alive,
        &stale,
        true,
        100,
        &recent,
        &Some(("/a/s.jsonl".to_string(), 5)),
        &[("/x".to_string(), "bad".to_string())],
    );
    let v: Value = serde_json::from_str(&all).unwrap();
    assert_eq!(v["live_elsewhere"][0]["pid"], 2);
    assert_eq!(v["newest_session"]["secs_ago"], 5);
    assert_eq!(v["unreadable"][0]["error"], "bad");
}
