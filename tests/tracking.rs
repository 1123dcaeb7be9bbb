use activity_tracker::clock::{date_label, hour_label_string, hour_of_day};
use activity_tracker::commands::{get_active_sessions, get_tracked_totals, start_tracking, stop_tracking};
use activity_tracker::session::AppSession;
use activity_tracker::state::{get_default_categories, AppState};
use activity_tracker::storage::{
    frame_record, get_hourly_data_for_date, minutes_fit, partition_file_name, split_records,
};
use activity_tracker::tracker::{start_process_tracking_loop, Detection};

const NINE_AM: i64 = 1_699_952_400; // 2023-11-14 09:00:00 UTC

fn names(v: &[&str]) -> Vec<String> {
    v.iter().map(|s| s.to_string()).collect()
}

fn closed_session(exe: &str, category: &str, start: i64, secs: u64) -> AppSession {
    AppSession {
        id: format!("id-{}", exe),
        exe_name: exe.to_string(),
        category: category.to_string(),
        start_time: start,
        end_time: Some(start + secs as i64),
        total_seconds: secs,
        date: "2023-11-14".to_string(),
    }
}

#[test]
fn hourly_two_sessions_same_hour() {
    let sessions = vec![
        closed_session("Code.exe", "productivity", NINE_AM + 120, 600),
        closed_session("Discord.exe", "entertainment", NINE_AM + 1800, 300),
    ];
    let rows = get_hourly_data_for_date(&sessions);
    assert_eq!(rows.len(), 24);
    assert_eq!(rows[9], ("09".to_string(), 0, 5, 10));
    for (h, row) in rows.iter().enumerate() {
        assert_eq!(row.0, format!("{:02}", h));
        if h != 9 {
            assert_eq!((row.1, row.2, row.3), (0, 0, 0));
        }
    }
}

#[test]
fn hourly_counts_whole_session_under_start_hour() {
    let sessions = vec![
        closed_session("notepad.exe", "utilities", NINE_AM + 3599, 7200),
        closed_session("other.exe", "games", NINE_AM + 3600, 59),
    ];
    let rows = get_hourly_data_for_date(&sessions);
    assert_eq!(rows[9], ("09".to_string(), 120, 0, 0));
    assert_eq!(rows[10], ("10".to_string(), 0, 0, 0));
    assert_eq!(rows[11], ("11".to_string(), 0, 0, 0));
}

#[test]
fn hourly_empty_day() {
    let rows = get_hourly_data_for_date(&Vec::new());
    assert_eq!(rows.len(), 24);
    assert_eq!(rows[0], ("00".to_string(), 0, 0, 0));
    assert_eq!(rows[23], ("23".to_string(), 0, 0, 0));
}

#[test]
fn minutes_fit_detects_overflow() {
    let small = vec![closed_session("a.exe", "utilities", 0, 600)];
    assert!(minutes_fit(&small));
    let big: Vec<AppSession> = (0..61)
        .map(|i| closed_session(&format!("app{}.exe", i), "utilities", 0, u64::MAX))
        .collect();
    assert!(!minutes_fit(&big));
}

#[test]
fn hour_of_day_before_and_after_epoch() {
    assert_eq!(hour_of_day(0), 0);
    assert_eq!(hour_of_day(NINE_AM), 9);
    assert_eq!(hour_of_day(NINE_AM + 3599), 9);
    assert_eq!(hour_of_day(-1), 23);
    assert_eq!(hour_of_day(-86_400), 0);
}

#[test]
fn hour_labels_are_two_digits() {
    assert_eq!(hour_label_string(0), "00");
    assert_eq!(hour_label_string(9), "09");
    assert_eq!(hour_label_string(23), "23");
}

#[test]
fn date_labels_follow_utc_calendar() {
    assert_eq!(date_label(0), "1970-01-01");
    assert_eq!(date_label(NINE_AM), "2023-11-14");
    assert_eq!(date_label(NINE_AM + 15 * 3600 - 1), "2023-11-14");
    assert_eq!(date_label(NINE_AM + 15 * 3600), "2023-11-15");
}

#[test]
fn default_categories_map_known_apps() {
    let cats = get_default_categories();
    assert_eq!(cats.len(), 4);
    let state = AppState::default();
    assert_eq!(state.get_category(&"Code.exe".to_string()), "productivity");
    assert_eq!(state.get_category(&"Discord.exe".to_string()), "entertainment");
    assert_eq!(state.get_category(&"javaw.exe".to_string()), "entertainment");
    assert_eq!(state.get_category(&"notepad.exe".to_string()), "utilities");
}

#[test]
fn ticks_count_consecutive_observations() {
    let mut state = AppState::default();
    assert!(start_tracking(&mut state, names(&["Code.exe", "Discord.exe"])));
    let snap = names(&["explorer.exe", "Code.exe", "Code.exe"]);
    let out = state.tracking_tick(&snap, NINE_AM);
    assert!(!out.stop);
    assert!(out.closed.is_empty());
    let active = get_active_sessions(&state);
    assert_eq!(active.len(), 1);
    assert_eq!(active[0].exe_name, "Code.exe");
    assert_eq!(active[0].category, "productivity");
    assert_eq!(active[0].total_seconds, 1);
    assert_eq!(active[0].start_time, NINE_AM);
    assert_eq!(active[0].end_time, None);
    assert_eq!(active[0].date, "2023-11-14");
    assert_eq!(active[0].id.len(), 36);
    for t in 1..5 {
        state.tracking_tick(&snap, NINE_AM + t);
    }
    let active = get_active_sessions(&state);
    assert_eq!(active.len(), 1);
    assert_eq!(active[0].total_seconds, 5);
    assert_eq!(active[0].start_time, NINE_AM);
}

#[test]
fn stopped_app_closes_and_reopens_as_new_session() {
    let mut state = AppState::default();
    start_tracking(&mut state, names(&["Discord.exe"]));
    let snap = names(&["Discord.exe"]);
    state.tracking_tick(&snap, NINE_AM);
    state.tracking_tick(&snap, NINE_AM + 1);
    let first_id = get_active_sessions(&state)[0].id.clone();
    let out = state.tracking_tick(&Vec::new(), NINE_AM + 2);
    assert_eq!(out.closed.len(), 1);
    assert_eq!(out.closed[0].id, first_id);
    assert_eq!(out.closed[0].end_time, Some(NINE_AM + 2));
    assert_eq!(out.closed[0].total_seconds, 2);
    assert!(get_active_sessions(&state).is_empty());
    state.tracking_tick(&snap, NINE_AM + 3);
    let active = get_active_sessions(&state);
    assert_eq!(active.len(), 1);
    assert_ne!(active[0].id, first_id);
    assert_eq!(active[0].total_seconds, 1);
    assert_eq!(active[0].start_time, NINE_AM + 3);
}

#[test]
fn unregistered_apps_are_ignored() {
    let mut state = AppState::default();
    start_tracking(&mut state, names(&["Code.exe"]));
    state.tracking_tick(&names(&["Discord.exe", "javaw.exe"]), NINE_AM);
    assert!(get_active_sessions(&state).is_empty());
}

#[test]
fn starting_twice_starts_one_loop() {
    let mut state = AppState::default();
    assert!(start_tracking(&mut state, names(&["Code.exe"])));
    assert!(!start_tracking(&mut state, names(&["Discord.exe"])));
    assert!(!start_process_tracking_loop(&mut state));
    assert_eq!(state.registered_apps, names(&["Discord.exe"]));
    assert!(state.tracking_active);
}

#[test]
fn stopping_flushes_every_open_session() {
    let mut state = AppState::default();
    start_tracking(&mut state, names(&["Code.exe", "Discord.exe", "javaw.exe"]));
    let snap = names(&["Code.exe", "Discord.exe", "javaw.exe"]);
    state.tracking_tick(&snap, NINE_AM);
    state.tracking_tick(&snap, NINE_AM + 1);
    stop_tracking(&mut state);
    let out = state.tracking_tick(&snap, NINE_AM + 2);
    assert!(out.stop);
    assert_eq!(out.closed.len(), 3);
    for s in &out.closed {
        assert_eq!(s.end_time, Some(NINE_AM + 2));
        assert_eq!(s.total_seconds, 2);
    }
    assert!(get_active_sessions(&state).is_empty());
    assert!(!state.tracking_thread_running);
    assert!(start_process_tracking_loop(&mut state));
}

#[test]
fn save_all_closes_everything() {
    let mut state = AppState::default();
    start_tracking(&mut state, names(&["Code.exe", "javaw.exe"]));
    state.tracking_tick(&names(&["Code.exe", "javaw.exe"]), NINE_AM);
    let closed = state.save_all_active_sessions(NINE_AM + 10);
    assert_eq!(closed.len(), 2);
    assert!(closed.iter().all(|s| s.end_time == Some(NINE_AM + 10)));
    assert!(state.active_sessions.is_empty());
}

#[test]
fn auto_detection_starts_tracking_once() {
    let mut state = AppState::default();
    assert_eq!(state.auto_detection_step(&names(&["Code.exe"])), Detection::Wait);
    state.set_registered_apps(names(&["Code.exe"]));
    assert_eq!(state.auto_detection_step(&names(&["explorer.exe"])), Detection::Wait);
    assert!(!state.tracking_active);
    assert_eq!(
        state.auto_detection_step(&names(&["explorer.exe", "Code.exe"])),
        Detection::Started { spawn_loop: true }
    );
    assert!(state.tracking_active);
    assert_eq!(state.auto_detection_step(&names(&["Code.exe"])), Detection::Wait);
}

#[test]
fn tracked_totals_start_empty() {
    let state = AppState::default();
    assert!(get_tracked_totals(&state).is_empty());
}

#[test]
fn partition_names_follow_date() {
    assert_eq!(partition_file_name(&"2023-11-14".to_string()), "sessions_2023-11-14.jsonl");
}

#[test]
fn empty_log_has_no_records() {
    assert!(split_records(b"").is_empty());
    assert!(split_records(b"\n  \n\t\r\n").is_empty());
}

#[test]
fn log_records_skip_blank_lines() {
    let log = b"{\"a\":1}\n\n  \n{\"b\":2}\r\n{\"c\":3}";
    let recs = split_records(log);
    assert_eq!(recs, vec![b"{\"a\":1}".to_vec(), b"{\"b\":2}\r".to_vec(), b"{\"c\":3}".to_vec()]);
}

#[test]
fn appended_record_reads_back_last() {
    let mut log = b"{\"a\":1}\n".to_vec();
    log.extend(frame_record(b"{\"b\":2}"));
    assert_eq!(frame_record(b"x"), b"x\n".to_vec());
    let recs = split_records(&log);
    assert_eq!(recs.len(), 2);
    assert_eq!(recs[1], b"{\"b\":2}".to_vec());
}
