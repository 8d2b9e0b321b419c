use visor::watch::{RecentFiles, WatcherState};
use visor::schedule::SchedulerState;
use visor::dashboard::{line_status, today_pattern};
use visor::logfmt::{log_file_name, log_line, sql_log_entry};
use visor::exports::{format_left, format_left_any};
use visor::timedate::{DateVal, TimeVal, StampVal};

fn noon() -> StampVal {
    StampVal {
        date: DateVal { year: 2024, month: 3, day: 15 },
        time: TimeVal { hour: 12, minute: 0, second: 0 },
    }
}

#[test]
fn a_path_is_dispatched_once_within_the_window() {
    let mut m = RecentFiles::new();
    assert!(m.claim("/drop/scan.TMP", 100));
    assert!(!m.claim("/drop/scan.TMP", 130));
    m.evict(130);
    assert!(!m.claim("/drop/scan.TMP", 130));
    m.evict(161);
    assert!(m.claim("/drop/scan.TMP", 161));
}

#[test]
fn eviction_only_touches_aged_entries() {
    let mut m = RecentFiles::new();
    assert!(m.claim("/drop/a.TMP", 100));
    assert!(m.claim("/drop/b.TMP", 150));
    m.evict(165);
    assert!(m.claim("/drop/a.TMP", 165));
    assert!(!m.claim("/drop/b.TMP", 165));
}

#[test]
fn clock_skew_evicts_the_entry() {
    let mut m = RecentFiles::new();
    assert!(m.claim("/drop/a.TMP", 200));
    m.evict(150);
    assert!(m.claim("/drop/a.TMP", 150));
}

#[test]
fn watcher_registry_is_idempotent() {
    let mut w = WatcherState::new();
    assert!(w.register(1));
    assert!(!w.register(1));
    assert!(w.register(2));
    assert!(w.is_registered(1));
    assert!(w.unregister(1));
    assert!(!w.unregister(1));
    assert!(!w.is_registered(1));
    assert!(w.is_registered(2));
    assert!(w.register(1));
}

#[test]
fn scheduler_registry_is_idempotent() {
    let mut s = SchedulerState::new();
    assert!(s.start_task("LOGITRON_PRODUIT"));
    assert!(!s.start_task("LOGITRON_PRODUIT"));
    assert!(s.is_running("LOGITRON_PRODUIT"));
    assert!(!s.is_running("ATEIS_EXPORT"));
    assert!(s.stop_task("LOGITRON_PRODUIT"));
    assert!(!s.stop_task("LOGITRON_PRODUIT"));
    assert!(!s.is_running("LOGITRON_PRODUIT"));
}

#[test]
fn line_status_follows_the_intervals() {
    assert_eq!(line_status(false, Some(1), 10, 30), "ARRET");
    assert_eq!(line_status(true, Some(5), 10, 30), "MARCHE");
    assert_eq!(line_status(true, Some(10), 10, 30), "MARCHE");
    assert_eq!(line_status(true, Some(15), 10, 30), "ALERTE");
    assert_eq!(line_status(true, Some(31), 10, 30), "ARRET");
    assert_eq!(line_status(true, None, 10, 30), "ALERTE");
}

#[test]
fn today_pattern_matches_iso_prefix() {
    assert_eq!(today_pattern(&noon().date), "2024-03-15%");
}

#[test]
fn monthly_log_file_names() {
    let d = noon().date;
    assert_eq!(log_file_name("Ligne 1", &d, false), "Ligne 1_202403.log");
    assert_eq!(log_file_name("Ligne 1", &d, true), "Ligne 1_sql_202403.log");
}

#[test]
fn log_line_shape() {
    assert_eq!(
        log_line(&noon(), "INFO", "Fichier traité"),
        "[2024-03-15 12:00:00] [INFO] Fichier traité\n"
    );
}

#[test]
fn sql_log_entry_shape() {
    let entry = sql_log_entry(&noon(), "INSERT INTO T", "[\"a\"]", false, "boom");
    let expected = format!(
        "\n[2024-03-15 12:00:00] [ERROR]\nRequête: INSERT INTO T\nValeurs: [\"a\"]\nErreur: boom\n{}\n",
        "-".repeat(80)
    );
    assert_eq!(entry, expected);
}

#[test]
fn sql_log_entry_truncates_long_queries() {
    let long = "Q".repeat(600);
    let entry = sql_log_entry(&noon(), &long, "[]", true, "");
    assert!(entry.contains(&"Q".repeat(500)));
    assert!(!entry.contains(&"Q".repeat(501)));
    assert!(entry.contains("[SUCCESS]"));
    assert!(!entry.contains("Erreur:"));
}

#[test]
fn the_clock_yields_fields_in_range() {
    let st = visor::timedate::local_now_clamped();
    assert!(st.date.year >= 0 && st.date.year <= 9999);
    assert!((1..=12).contains(&st.date.month));
    assert!((1..=31).contains(&st.date.day));
    assert!(st.time.hour < 24 && st.time.minute < 60 && st.time.second < 60);
}

#[test]
fn fixed_width_fields_pad_and_cut() {
    assert_eq!(format_left(Some("ab".to_string()), 5), "ab   ");
    assert_eq!(format_left(Some("abcdefgh".to_string()), 4), "abcd");
    assert_eq!(format_left(None, 3), "   ");
    assert_eq!(format_left_any(Some(42), 4), "42  ");
    assert_eq!(format_left_any(Some(-7), 4), "-7  ");
    assert_eq!(format_left_any(None, 2), "  ");
}
