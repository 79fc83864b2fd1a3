use std::cell::Cell;

use webserv::filestore::{FileCache, FileEntry, FileEntryError, WatchEvent};

#[test]
fn entry_lifecycle() {
    let mut e = FileEntry::new("/srv/html/a");
    assert!(e.is_pending());
    assert_eq!(e.get().unwrap_err(), FileEntryError::NeedsUpdate);
    e.update("one".to_string(), 7);
    assert!(!e.is_pending());
    assert_eq!(e.get().unwrap(), "one");
    e.update("two".to_string(), 8);
    assert_eq!(e.get().unwrap(), "one");
}

#[test]
fn read_after_open_loads_file() {
    let mut c = FileCache::new("/srv/html");
    assert_eq!(c.watch_dir(), "/srv/html");
    let calls = Cell::new(0);
    c.open("/srv/html/a");
    let got = c.read("/srv/html/a", 1, |p: &str| {
        calls.set(calls.get() + 1);
        format!("contents of {}", p)
    });
    assert_eq!(got, "contents of /srv/html/a");
    assert_eq!(calls.get(), 1);
}

#[test]
fn second_read_is_cached() {
    let mut c = FileCache::new("/srv/html");
    let calls = Cell::new(0);
    let load = |_p: &str| {
        calls.set(calls.get() + 1);
        format!("version {}", calls.get())
    };
    c.open("/srv/html/a");
    let first = c.read("/srv/html/a", 1, &load);
    let second = c.read("/srv/html/a", 2, &load);
    assert_eq!(first, "version 1");
    assert_eq!(second, first);
    assert_eq!(calls.get(), 1);
}

#[test]
fn open_twice_keeps_entry() {
    let mut c = FileCache::new("/srv/html");
    c.open("/srv/html/a");
    assert_eq!(c.read("/srv/html/a", 1, |_p: &str| "x".to_string()), "x");
    c.open("/srv/html/a");
    assert_eq!(c.read("/srv/html/a", 2, |_p: &str| "y".to_string()), "x");
}

#[test]
fn lookup_reports_entry_state() {
    let mut c = FileCache::new("/srv/html");
    assert_eq!(c.lookup("/srv/html/a").unwrap_err(), FileEntryError::NoFileEntry);
    c.open("/srv/html/a");
    assert_eq!(c.lookup("/srv/html/a").unwrap_err(), FileEntryError::NeedsUpdate);
    assert_eq!(c.fill("/srv/html/a", "A".to_string(), 3), "A");
    assert_eq!(c.lookup("/srv/html/a").unwrap(), "A");
}

#[test]
fn fill_keeps_populated_entry() {
    let mut c = FileCache::new("/srv/html");
    c.open("/srv/html/a");
    assert_eq!(c.fill("/srv/html/a", "first".to_string(), 1), "first");
    assert_eq!(c.fill("/srv/html/a", "second".to_string(), 2), "first");
    assert_eq!(c.lookup("/srv/html/a").unwrap(), "first");
}

#[test]
fn fill_without_entry_caches_nothing() {
    let mut c = FileCache::new("/srv/html");
    assert_eq!(c.fill("/srv/html/a", "x".to_string(), 1), "x");
    assert_eq!(c.lookup("/srv/html/a").unwrap_err(), FileEntryError::NoFileEntry);
}

#[test]
fn paths_are_cached_separately() {
    let mut c = FileCache::new("/srv/html");
    c.open("/srv/html/a");
    c.open("/srv/html/b");
    assert_eq!(c.read("/srv/html/a", 1, |_p: &str| "A".to_string()), "A");
    assert_eq!(c.read("/srv/html/b", 1, |_p: &str| "B".to_string()), "B");
    assert_eq!(c.read("/srv/html/a", 1, |_p: &str| "?".to_string()), "A");
}

#[test]
fn invalidate_entry_removes_it() {
    let mut c = FileCache::new("/srv/html");
    c.open("/srv/html/a");
    c.read("/srv/html/a", 1, |_p: &str| "old".to_string());
    let (k, e) = c.invalidate_entry("/srv/html/a").unwrap();
    assert_eq!(k, "/srv/html/a");
    assert_eq!(e.get().unwrap(), "old");
    assert!(c.invalidate_entry("/srv/html/a").is_none());
    assert_eq!(c.lookup("/srv/html/a").unwrap_err(), FileEntryError::NoFileEntry);
}

#[test]
fn change_events_force_reload() {
    let events = vec![
        WatchEvent::Create("/srv/html/a".to_string()),
        WatchEvent::Write("/srv/html/a".to_string()),
        WatchEvent::Remove("/srv/html/a".to_string()),
        WatchEvent::Rename("/srv/html/a".to_string(), "/srv/html/b".to_string()),
    ];
    for ev in events {
        let mut c = FileCache::new("/srv/html");
        c.open("/srv/html/a");
        assert_eq!(c.read("/srv/html/a", 1, |_p: &str| "old".to_string()), "old");
        assert_eq!(c.apply_event(&ev), Some("/srv/html/a".to_string()));
        c.open("/srv/html/a");
        assert_eq!(c.read("/srv/html/a", 2, |_p: &str| "new".to_string()), "new");
    }
}

#[test]
fn other_events_change_nothing() {
    let events = vec![
        WatchEvent::NoticeWrite("/srv/html/a".to_string()),
        WatchEvent::NoticeRemove("/srv/html/a".to_string()),
        WatchEvent::Chmod("/srv/html/a".to_string()),
        WatchEvent::Rename("/srv/html/b".to_string(), "/srv/html/a".to_string()),
        WatchEvent::Rescan,
        WatchEvent::Error(Some("/srv/html/a".to_string())),
        WatchEvent::Error(None),
    ];
    for ev in events {
        let mut c = FileCache::new("/srv/html");
        c.open("/srv/html/a");
        assert_eq!(c.read("/srv/html/a", 1, |_p: &str| "old".to_string()), "old");
        assert_eq!(c.apply_event(&ev), None);
        assert_eq!(c.read("/srv/html/a", 2, |_p: &str| "new".to_string()), "old");
    }
}

#[test]
fn event_for_unknown_path_is_ignored() {
    let mut c = FileCache::new("/srv/html");
    assert_eq!(c.apply_event(&WatchEvent::Write("/srv/html/z".to_string())), None);
}
