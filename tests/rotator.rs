use std::collections::BTreeMap;

use logrotate::rotator::{
    epoch_file_path, join_path, log_file_path, parse_epoch, recover_epoch, EpochChange,
    LogRotator, RotationPolicy,
};
use logrotate::time_past::{CivilTime, DailyContains, TimePast};
use logrotate::LogWriter;

/// A CSV writer that buffers rows in memory until flushed.
struct CsvLogWriter {
    path: String,
    header_written: bool,
    flushed: String,
    buffer: String,
}

impl CsvLogWriter {
    fn serialize(&mut self, s: &str, n: usize) {
        if !self.header_written {
            self.buffer.push_str("s,n\n");
            self.header_written = true;
        }
        self.buffer.push_str(&format!("{},{}\n", s, n));
    }

    fn all_text(&self) -> String {
        format!("{}{}", self.flushed, self.buffer)
    }
}

impl LogWriter for CsvLogWriter {
    fn path(&self) -> &str {
        &self.path
    }

    fn is_flushed(&self) -> bool {
        self.buffer.is_empty()
    }

    fn flush(&mut self) {
        let pending = std::mem::take(&mut self.buffer);
        self.flushed.push_str(&pending);
    }

    fn open(path: &str) -> Self {
        CsvLogWriter {
            path: path.to_string(),
            header_written: false,
            flushed: String::new(),
            buffer: String::new(),
        }
    }

    fn file_extension() -> &'static str {
        "csv"
    }
}

/// The files of one directory, by path, with what was written to them.
struct Disk {
    files: BTreeMap<String, String>,
}

impl Disk {
    fn apply(&mut self, change: &EpochChange) {
        if change.discard_marker {
            self.files.remove(&change.marker_path);
        }
        self.files.insert(change.marker_path.clone(), change.marker_text.clone());
        self.files.remove(&change.retired_segment);
    }

    fn has(&self, path: &str) -> bool {
        self.files.contains_key(path)
    }
}

/// Drives a rotator as an application does: the writer is flushed when it is
/// replaced, as a buffered file writer is when dropped.
struct Logger {
    rotator: LogRotator<CsvLogWriter, DailyContains>,
    disk: Disk,
}

impl Logger {
    fn new(dir: &str, policy: RotationPolicy<DailyContains>, disk: Disk) -> Self {
        let marker = disk.files.get(&epoch_file_path(dir)).map(|m| m.as_bytes().to_vec());
        let (mut rotator, change) =
            LogRotator::<CsvLogWriter, DailyContains>::new(dir.to_string(), policy, marker.as_deref());
        let mut disk = disk;
        disk.files.insert(rotator.writer().path.clone(), String::new());
        disk.apply(&change);
        Logger { rotator, disk }
    }

    fn write(&mut self, s: &str, n: usize) {
        let w = self.rotator.writer();
        w.serialize(s, n);
        let path = w.path.clone();
        let text = w.all_text();
        if let Some(change) = self.rotator.incr_record_count() {
            self.disk.files.insert(path, text);
            let new_path = self.rotator.writer().path.clone();
            self.disk.files.insert(new_path, String::new());
            self.disk.apply(&change);
        }
    }

    fn flush(&mut self) {
        self.rotator.flush();
        let w = self.rotator.writer();
        assert!(w.is_flushed());
        self.disk.files.insert(w.path.clone(), w.flushed.clone());
    }
}

fn policy(max_records: usize, max_epochs: usize) -> RotationPolicy<DailyContains> {
    RotationPolicy { max_records: Some(max_records), time: None, max_epochs }
}

fn empty_disk() -> Disk {
    Disk { files: BTreeMap::new() }
}

#[test]
fn rotator_test_logger() {
    let dir = "/logs";
    let mut logger = Logger::new(dir, policy(2, 2), empty_disk());
    logger.write("a", 0);
    logger.write("b", 1);
    logger.flush();
    let path = log_file_path(dir, 0, "csv");
    assert!(logger.disk.has(&path));
    let csv = logger.disk.files.get(&path).unwrap().clone();
    assert_eq!(csv, "s,n\na,0\nb,1\n");
}

#[test]
fn test_rotation() {
    let dir = "/logs";
    let mut logger = Logger::new(dir, policy(2, 2), empty_disk());

    logger.write("a", 0);
    logger.flush();
    assert!(logger.disk.has(&log_file_path(dir, 0, "csv")));
    assert!(!logger.disk.has(&log_file_path(dir, 1, "csv")));

    logger.write("b", 1);
    assert!(logger.disk.has(&log_file_path(dir, 0, "csv")));
    assert!(logger.disk.has(&log_file_path(dir, 1, "csv")));
    assert!(!logger.disk.has(&log_file_path(dir, 2, "csv")));

    logger.write("c", 2);
    logger.flush();
    assert!(logger.disk.has(&log_file_path(dir, 0, "csv")));
    assert!(logger.disk.has(&log_file_path(dir, 1, "csv")));
    assert!(!logger.disk.has(&log_file_path(dir, 2, "csv")));

    logger.write("d", 3);
    assert!(!logger.disk.has(&log_file_path(dir, 0, "csv")));
    assert!(logger.disk.has(&log_file_path(dir, 1, "csv")));
    assert!(logger.disk.has(&log_file_path(dir, 2, "csv")));
    assert!(!logger.disk.has(&log_file_path(dir, 3, "csv")));
}

#[test]
fn records_read_back_in_order() {
    let dir = "/logs";
    let mut logger = Logger::new(dir, policy(100, 2), empty_disk());
    for n in 0..5 {
        logger.write(&format!("r{}", n), n);
    }
    logger.flush();
    let csv = logger.disk.files.get(&log_file_path(dir, 0, "csv")).unwrap().clone();
    assert_eq!(csv, "s,n\nr0,0\nr1,1\nr2,2\nr3,3\nr4,4\n");
}

#[test]
fn valid_marker_resumes_after_it() {
    let dir = "/logs";
    let mut disk = empty_disk();
    disk.files.insert(epoch_file_path(dir), "7".to_string());
    disk.files.insert(log_file_path(dir, 7, "csv"), "s,n\nx,1\n".to_string());
    let mut logger = Logger::new(dir, policy(2, 2), disk);
    assert_eq!(logger.rotator.epoch(), 8);
    assert_eq!(logger.rotator.records_written(), 0);
    assert_eq!(logger.rotator.writer().path, "/logs/8.csv");
    assert_eq!(logger.disk.files.get("/logs/8.csv").unwrap(), "");
    assert_eq!(logger.disk.files.get("/logs/7.csv").unwrap(), "s,n\nx,1\n");
    assert_eq!(logger.disk.files.get("/logs/epoch").unwrap(), "8");
}

#[test]
fn corrupt_marker_is_discarded() {
    let dir = "/logs";
    let mut disk = empty_disk();
    disk.files.insert(epoch_file_path(dir), "seven".to_string());
    let marker = b"seven".to_vec();
    let (rotator, change) = LogRotator::<CsvLogWriter, DailyContains>::new(
        dir.to_string(),
        policy(2, 2),
        Some(&marker[..]),
    );
    assert_eq!(rotator.epoch(), 0);
    assert!(change.discard_marker);
    assert_eq!(change.marker_text, "0");
    disk.apply(&change);
    assert_eq!(disk.files.get("/logs/epoch").unwrap(), "0");
}

#[test]
fn recovery_decisions() {
    let r = recover_epoch(None);
    assert_eq!((r.epoch, r.discard_marker), (0, false));
    let r = recover_epoch(Some(b"41"));
    assert_eq!((r.epoch, r.discard_marker), (42, false));
    let r = recover_epoch(Some(b"4x"));
    assert_eq!((r.epoch, r.discard_marker), (0, true));
    let r = recover_epoch(Some(b""));
    assert_eq!((r.epoch, r.discard_marker), (0, true));
    let max = usize::MAX.to_string();
    let r = recover_epoch(Some(max.as_bytes()));
    assert_eq!((r.epoch, r.discard_marker), (0, false));
}

#[test]
fn parse_epoch_cases() {
    assert_eq!(parse_epoch(b"0"), Some(0));
    assert_eq!(parse_epoch(b"123"), Some(123));
    assert_eq!(parse_epoch(b"+9"), Some(9));
    assert_eq!(parse_epoch(b"007"), Some(7));
    assert_eq!(parse_epoch(b"+"), None);
    assert_eq!(parse_epoch(b"-1"), None);
    assert_eq!(parse_epoch(b" 1"), None);
    assert_eq!(parse_epoch(b"1\n"), None);
    let max = usize::MAX.to_string();
    assert_eq!(parse_epoch(max.as_bytes()), Some(usize::MAX));
    let over = format!("{}0", usize::MAX);
    assert_eq!(parse_epoch(over.as_bytes()), None);
    for s in ["0", "5", "+17", "18446744073709551615", "x", "", "1.5"] {
        assert_eq!(parse_epoch(s.as_bytes()), s.parse::<usize>().ok());
    }
}

#[test]
fn paths_and_digits() {
    for n in [0usize, 7, 10, 99, 100, 1234567, usize::MAX] {
        assert_eq!(log_file_path("/a", n, "x"), format!("/a/{}.x", n));
    }
    assert_eq!(join_path("/a", "b"), "/a/b");
    assert_eq!(log_file_path("/a", 12, "csv"), "/a/12.csv");
    assert_eq!(epoch_file_path("/a"), "/a/epoch");
}

#[test]
fn retention_wraps_below_zero() {
    let (rotator, change) =
        LogRotator::<CsvLogWriter, DailyContains>::new("/d".to_string(), policy(1, 3), None);
    assert_eq!(rotator.epoch(), 0);
    assert_eq!(change.retired_segment, format!("/d/{}.csv", usize::MAX - 2));
    assert_eq!(change.marker_path, "/d/epoch");
    assert!(!change.discard_marker);
}

#[test]
fn count_threshold_rotates_and_resets() {
    let (mut rotator, _) =
        LogRotator::<CsvLogWriter, DailyContains>::new("/d".to_string(), policy(3, 2), None);
    assert!(rotator.incr_record_count_at(None).is_none());
    assert!(rotator.incr_record_count_at(None).is_none());
    assert_eq!(rotator.records_written(), 2);
    let change = rotator.incr_record_count_at(None).unwrap();
    assert_eq!(rotator.epoch(), 1);
    assert_eq!(rotator.records_written(), 0);
    assert_eq!(rotator.writer().path, "/d/1.csv");
    assert_eq!(change.marker_text, "1");
    assert_eq!(change.retired_segment, format!("/d/{}.csv", usize::MAX));
}

fn at(day: i8, hour: i8) -> CivilTime {
    CivilTime { year: 2024, month: 3, day, hour, minute: 0, weekday: 1 }
}

#[test]
fn time_boundary_rotates() {
    let time = Some(TimePast::new(DailyContains));
    let policy = RotationPolicy { max_records: None, time, max_epochs: 2 };
    let (mut rotator, _) =
        LogRotator::<CsvLogWriter, DailyContains>::new("/d".to_string(), policy, None);
    assert!(rotator.try_rotate_file_at(Some(at(1, 10))).is_none());
    assert!(rotator.try_rotate_file_at(Some(at(1, 23))).is_none());
    assert!(rotator.incr_record_count_at(Some(at(2, 0))).is_some());
    assert_eq!(rotator.epoch(), 1);
    assert!(rotator.incr_record_count_at(Some(at(2, 1))).is_none());
    assert_eq!(rotator.records_written(), 1);
}

#[test]
fn written_marker_reads_back() {
    for start in [None, Some(&b"9"[..]), Some(&b"12345"[..])] {
        let (rotator, change) =
            LogRotator::<CsvLogWriter, DailyContains>::new("/d".to_string(), policy(1, 2), start);
        assert_eq!(parse_epoch(change.marker_text.as_bytes()), Some(rotator.epoch()));
    }
}
