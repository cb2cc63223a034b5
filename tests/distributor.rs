use std::collections::BTreeMap;

use logrotate::distributor::LogDistributor;
use logrotate::rotator::{epoch_file_path, log_file_path, EpochChange, RotationPolicy};
use logrotate::time_past::DailyContains;
use logrotate::LogWriter;

/// A CSV writer that buffers rows in memory until flushed.
struct CsvLogWriter {
    path: String,
    header_written: bool,
    flushed: String,
    buffer: String,
}

impl CsvLogWriter {
    fn serialize(&mut self, s: &str, n: usize) {
        if !self.header_written {
            self.buffer.push_str("s,n\n");
            self.header_written = true;
        }
        self.buffer.push_str(&format!("{},{}\n", s, n));
    }

    fn all_text(&self) -> String {
        format!("{}{}", self.flushed, self.buffer)
    }
}

impl LogWriter for CsvLogWriter {
    fn path(&self) -> &str {
        &self.path
    }

    fn is_flushed(&self) -> bool {
        self.buffer.is_empty()
    }

    fn flush(&mut self) {
        let pending = std::mem::take(&mut self.buffer);
        self.flushed.push_str(&pending);
    }

    fn open(path: &str) -> Self {
        CsvLogWriter {
            path: path.to_string(),
            header_written: false,
            flushed: String::new(),
            buffer: String::new(),
        }
    }

    fn file_extension() -> &'static str {
        "csv"
    }
}

/// Drives a distributor as an application does, over files kept in memory.
struct Logger {
    distributor: LogDistributor<CsvLogWriter, DailyContains>,
    files: BTreeMap<String, String>,
}

impl Logger {
    fn new(dir: &str, policy: RotationPolicy<DailyContains>) -> Self {
        Logger { distributor: LogDistributor::new(dir.to_string(), policy), files: BTreeMap::new() }
    }

    fn apply(&mut self, change: &EpochChange) {
        if change.discard_marker {
            self.files.remove(&change.marker_path);
        }
        self.files.insert(change.marker_path.clone(), change.marker_text.clone());
        self.files.remove(&change.retired_segment);
    }

    fn writer(&mut self, name: &str) -> &mut CsvLogWriter {
        if !self.distributor.is_registered(name) {
            let dir = self.distributor.stream_dir(name);
            let marker = self.files.get(&epoch_file_path(&dir)).map(|m| m.as_bytes().to_vec());
            let (w, change) = self.distributor.writer(name, marker.as_deref());
            let path = w.path.clone();
            let change = change.unwrap();
            self.files.insert(path, String::new());
            self.apply(&change);
        }
        self.distributor.writer(name, None).0
    }

    fn write(&mut self, name: &str, s: &str, n: usize) {
        let w = self.writer(name);
        w.serialize(s, n);
        let path = w.path.clone();
        let text = w.all_text();
        if let Some(change) = self.distributor.incr_record_count(name) {
            self.files.insert(path, text);
            let new_path = self.distributor.writer(name, None).0.path.clone();
            self.files.insert(new_path, String::new());
            self.apply(&change);
        }
    }

    fn flush(&mut self, names: &[&str]) {
        self.distributor.flush();
        for name in names {
            if self.distributor.is_registered(name) {
                let w = self.distributor.writer(name, None).0;
                assert!(w.buffer.is_empty());
                let (path, text) = (w.path.clone(), w.flushed.clone());
                self.files.insert(path, text);
            }
        }
    }
}

fn policy() -> RotationPolicy<DailyContains> {
    RotationPolicy { max_records: Some(2), time: None, max_epochs: 2 }
}

#[test]
fn distributor_test_logger() {
    let mut logger = Logger::new("/out", policy());
    let name = "distributor::TestRecord";
    logger.write(name, "a", 0);
    logger.write(name, "b", 1);
    logger.flush(&[name]);
    let path = log_file_path(&format!("/out/{}", name), 0, "csv");
    assert!(logger.files.contains_key(&path));
    assert_eq!(logger.files.get(&path).unwrap(), "s,n\na,0\nb,1\n");
}

#[test]
fn streams_are_isolated() {
    let mut logger = Logger::new("/out", policy());
    logger.write("A", "a", 0);
    logger.write("B", "b", 0);
    let b_files: Vec<(String, String)> = logger
        .files
        .iter()
        .filter(|(k, _)| k.starts_with("/out/B/"))
        .map(|(k, v)| (k.clone(), v.clone()))
        .collect();
    for n in 1..7 {
        logger.write("A", "a", n);
    }
    let b_after: Vec<(String, String)> = logger
        .files
        .iter()
        .filter(|(k, _)| k.starts_with("/out/B/"))
        .map(|(k, v)| (k.clone(), v.clone()))
        .collect();
    assert_eq!(b_files, b_after);
    assert_eq!(logger.distributor.writer("B", None).0.path, "/out/B/0.csv");
    assert_eq!(logger.distributor.writer("A", None).0.path, "/out/A/3.csv");
    assert_eq!(logger.files.get("/out/A/epoch").unwrap(), "3");
    assert_eq!(logger.files.get("/out/B/epoch").unwrap(), "0");
    // B's count still stands at one: one more record rotates it.
    assert!(logger.distributor.incr_record_count("B").is_some());
    assert_eq!(logger.distributor.writer("B", None).0.path, "/out/B/1.csv");
}

#[test]
fn increment_on_unknown_stream_is_ignored() {
    let mut d: LogDistributor<CsvLogWriter, DailyContains> =
        LogDistributor::new("/out".to_string(), policy());
    assert!(d.incr_record_count("nobody").is_none());
    assert!(d.incr_record_count_at("nobody", None).is_none());
    assert!(!d.is_registered("nobody"));
}

#[test]
fn writer_registers_once() {
    let mut d: LogDistributor<CsvLogWriter, DailyContains> =
        LogDistributor::new("/out".to_string(), policy());
    let (w, change) = d.writer("s", Some(b"4"));
    assert_eq!(w.path, "/out/s/5.csv");
    let change = change.unwrap();
    assert_eq!(change.marker_text, "5");
    assert_eq!(change.marker_path, "/out/s/epoch");
    assert_eq!(change.retired_segment, "/out/s/3.csv");
    let (w, change) = d.writer("s", Some(b"40"));
    assert!(change.is_none());
    assert_eq!(w.path, "/out/s/5.csv");
    assert!(d.is_registered("s"));
    assert_eq!(d.stream_dir("s"), "/out/s");
}
