use radiochron::chronicle::jsonl::{
    frame, line_bytes, rotated_suffix, FileStep, Journal, JournalFile, JsonlReader,
};
use radiochron::chronicle::lines::split_bytes;
use radiochron::chronicle::{read_recent_jsonl, RotationPolicy};
use std::collections::HashMap;

/// The files of a journal, held in memory, and the journal that fills them.
struct Shelf {
    files: HashMap<u32, String>,
    journal: Journal,
}

impl Shelf {
    fn open(files: HashMap<u32, String>, policy: RotationPolicy) -> Shelf {
        let existing = files.get(&0).map_or(0, |text| text.len() as u64);
        Shelf {
            files,
            journal: Journal::resume(policy, existing),
        }
    }

    fn write(&mut self, entry: String) {
        let line = frame(entry);
        let bytes = line_bytes(&line);
        if self.journal.needs_rotation(bytes) {
            for step in self.journal.rotation() {
                match step {
                    FileStep::Discard(n) => {
                        // A file with the suffix of zero is none of these.
                        if n > 0 {
                            self.files.remove(&n);
                        }
                    }
                    FileStep::Shift(n) => {
                        if let Some(text) = self.files.remove(&n) {
                            self.files.insert(n + 1, text);
                        }
                    }
                    FileStep::Retire => {
                        let text = self.files.remove(&0).unwrap();
                        self.files.insert(1, text);
                    }
                    FileStep::Drop => {
                        self.files.remove(&0).unwrap();
                    }
                }
            }
            self.journal.rotated();
        }
        self.files.entry(0).or_default().push_str(&line);
        self.journal.appended(bytes);
    }
}

fn entry(n: usize) -> String {
    format!("{{\"epoch_seconds\":{n},\"kind\":\"disconnected\",\"last_bssid\":\"aa:bb:cc:dd:ee:{n:02x}\",\"time\":\"t{n}\"}}")
}

#[test]
fn writes_one_json_object_per_line_and_appends_across_reopen() {
    let mut shelf = Shelf::open(HashMap::new(), RotationPolicy::default());
    shelf.write(entry(1));
    // A restarted recorder continues the file rather than truncating it.
    let mut shelf = Shelf::open(shelf.files, RotationPolicy::default());
    shelf.write(entry(2));

    let text = &shelf.files[&0];
    let lines: Vec<&str> = text.lines().collect();
    assert_eq!(lines.len(), 2);
    for line in &lines {
        let parsed: serde_json::Value = serde_json::from_str(line).unwrap();
        assert_eq!(parsed["kind"], "disconnected");
    }
    assert_eq!(shelf.journal.written, text.len() as u64);
}

#[test]
fn rotates_at_the_size_limit_and_caps_the_file_count() {
    // A 200-byte limit rotates every other write.
    let policy = RotationPolicy {
        max_bytes: 200,
        max_files: 2,
    };

    let mut shelf = Shelf::open(HashMap::new(), policy);
    for n in 0..12 {
        shelf.write(entry(n));
    }

    assert!(shelf.files.contains_key(&0), "active file must exist");
    assert!(shelf.files.contains_key(&1));
    assert!(shelf.files.contains_key(&2));
    assert!(
        !shelf.files.contains_key(&3),
        "max_files=2 must cap the chain; .3 would grow without bound"
    );

    // Every surviving line is still valid JSON — rotation never tears one.
    for text in shelf.files.values() {
        assert!(text.len() <= 200);
        for line in text.lines() {
            serde_json::from_str::<serde_json::Value>(line)
                .unwrap_or_else(|e| panic!("torn line: {e}"));
        }
    }
}

#[test]
fn an_oversized_single_entry_still_writes_rather_than_looping() {
    let policy = RotationPolicy {
        max_bytes: 10, // smaller than any entry
        max_files: 1,
    };

    let mut shelf = Shelf::open(HashMap::new(), policy);
    shelf.write(entry(1));
    shelf.write(entry(2));

    // Both entries exist somewhere in the chain, intact.
    let total: usize = shelf.files.values().map(|text| text.lines().count()).sum();
    assert_eq!(total, 2);
}

#[test]
fn a_journal_that_keeps_no_old_file_drops_the_active_one() {
    let policy = RotationPolicy {
        max_bytes: 10,
        max_files: 0,
    };
    let mut shelf = Shelf::open(HashMap::new(), policy);
    shelf.write(entry(1));
    shelf.write(entry(2));
    assert_eq!(shelf.files.len(), 1);
    assert_eq!(shelf.files[&0], frame(entry(2)));
    assert_eq!(
        shelf.journal.rotation(),
        vec![FileStep::Discard(0), FileStep::Drop]
    );
}

#[test]
fn a_rotation_takes_its_steps_in_order() {
    let journal = Journal::resume(RotationPolicy::default(), 5);
    assert_eq!(
        journal.rotation(),
        vec![
            FileStep::Discard(3),
            FileStep::Shift(2),
            FileStep::Shift(1),
            FileStep::Retire
        ]
    );
    assert!(!journal.needs_rotation(1024 * 1024 - 5));
    assert!(journal.needs_rotation(1024 * 1024 - 4));
    assert!(journal.needs_rotation(u64::MAX));
    assert_eq!(rotated_suffix(12), ".12");
    assert_ne!(JournalFile::Active, JournalFile::Rotated(0));
}

#[test]
fn a_journal_is_read_back_across_its_files() {
    let policy = RotationPolicy {
        max_bytes: 200,
        max_files: 2,
    };
    let mut shelf = Shelf::open(HashMap::new(), policy);
    for n in 0..6 {
        shelf.write(entry(n));
    }
    let files: Vec<Vec<u8>> = [0u32, 1, 2]
        .iter()
        .map(|n| shelf.files[n].clone().into_bytes())
        .collect();
    let read = read_recent_jsonl(&files, 100);
    assert_eq!(read.invalid_lines, 0);
    let order: Vec<u64> = read
        .entries
        .iter()
        .map(|entry| entry["epoch_seconds"].as_u64().unwrap())
        .collect();
    assert_eq!(order, vec![0, 1, 2, 3, 4, 5]);

    let newest = read_recent_jsonl(&files, 3);
    let order: Vec<u64> = newest
        .entries
        .iter()
        .map(|entry| entry["epoch_seconds"].as_u64().unwrap())
        .collect();
    assert_eq!(order, vec![3, 4, 5]);
    assert!(read_recent_jsonl(&files, 0).entries.is_empty());
}

#[test]
fn a_torn_line_is_counted_and_hides_nothing() {
    let text = format!("{}\n{{\"epoch\n{}\r\n", entry(1), entry(2));
    let read = read_recent_jsonl(&vec![text.clone().into_bytes()], 10);
    assert_eq!(read.entries.len(), 2);
    assert_eq!(read.invalid_lines, 1);

    // A line that is not reached is not judged.
    let mut reader = JsonlReader::new(1);
    reader.absorb(text.as_bytes());
    assert!(reader.is_full());
    let read = reader.finish();
    assert_eq!(read.entries[0]["epoch_seconds"], 2);
    assert_eq!(read.invalid_lines, 0);
}

#[test]
fn lines_are_taken_from_the_newest_back() {
    let mut reader = JsonlReader::new(5);
    reader.take_line(Ok(serde_json::Value::from(2)));
    reader.take_line(Err("torn".into()));
    reader.take_line(Ok(serde_json::Value::from(1)));
    assert!(!reader.is_full());
    let read = reader.finish();
    assert_eq!(read.entries, [1, 2]);
    assert_eq!(read.invalid_lines, 1);
}

#[test]
fn a_line_torn_inside_a_character_is_one_torn_line() {
    let read = read_recent_jsonl(&vec![vec![b'1', b'\n', b'"', 0xc3]], 10);
    assert_eq!(read.entries, [1]);
    assert_eq!(read.invalid_lines, 1);

    // The rest of the journal is read as if the line were not there.
    let older = "\"caf\u{e9}\"\r\n2\n".as_bytes().to_vec();
    let read = read_recent_jsonl(&vec![vec![b'3', b'\n', 0xff, b'\n', b'4', b'\n'], older], 10);
    assert_eq!(read.entries.len(), 4);
    assert_eq!(read.entries[0], "caf\u{e9}");
    assert_eq!(read.entries[3], 4);
    assert_eq!(read.invalid_lines, 1);
    assert_eq!(read_recent_jsonl(&vec![vec![]], 10).invalid_lines, 0);
}

#[test]
fn a_file_is_cut_at_its_line_feeds() {
    let lines = split_bytes(b"a\r\n\nb\r");
    assert_eq!(lines, vec![&b"a"[..], &b""[..], &b"b\r"[..]]);
    assert!(split_bytes(b"").is_empty());
}
