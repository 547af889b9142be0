use task_store::document::TaskData;
use task_store::naming::has_backup_prefix;
use task_store::rotation::{cleanup_old_backups, BackupEntry};
use task_store::store::{
    backup_outcome, create_backup, export_copied, export_tasks, load_tasks, save_tasks,
    tasks_parsed, tasks_written, BackupStep, LoadStep, StoreError,
};

fn sample_document() -> TaskData {
    let mut record = serde_json::Map::new();
    record.insert("title".to_string(), serde_json::Value::from("write"));
    record.insert("done".to_string(), serde_json::Value::from(false));
    TaskData {
        tasks: vec![serde_json::Value::Object(record), serde_json::Value::Null],
        labels: vec!["home".to_string(), "work".to_string()],
        stakeholders: vec!["Ada".to_string()],
    }
}

#[test]
fn default_document_is_empty() {
    let doc = TaskData::default();
    assert!(doc.tasks.is_empty());
    assert!(doc.labels.is_empty());
    assert!(doc.stakeholders.is_empty());
    assert!(doc.is_empty());
}

#[test]
fn filled_document_is_not_empty() {
    assert!(!sample_document().is_empty());
    let mut doc = TaskData::default();
    doc.stakeholders.push("Ada".to_string());
    assert!(!doc.is_empty());
    let mut doc = TaskData::default();
    doc.labels.push("home".to_string());
    assert!(!doc.is_empty());
    let mut doc = TaskData::default();
    doc.tasks.push(serde_json::Value::Null);
    assert!(!doc.is_empty());
}

#[test]
fn load_without_a_file_gives_the_empty_document() {
    assert_eq!(load_tasks(None), LoadStep::Ready(TaskData::default()));
}

#[test]
fn load_hands_the_stored_text_to_the_parser() {
    assert_eq!(
        load_tasks(Some(Ok("{not json".to_string()))),
        LoadStep::Parse("{not json".to_string())
    );
    assert_eq!(
        load_tasks(Some(Ok(String::new()))),
        LoadStep::Parse(String::new())
    );
}

#[test]
fn load_reports_an_unreadable_file() {
    assert_eq!(
        load_tasks(Some(Err("permission denied".to_string()))),
        LoadStep::Failed(StoreError::Read("permission denied".to_string()))
    );
}

#[test]
fn corrupt_file_is_a_parse_error_not_the_default() {
    let step = load_tasks(Some(Ok("][".to_string())));
    assert_ne!(step, LoadStep::Ready(TaskData::default()));
    let outcome = tasks_parsed(Err("expected value at line 1 column 1".to_string()));
    assert_eq!(
        outcome,
        Err(StoreError::Parse(
            "expected value at line 1 column 1".to_string()
        ))
    );
    assert_eq!(
        outcome.unwrap_err().message(),
        "Failed to parse tasks: expected value at line 1 column 1"
    );
}

#[test]
fn parsed_document_is_returned_as_it_is() {
    assert_eq!(tasks_parsed(Ok(sample_document())), Ok(sample_document()));
    assert_eq!(tasks_parsed(Ok(TaskData::default())), Ok(TaskData::default()));
}

#[test]
fn first_save_takes_no_backup() {
    assert_eq!(create_backup(false), BackupStep::Nothing);
}

#[test]
fn later_save_copies_to_a_backup_name() {
    match create_backup(true) {
        BackupStep::CopyTo(name) => {
            assert!(has_backup_prefix(&name));
            assert!(name.ends_with(".json"));
        }
        BackupStep::Nothing => panic!("a data file that exists is backed up"),
    }
}

#[test]
fn failed_backup_copy_fails_closed() {
    let backup = backup_outcome(Some(Err("disk full".to_string())));
    assert_eq!(backup, Err(StoreError::Backup("disk full".to_string())));
    assert_eq!(
        save_tasks(backup.clone(), Ok("{}".to_string())),
        Err(StoreError::Backup("disk full".to_string()))
    );
    assert_eq!(
        save_tasks(backup, Err("also broken".to_string())),
        Err(StoreError::Backup("disk full".to_string()))
    );
}

#[test]
fn save_writes_the_text_after_a_good_backup() {
    assert_eq!(backup_outcome(Some(Ok(()))), Ok(()));
    assert_eq!(backup_outcome(None), Ok(()));
    assert_eq!(
        save_tasks(Ok(()), Ok("{\n  \"tasks\": []\n}".to_string())),
        Ok("{\n  \"tasks\": []\n}".to_string())
    );
}

#[test]
fn save_reports_a_document_without_text() {
    assert_eq!(
        save_tasks(Ok(()), Err("key must be a string".to_string())),
        Err(StoreError::Serialize("key must be a string".to_string()))
    );
}

#[test]
fn write_result_ends_the_save() {
    assert_eq!(tasks_written(Ok(())), Ok(()));
    assert_eq!(
        tasks_written(Err("read-only file system".to_string())),
        Err(StoreError::Write("read-only file system".to_string()))
    );
}

#[test]
fn export_needs_a_data_file() {
    assert_eq!(export_tasks(false), Err(StoreError::NoData));
    assert_eq!(export_tasks(true), Ok(()));
}

#[test]
fn export_reports_a_failed_copy() {
    assert_eq!(export_copied(Ok(())), Ok(()));
    assert_eq!(
        export_copied(Err("no such directory".to_string())),
        Err(StoreError::Export("no such directory".to_string()))
    );
}

#[test]
fn messages_name_the_failed_step() {
    let d = "boom".to_string();
    assert_eq!(
        StoreError::Backup(d.clone()).message(),
        "Failed to create backup: boom"
    );
    assert_eq!(
        StoreError::Read(d.clone()).message(),
        "Failed to read tasks file: boom"
    );
    assert_eq!(
        StoreError::Parse(d.clone()).message(),
        "Failed to parse tasks: boom"
    );
    assert_eq!(
        StoreError::Serialize(d.clone()).message(),
        "Failed to serialize tasks: boom"
    );
    assert_eq!(
        StoreError::Write(d.clone()).message(),
        "Failed to write tasks file: boom"
    );
    assert_eq!(StoreError::NoData.message(), "No data file to export");
    assert_eq!(
        StoreError::Export(d).message(),
        "Failed to export tasks: boom"
    );
    assert_eq!(
        StoreError::Read(String::new()).message(),
        "Failed to read tasks file: "
    );
}

/// A disk held in memory: the data file's text and the backups directory.
struct Disk {
    data: Option<String>,
    backups: Vec<(String, i128, String)>,
    clock: i128,
}

fn fresh_disk() -> Disk {
    Disk {
        data: None,
        backups: Vec::new(),
        clock: 0,
    }
}

/// Saves as a host does: each step is decided by the library and carried out
/// on the disk in memory. Every backup gets a name and a time of its own.
fn save_on(disk: &mut Disk, text: &str) -> Result<(), StoreError> {
    disk.clock += 1;
    let copy = match create_backup(disk.data.is_some()) {
        BackupStep::Nothing => None,
        BackupStep::CopyTo(name) => {
            let name = format!("{}.{}", name, disk.clock);
            let content = disk.data.clone().unwrap();
            disk.backups.push((name, disk.clock, content));
            Some(Ok(()))
        }
    };
    let rotate = copy.is_some();
    let backup = backup_outcome(copy);
    if rotate && backup.is_ok() {
        let entries: Vec<BackupEntry> = disk
            .backups
            .iter()
            .map(|b| BackupEntry {
                name: b.0.clone(),
                modified: Some(b.1),
            })
            .collect();
        let plan = cleanup_old_backups(&entries);
        let doomed: Vec<String> = plan
            .remove
            .iter()
            .map(|i| entries[*i].name.clone())
            .collect();
        disk.backups.retain(|b| !doomed.contains(&b.0));
    }
    let content = save_tasks(backup, Ok(text.to_string()))?;
    disk.data = Some(content);
    tasks_written(Ok(()))
}

fn load_from(disk: &Disk) -> LoadStep {
    load_tasks(disk.data.clone().map(Ok))
}

#[test]
fn save_without_a_backup_still_writes() {
    assert_eq!(
        save_tasks(backup_outcome(None), Ok("text".to_string())),
        Ok("text".to_string())
    );
}

#[test]
fn fresh_save_writes_the_file_and_no_backup() {
    let mut disk = fresh_disk();
    assert_eq!(save_on(&mut disk, "A"), Ok(()));
    assert_eq!(disk.data, Some("A".to_string()));
    assert!(disk.backups.is_empty());
}

#[test]
fn three_saves_leave_two_backups() {
    let mut disk = fresh_disk();
    assert_eq!(save_on(&mut disk, "A"), Ok(()));
    assert_eq!(save_on(&mut disk, "B"), Ok(()));
    assert_eq!(save_on(&mut disk, "C"), Ok(()));
    assert_eq!(disk.backups.len(), 2);
    let held: Vec<&str> = disk.backups.iter().map(|b| b.2.as_str()).collect();
    assert_eq!(held, vec!["A", "B"]);
    assert_eq!(load_from(&disk), LoadStep::Parse("C".to_string()));
}

#[test]
fn many_saves_leave_the_five_latest_backups() {
    let mut disk = fresh_disk();
    for n in 1..=9 {
        assert_eq!(save_on(&mut disk, &format!("v{}", n)), Ok(()));
        let expected = if n - 1 < 5 { n - 1 } else { 5 };
        assert_eq!(disk.backups.len(), expected);
        assert!(disk.backups.iter().all(|b| has_backup_prefix(&b.0)));
    }
    let held: Vec<&str> = disk.backups.iter().map(|b| b.2.as_str()).collect();
    assert_eq!(held, vec!["v4", "v5", "v6", "v7", "v8"]);
    assert_eq!(load_from(&disk), LoadStep::Parse("v9".to_string()));
}

#[test]
fn export_from_a_fresh_disk_copies_nothing() {
    let disk = fresh_disk();
    let mut destination: Option<String> = None;
    let outcome = export_tasks(disk.data.is_some());
    if outcome.is_ok() {
        destination = disk.data.clone();
    }
    assert_eq!(outcome, Err(StoreError::NoData));
    assert_eq!(destination, None);
}

#[test]
fn saved_text_is_what_the_next_load_parses() {
    let text = "{\n  \"tasks\": [],\n  \"labels\": [\n    \"home\"\n  ],\n  \"stakeholders\": []\n}";
    let written = save_tasks(backup_outcome(Some(Ok(()))), Ok(text.to_string()));
    assert_eq!(written, Ok(text.to_string()));
    assert_eq!(
        load_tasks(Some(Ok(written.unwrap()))),
        LoadStep::Parse(text.to_string())
    );
}
