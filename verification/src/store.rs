//! The decisions of loading, saving and exporting. The host touches the disk
//! and reports what happened; each function here says what follows from it.

use vstd::prelude::*;
use vstd::string::*;
use crate::document::TaskData;
use crate::naming::{backup_name_of, is_backup_name, new_backup_name};

verus! {

/// Why an operation of the store failed. A `String` field carries the text
/// that the failing step gave.
#[derive(Debug, Clone, PartialEq, Eq)]
pub enum StoreError {
    /// The data file could not be copied into the backups directory.
    Backup(String),
    /// The data file exists and could not be read.
    Read(String),
    /// The data file does not hold a document.
    Parse(String),
    /// The document could not be turned into text.
    Serialize(String),
    /// The data file could not be written.
    Write(String),
    /// There is no data file to export.
    NoData,
    /// The data file could not be copied to the export's destination.
    Export(String),
}

impl StoreError {
    /// The text shown for the error.
    pub open spec fn message_spec(&self) -> Seq<char> {
        match self {
            StoreError::Backup(detail) => "Failed to create backup: "@ + detail@,
            StoreError::Read(detail) => "Failed to read tasks file: "@ + detail@,
            StoreError::Parse(detail) => "Failed to parse tasks: "@ + detail@,
            StoreError::Serialize(detail) => "Failed to serialize tasks: "@ + detail@,
            StoreError::Write(detail) => "Failed to write tasks file: "@ + detail@,
            StoreError::NoData => "No data file to export"@,
            StoreError::Export(detail) => "Failed to export tasks: "@ + detail@,
        }
    }

    /// Renders the error as the text shown to the user.
    pub fn message(&self) -> (text: String)
        ensures
            text@ == self.message_spec(),
    {
        match self {
            StoreError::Backup(detail) => String::from_str("Failed to create backup: ").concat(
                detail.as_str(),
            ),
            StoreError::Read(detail) => String::from_str("Failed to read tasks file: ").concat(
                detail.as_str(),
            ),
            StoreError::Parse(detail) => String::from_str("Failed to parse tasks: ").concat(
                detail.as_str(),
            ),
            StoreError::Serialize(detail) => String::from_str(
                "Failed to serialize tasks: ",
            ).concat(detail.as_str()),
            StoreError::Write(detail) => String::from_str("Failed to write tasks file: ").concat(
                detail.as_str(),
            ),
            StoreError::NoData => String::from_str("No data file to export"),
            StoreError::Export(detail) => String::from_str("Failed to export tasks: ").concat(
                detail.as_str(),
            ),
        }
    }
}

/// What a save does about the backup before it writes.
#[derive(Debug, Clone, PartialEq, Eq)]
pub enum BackupStep {
    /// There is no data file yet, so there is nothing to protect.
    Nothing,
    /// Copy the data file into the backups directory under this name, then
    /// rotate the backups.
    CopyTo(String),
}

/// Decides the backup that precedes a save: none while no data file exists,
/// else a copy under a fresh timestamped name.
pub fn create_backup(data_exists: bool) -> (step: BackupStep)
    ensures
        !data_exists ==> step == BackupStep::Nothing,
        data_exists ==> step is CopyTo && is_backup_name(step->CopyTo_0@) && exists|
            stamp: Seq<char>,
        |
            step->CopyTo_0@ == #[trigger] backup_name_of(stamp),
{
    if data_exists {
        BackupStep::CopyTo(new_backup_name())
    } else {
        BackupStep::Nothing
    }
}

/// How the backup went, from what was done about it: `None` where nothing had
/// to be copied, else what the copy gave. Only a failed copy is a failure.
pub open spec fn backup_outcome_spec(copy: Option<Result<(), String>>) -> Result<(), StoreError> {
    match copy {
        Some(Err(detail)) => Err(StoreError::Backup(detail)),
        _ => Ok(()),
    }
}

/// Judges the backup. `copy` is `None` where nothing had to be copied, else
/// what the copy gave. A failed copy fails the save before anything is
/// written; after a successful one the backups are rotated.
pub fn backup_outcome(copy: Option<Result<(), String>>) -> (outcome: Result<(), StoreError>)
    ensures
        outcome == backup_outcome_spec(copy),
{
    match copy {
        Some(Err(detail)) => Err(StoreError::Backup(detail)),
        _ => Ok(()),
    }
}

/// What a save writes to the data file, from how its backup went and from
/// the text of the document: the text as it is, and only after a backup that
/// went well.
pub open spec fn content_to_write(backup: Result<(), StoreError>, text: Result<String, String>) -> Result<
    String,
    StoreError,
> {
    match (backup, text) {
        (Err(failure), _) => Err(failure),
        (Ok(_), Err(detail)) => Err(StoreError::Serialize(detail)),
        (Ok(_), Ok(t)) => Ok(t),
    }
}

/// Decides what a save writes. On `Err` the data file is left as it is.
pub fn save_tasks(backup: Result<(), StoreError>, text: Result<String, String>) -> (content: Result<
    String,
    StoreError,
>)
    ensures
        content == content_to_write(backup, text),
{
    match backup {
        Err(failure) => Err(failure),
        Ok(_) => match text {
            Err(detail) => Err(StoreError::Serialize(detail)),
            Ok(t) => Ok(t),
        },
    }
}

/// A save on a store that holds no data file takes no backup and still
/// writes the document's text.
pub proof fn lemma_first_save_writes(text: String)
    ensures
        content_to_write(backup_outcome_spec(None), Ok(text)) == Ok::<String, StoreError>(text),
{
}

/// A save whose backup copy failed writes nothing, whatever the document is,
/// and fails with the copy's error.
pub proof fn lemma_failed_backup_writes_nothing(detail: String, text: Result<String, String>)
    ensures
        content_to_write(backup_outcome_spec(Some(Err(detail))), text) == Err::<
            String,
            StoreError,
        >(StoreError::Backup(detail)),
{
}

/// A save writes exactly when its backup went well and the document has a
/// text, and then it writes that text.
pub proof fn lemma_save_writes_iff(backup: Result<(), StoreError>, text: Result<String, String>)
    ensures
        content_to_write(backup, text) is Ok <==> backup is Ok && text is Ok,
        content_to_write(backup, text) is Ok ==> content_to_write(backup, text)->Ok_0
            == text->Ok_0,
{
}

/// Judges the write of the data file, which ends a save.
pub fn tasks_written(write: Result<(), String>) -> (outcome: Result<(), StoreError>)
    ensures
        match write {
            Ok(_) => outcome == Ok::<(), StoreError>(()),
            Err(detail) => outcome == Err::<(), StoreError>(StoreError::Write(detail)),
        },
{
    match write {
        Ok(_) => Ok(()),
        Err(detail) => Err(StoreError::Write(detail)),
    }
}

/// What a load does once it knows what the data file holds.
#[derive(Debug, Clone, PartialEq)]
pub enum LoadStep {
    /// Nothing is stored: this is the document.
    Ready(TaskData),
    /// This text is stored: read the document from it.
    Parse(String),
    /// The load has failed.
    Failed(StoreError),
}

/// Starts a load. `file` is `None` where no data file exists, else what
/// reading it gave. An absent file is the empty document and no error; a file
/// that is there is never replaced by the empty document.
pub fn load_tasks(file: Option<Result<String, String>>) -> (step: LoadStep)
    ensures
        match file {
            None => step is Ready && step->Ready_0.is_empty_document(),
            Some(Ok(text)) => step == LoadStep::Parse(text),
            Some(Err(detail)) => step == LoadStep::Failed(StoreError::Read(detail)),
        },
{
    match file {
        None => LoadStep::Ready(TaskData::default()),
        Some(Ok(text)) => LoadStep::Parse(text),
        Some(Err(detail)) => LoadStep::Failed(StoreError::Read(detail)),
    }
}

/// Ends a load whose file was read: the document that the text holds, or the
/// error of a file that holds none.
pub fn tasks_parsed(parsed: Result<TaskData, String>) -> (outcome: Result<TaskData, StoreError>)
    ensures
        match parsed {
            Ok(doc) => outcome == Ok::<TaskData, StoreError>(doc),
            Err(detail) => outcome == Err::<TaskData, StoreError>(StoreError::Parse(detail)),
        },
{
    match parsed {
        Ok(doc) => Ok(doc),
        Err(detail) => Err(StoreError::Parse(detail)),
    }
}

/// Starts an export: there must be a data file to copy.
pub fn export_tasks(data_exists: bool) -> (outcome: Result<(), StoreError>)
    ensures
        data_exists ==> outcome == Ok::<(), StoreError>(()),
        !data_exists ==> outcome == Err::<(), StoreError>(StoreError::NoData),
{
    if data_exists {
        Ok(())
    } else {
        Err(StoreError::NoData)
    }
}

/// Judges the copy to the export's destination.
pub fn export_copied(copy: Result<(), String>) -> (outcome: Result<(), StoreError>)
    ensures
        match copy {
            Ok(_) => outcome == Ok::<(), StoreError>(()),
            Err(detail) => outcome == Err::<(), StoreError>(StoreError::Export(detail)),
        },
{
    match copy {
        Ok(_) => Ok(()),
        Err(detail) => Err(StoreError::Export(detail)),
    }
}

} // verus!
