//! Names of the data file, of the backups directory and of backup files.

use vstd::prelude::*;
use vstd::string::*;

verus! {

/// How many backups survive a rotation.
pub const MAX_BACKUPS: usize = 5;

/// Name of the data file below the application-data root.
pub open spec fn data_file_name_spec() -> Seq<char> {
    "tasks.json"@
}

/// Name of the backups directory below the application-data root.
pub open spec fn backups_dir_name_spec() -> Seq<char> {
    "backups"@
}

/// What every backup file's name starts with.
pub open spec fn backup_prefix() -> Seq<char> {
    "tasks_backup_"@
}

/// What every backup file's name ends with.
pub open spec fn backup_suffix() -> Seq<char> {
    ".json"@
}

/// The pattern that renders a moment as year, month, day, an underscore, hour,
/// minute and second.
pub open spec fn stamp_pattern() -> Seq<char> {
    "%Y%m%d_%H%M%S"@
}

/// A directory entry belongs to the backup set exactly if its name starts with
/// the backup prefix.
pub open spec fn is_backup_name(name: Seq<char>) -> bool {
    backup_prefix().is_prefix_of(name)
}

/// The backup file name that carries the given timestamp text.
pub open spec fn backup_name_of(stamp: Seq<char>) -> Seq<char> {
    backup_prefix() + stamp + backup_suffix()
}

/// Every name built from a timestamp belongs to the backup set.
pub proof fn lemma_backup_name_is_backup(stamp: Seq<char>)
    ensures
        is_backup_name(backup_name_of(stamp)),
        backup_name_of(stamp).len() == backup_prefix().len() + stamp.len() + backup_suffix().len(),
{
    let name = backup_name_of(stamp);
    assert(name.subrange(0, backup_prefix().len() as int) =~= backup_prefix());
}

/// Two timestamps give the same backup name only if they are the same text.
pub proof fn lemma_backup_name_injective(a: Seq<char>, b: Seq<char>)
    requires
        backup_name_of(a) == backup_name_of(b),
    ensures
        a == b,
{
    let p = backup_prefix().len() as int;
    let na = backup_name_of(a);
    let nb = backup_name_of(b);
    assert(na.len() == p + a.len() + backup_suffix().len());
    assert(nb.len() == p + b.len() + backup_suffix().len());
    assert(a =~= na.subrange(p, p + a.len()));
    assert(b =~= nb.subrange(p, p + b.len()));
}

pub fn data_file_name() -> (name: &'static str)
    ensures
        name@ == data_file_name_spec(),
{
    "tasks.json"
}

pub fn backups_dir_name() -> (name: &'static str)
    ensures
        name@ == backups_dir_name_spec(),
{
    "backups"
}

/// Tells whether a directory entry's name marks it as a backup.
pub fn has_backup_prefix(name: &str) -> (matches: bool)
    ensures
        matches == is_backup_name(name@),
{
    let prefix = "tasks_backup_";
    let plen: usize = prefix.unicode_len();
    if name.unicode_len() < plen {
        return false;
    }
    let mut i: usize = 0;
    while i < plen
        invariant
            i <= plen,
            plen == prefix@.len(),
            plen <= name@.len(),
            prefix@ == backup_prefix(),
            forall|k: int| 0 <= k < i ==> name@[k] == prefix@[k],
        decreases plen - i,
    {
        if name.get_char(i) != prefix.get_char(i) {
            assert(name@.subrange(0, plen as int)[i as int] != prefix@[i as int]);
            return false;
        }
        i += 1;
    }
    assert(name@.subrange(0, plen as int) =~= prefix@);
    true
}

/// Builds the backup file name for a timestamp text.
pub fn backup_file_name(stamp: &str) -> (name: String)
    ensures
        name@ == backup_name_of(stamp@),
        is_backup_name(name@),
{
    proof {
        lemma_backup_name_is_backup(stamp@);
    }
    String::from_str("tasks_backup_").concat(stamp).concat(".json")
}

/// Calls `chrono::Local::now`, renders the moment with `DateTime::format` under
/// the given pattern and collects the text. The text depends on the clock and
/// on the machine's time zone, so nothing is claimed of it. The pattern is held
/// to the one pattern this library uses, which chrono accepts.
#[verifier::external_body]
fn local_time_text(pattern: &str) -> (text: String)
    requires
        pattern@ == stamp_pattern(),
{
    chrono::Local::now().format(pattern).to_string()
}

/// Names the backup that is taken now: the prefix, the local time to the
/// second, and the suffix.
pub fn new_backup_name() -> (name: String)
    ensures
        is_backup_name(name@),
        exists|stamp: Seq<char>| name@ == #[trigger] backup_name_of(stamp),
{
    let stamp = local_time_text("%Y%m%d_%H%M%S");
    let name = backup_file_name(stamp.as_str());
    assert(name@ == backup_name_of(stamp@));
    name
}

} // verus!
