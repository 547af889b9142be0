//! What a run of saves leaves in the backups directory.

use vstd::prelude::*;
use crate::naming::{is_backup_name, MAX_BACKUPS};
use crate::rotation::{
    comes_before, distinct_times, is_backup_at, lemma_rotated_by_listing,
    lemma_rotation_ignores_order, lists_newest_first, newer_than, rearranges, retained, rotated,
    BackupEntry,
};

verus! {

/// The backups on disk after the given ones were taken one after another,
/// each followed by a rotation. The directory lists what the last rotation
/// left and then the backup just taken.
pub open spec fn backups_after(taken: Seq<BackupEntry>) -> Seq<BackupEntry>
    decreases taken.len(),
{
    if taken.len() == 0 {
        Seq::empty()
    } else {
        rotated(backups_after(taken.drop_last()).push(taken.last()))
    }
}

/// Each backup is a file of its own with a backup's name, and newer than
/// every backup taken before it.
pub open spec fn taken_in_turn(taken: Seq<BackupEntry>) -> bool {
    &&& forall|i: int| 0 <= i < taken.len() ==> is_backup_name(#[trigger] taken[i].name@)
    &&& forall|i: int, j: int|
        0 <= i < j < taken.len() ==> (#[trigger] taken[i].name@) != (#[trigger] taken[j].name@)
    &&& forall|i: int, j: int|
        0 <= i < j < taken.len() ==> newer_than(
            (#[trigger] taken[j]).modified,
            (#[trigger] taken[i]).modified,
        )
}

/// The last backups taken, at most `MAX_BACKUPS` of them, newest first.
pub open spec fn latest(taken: Seq<BackupEntry>) -> Seq<BackupEntry> {
    Seq::new(retained(taken.len()), |k: int| taken[taken.len() - 1 - k])
}

/// After any run of saves the backups directory holds the backups taken
/// last, as many as were taken up to `MAX_BACKUPS`: once that many were
/// taken it holds exactly `MAX_BACKUPS`, the most recent ones.
pub proof fn lemma_saves_keep_latest(taken: Seq<BackupEntry>)
    requires
        taken_in_turn(taken),
    ensures
        backups_after(taken) == latest(taken),
        backups_after(taken).len() == retained(taken.len()),
        taken.len() >= MAX_BACKUPS ==> backups_after(taken).len() == MAX_BACKUPS,
    decreases taken.len(),
{
    let n = taken.len() as int;
    if n == 0 {
        assert(backups_after(taken) =~= latest(taken));
    } else {
        let earlier = taken.drop_last();
        assert(taken_in_turn(earlier)) by {
            assert forall|i: int| 0 <= i < earlier.len() implies earlier[i] == taken[i] by {}
        }
        lemma_saves_keep_latest(earlier);
        let left = backups_after(earlier);
        let m = left.len() as int;
        assert(m == retained(earlier.len()));
        let listing = left.push(taken.last());
        let order = Seq::new(
            (m + 1) as nat,
            |k: int|
                if k == 0 {
                    m as usize
                } else {
                    (k - 1) as usize
                },
        );
        assert forall|j: int| 0 <= j < m implies listing[j] == taken[n - 2 - j] by {
            assert(left[j] == latest(earlier)[j]);
            assert(earlier[n - 2 - j] == taken[n - 2 - j]);
        }
        assert(listing[m] == taken[n - 1]);
        assert(lists_newest_first(listing, m + 1, order)) by {
            assert forall|i: int|
                0 <= i < m + 1 && #[trigger] is_backup_at(
                    listing,
                    i,
                ) implies exists|k: int|
                0 <= k < order.len() && #[trigger] order[k] == i by {
                if i == m {
                    assert(order[0] == i);
                } else {
                    assert(order[i + 1] == i);
                }
            }
            assert forall|a: int, b: int| 0 <= a < b < order.len() implies comes_before(
                listing,
                #[trigger] order[a] as int,
                #[trigger] order[b] as int,
            ) by {
                assert(listing[order[b] as int] == taken[n - 1 - b]);
                assert(listing[order[a] as int] == taken[n - 1 - a]);
            }
        }
        lemma_rotated_by_listing(listing, order);
        assert(retained(order.len()) == retained(taken.len()));
        assert(backups_after(taken) == rotated(listing));
        assert forall|k: int| 0 <= k < retained(taken.len()) implies rotated(listing)[k] == latest(
            taken,
        )[k] by {
            assert(order.take(retained(order.len()) as int)[k] == order[k]);
            assert(listing[order[k] as int] == taken[n - 1 - k]);
        }
        assert(backups_after(taken) =~= latest(taken));
    }
}

/// One save on a directory that held `before`: the new backup joins it, the
/// directory lists its entries in some order, and the rotation leaves `dir`.
pub open spec fn save_leaves(
    before: Seq<BackupEntry>,
    backup: BackupEntry,
    listing: Seq<BackupEntry>,
    place: Seq<int>,
    origin: Seq<int>,
    dir: Seq<BackupEntry>,
) -> bool {
    rearranges(before.push(backup), listing, place, origin) && dir == rotated(listing)
}

/// `dir` can be what the backups directory holds after the given backups
/// were taken one after another, each followed by a rotation, in whatever
/// order the directory listed its entries each time.
pub open spec fn may_hold_after(taken: Seq<BackupEntry>, dir: Seq<BackupEntry>) -> bool
    decreases taken.len(),
{
    if taken.len() == 0 {
        dir == Seq::<BackupEntry>::empty()
    } else {
        exists|
            before: Seq<BackupEntry>,
            listing: Seq<BackupEntry>,
            place: Seq<int>,
            origin: Seq<int>,
        |
            may_hold_after(taken.drop_last(), before) && #[trigger] save_leaves(
                before,
                taken.last(),
                listing,
                place,
                origin,
                dir,
            )
    }
}

/// However the directory orders its entries, after any run of saves it holds
/// the backups taken last, at most `MAX_BACKUPS` of them.
pub proof fn lemma_saves_keep_latest_in_any_order(taken: Seq<BackupEntry>, dir: Seq<BackupEntry>)
    requires
        taken_in_turn(taken),
        may_hold_after(taken, dir),
    ensures
        dir == latest(taken),
        dir.len() == retained(taken.len()),
        taken.len() >= MAX_BACKUPS ==> dir.len() == MAX_BACKUPS,
    decreases taken.len(),
{
    let n = taken.len() as int;
    if n == 0 {
        assert(dir =~= latest(taken));
    } else {
        let earlier = taken.drop_last();
        let (before, listing, place, origin) = choose|
            before: Seq<BackupEntry>,
            listing: Seq<BackupEntry>,
            place: Seq<int>,
            origin: Seq<int>,
        |
            may_hold_after(earlier, before) && #[trigger] save_leaves(
                before,
                taken.last(),
                listing,
                place,
                origin,
                dir,
            );
        assert(taken_in_turn(earlier)) by {
            assert forall|i: int| 0 <= i < earlier.len() implies earlier[i] == taken[i] by {}
        }
        lemma_saves_keep_latest_in_any_order(earlier, before);
        lemma_saves_keep_latest(earlier);
        lemma_saves_keep_latest(taken);
        let base = before.push(taken.last());
        let m = before.len() as int;
        assert forall|j: int| 0 <= j < m implies base[j] == taken[n - 2 - j] by {
            assert(before[j] == latest(earlier)[j]);
            assert(earlier[n - 2 - j] == taken[n - 2 - j]);
        }
        assert(base[m] == taken[n - 1]);
        assert(distinct_times(base)) by {
            assert forall|i: int, j: int|
                #![trigger base[i], base[j]]
                0 <= i < base.len() && 0 <= j < base.len() && i != j implies base[i].modified
                != base[j].modified by {
                assert(base[i] == taken[n - 1 - (if i == m { 0 } else { i + 1 })]);
                assert(base[j] == taken[n - 1 - (if j == m { 0 } else { j + 1 })]);
            }
        }
        lemma_rotation_ignores_order(base, listing, place, origin);
    }
}

/// The directory that lists what the last rotation left and then the new
/// backup is one of the orders that `may_hold_after` allows.
pub proof fn lemma_backups_after_may_hold(taken: Seq<BackupEntry>)
    ensures
        may_hold_after(taken, backups_after(taken)),
    decreases taken.len(),
{
    if taken.len() > 0 {
        let earlier = taken.drop_last();
        lemma_backups_after_may_hold(earlier);
        let before = backups_after(earlier);
        let base = before.push(taken.last());
        let same = Seq::new(base.len(), |i: int| i);
        assert(rearranges(base, base, same, same));
        assert(save_leaves(before, taken.last(), base, same, same, backups_after(taken)));
    }
}

} // verus!
