//! Rotation of the backup set: which entries of the backups directory stay and
//! which are deleted, newest first by modification time.

use vstd::prelude::*;
use crate::naming::{has_backup_prefix, is_backup_name, MAX_BACKUPS};

verus! {

/// One entry of the backups directory, as the rotation reads it.
#[derive(Debug, Clone, PartialEq, Eq)]
pub struct BackupEntry {
    /// The entry's file name.
    pub name: String,
    /// When the file was last modified, in nanoseconds since the Unix epoch;
    /// `None` where the file system would not say.
    pub modified: Option<i128>,
}

/// The strict order of modification times: a known time is newer than an
/// unknown one, and of two known times the later is newer.
pub open spec fn newer_than(a: Option<i128>, b: Option<i128>) -> bool {
    match (a, b) {
        (Some(x), Some(y)) => x > y,
        (Some(_), None) => true,
        _ => false,
    }
}

/// Entry `i` is listed before entry `j`: it is newer, or as old and earlier in
/// the directory listing.
pub open spec fn comes_before(entries: Seq<BackupEntry>, i: int, j: int) -> bool {
    newer_than(entries[i].modified, entries[j].modified) || (entries[i].modified
        == entries[j].modified && i < j)
}

/// Entry `i` exists and carries a backup's name.
pub open spec fn is_backup_at(entries: Seq<BackupEntry>, i: int) -> bool {
    0 <= i < entries.len() && is_backup_name(entries[i].name@)
}

/// How many entries carry a backup's name.
pub open spec fn backup_count(entries: Seq<BackupEntry>) -> nat
    decreases entries.len(),
{
    if entries.len() == 0 {
        0
    } else if is_backup_name(entries.last().name@) {
        backup_count(entries.drop_last()) + 1
    } else {
        backup_count(entries.drop_last())
    }
}

/// `order` holds the index of every backup among the first `upto` entries,
/// each once and nothing else, newest first, ties in directory order.
pub open spec fn lists_newest_first(entries: Seq<BackupEntry>, upto: int, order: Seq<usize>) -> bool {
    &&& forall|k: int|
        0 <= k < order.len() ==> (#[trigger] order[k]) < upto && is_backup_at(
            entries,
            order[k] as int,
        )
    &&& forall|i: int|
        0 <= i < upto && #[trigger] is_backup_at(entries, i) ==> exists|k: int|
            0 <= k < order.len() && #[trigger] order[k] == i
    &&& forall|a: int, b: int|
        0 <= a < b < order.len() ==> comes_before(
            entries,
            #[trigger] order[a] as int,
            #[trigger] order[b] as int,
        )
}

/// Compares two modification times.
pub fn is_newer(a: &Option<i128>, b: &Option<i128>) -> (newer: bool)
    ensures
        newer == newer_than(*a, *b),
{
    match a {
        Some(x) => match b {
            Some(y) => *x > *y,
            None => true,
        },
        None => false,
    }
}

/// Lists the backups of a directory newest first. Each index of the result
/// points into `entries`. Entries with equal times keep the order in which
/// the directory gave them.
pub fn newest_first(entries: &Vec<BackupEntry>) -> (order: Vec<usize>)
    ensures
        lists_newest_first(entries@, entries@.len() as int, order@),
        order@.len() == backup_count(entries@),
{
    let mut order: Vec<usize> = Vec::new();
    let mut i: usize = 0;
    while i < entries.len()
        invariant
            i <= entries.len(),
            lists_newest_first(entries@, i as int, order@),
            order@.len() == backup_count(entries@.take(i as int)),
        decreases entries.len() - i,
    {
        proof {
            assert(entries@.take(i as int + 1).drop_last() =~= entries@.take(i as int));
        }
        if has_backup_prefix(entries[i].name.as_str()) {
            let mut p: usize = 0;
            while p < order.len() && !is_newer(&entries[i].modified, &entries[order[p]].modified)
                invariant
                    p <= order.len(),
                    i < entries.len(),
                    lists_newest_first(entries@, i as int, order@),
                    forall|q: int|
                        0 <= q < p ==> !newer_than(
                            entries@[i as int].modified,
                            entries@[(#[trigger] order@[q]) as int].modified,
                        ),
                decreases order.len() - p,
            {
                p += 1;
            }
            let ghost before = order@;
            order.insert(p, i);
            proof {
                lemma_insert_keeps_order(entries@, i as int, before, p as int);
            }
        }
        i += 1;
    }
    proof {
        assert(entries@.take(i as int) =~= entries@);
    }
    order
}

/// Placing a new backup behind everything that is not older than it, and
/// before the rest, keeps the listing newest first.
proof fn lemma_insert_keeps_order(entries: Seq<BackupEntry>, i: int, before: Seq<usize>, p: int)
    requires
        0 <= i < entries.len(),
        i <= usize::MAX,
        is_backup_name(entries[i].name@),
        lists_newest_first(entries, i, before),
        0 <= p <= before.len(),
        forall|q: int|
            0 <= q < p ==> !newer_than(
                entries[i].modified,
                entries[(#[trigger] before[q]) as int].modified,
            ),
        p < before.len() ==> newer_than(entries[i].modified, entries[before[p] as int].modified),
    ensures
        lists_newest_first(entries, i + 1, before.insert(p, i as usize)),
{
    let after = before.insert(p, i as usize);
    assert(after.len() == before.len() + 1);
    assert forall|k: int| 0 <= k < after.len() implies after[k] == (if k < p {
        before[k]
    } else if k == p {
        i as usize
    } else {
        before[k - 1]
    }) by {}
    assert forall|k: int| 0 <= k < after.len() implies (#[trigger] after[k]) < i + 1
        && is_backup_at(entries, after[k] as int) by {
        if k < p {
            assert(after[k] == before[k]);
        } else if k > p {
            assert(after[k] == before[k - 1]);
        }
    }
    assert forall|j: int| 0 <= j < i + 1 && #[trigger] is_backup_at(entries, j) implies exists|
        k: int,
    |
        0 <= k < after.len() && #[trigger] after[k] == j by {
        if j == i {
            assert(after[p] == j);
        } else {
            let k0 = choose|k: int| 0 <= k < before.len() && #[trigger] before[k] == j;
            if k0 < p {
                assert(after[k0] == j);
            } else {
                assert(after[k0 + 1] == j);
            }
        }
    }
    assert forall|a: int, b: int| 0 <= a < b < after.len() implies comes_before(
        entries,
        #[trigger] after[a] as int,
        #[trigger] after[b] as int,
    ) by {
        if b == p {
            assert(after[a] == before[a]);
        } else if a == p {
            assert(after[b] == before[b - 1]);
            if b - 1 > p {
                assert(comes_before(entries, before[p] as int, before[b - 1] as int));
            }
        } else {
            let a0 = if a < p { a } else { a - 1 };
            let b0 = if b < p { b } else { b - 1 };
            assert(after[a] == before[a0]);
            assert(after[b] == before[b0]);
            assert(comes_before(entries, before[a0] as int, before[b0] as int));
        }
    }
}

/// What a rotation decides: the backups that stay and those that are deleted.
/// Both hold indices into the listing that was planned on, newest first.
#[derive(Debug, Clone, PartialEq, Eq)]
pub struct RotationPlan {
    /// The backups that stay.
    pub keep: Vec<usize>,
    /// The backups to delete, in the order in which to delete them.
    pub remove: Vec<usize>,
}

/// How many backups are left of `count` after a rotation.
pub open spec fn retained(count: nat) -> nat {
    if count <= MAX_BACKUPS {
        count
    } else {
        MAX_BACKUPS as nat
    }
}

/// The entries that the given indices point at, in the order of the indices.
pub open spec fn picked(entries: Seq<BackupEntry>, indices: Seq<usize>) -> Seq<BackupEntry> {
    Seq::new(indices.len(), |k: int| entries[indices[k] as int])
}

/// The backups that a rotation leaves in a directory, newest first.
pub open spec fn rotated(entries: Seq<BackupEntry>) -> Seq<BackupEntry> {
    let order = choose|order: Seq<usize>|
        lists_newest_first(entries, entries.len() as int, order);
    picked(entries, order.take(retained(order.len()) as int))
}

/// Decides which entries of the backups directory a rotation deletes: of the
/// entries that carry a backup's name, listed newest first, all but the first
/// `MAX_BACKUPS`. Other entries are never touched.
pub fn cleanup_old_backups(entries: &Vec<BackupEntry>) -> (plan: RotationPlan)
    ensures
        lists_newest_first(entries@, entries@.len() as int, plan.keep@ + plan.remove@),
        plan.keep@.len() == retained(backup_count(entries@)),
        plan.keep@.len() + plan.remove@.len() == backup_count(entries@),
        picked(entries@, plan.keep@) == rotated(entries@),
        forall|a: int, b: int|
            0 <= a < plan.keep@.len() && 0 <= b < plan.remove@.len() ==> !newer_than(
                entries@[(#[trigger] plan.remove@[b]) as int].modified,
                entries@[(#[trigger] plan.keep@[a]) as int].modified,
            ),
{
    let mut keep = newest_first(entries);
    let ghost order = keep@;
    let remove = if keep.len() > MAX_BACKUPS {
        keep.split_off(MAX_BACKUPS)
    } else {
        Vec::new()
    };
    proof {
        assert(keep@ + remove@ =~= order);
        lemma_rotated_by_listing(entries@, order);
        assert(keep@ =~= order.take(retained(order.len()) as int));
        lemma_kept_are_newest(entries@, keep@, remove@);
    }
    RotationPlan { keep, remove }
}

/// Whoever holds a newest-first listing of a directory knows what a rotation
/// leaves of it: what the first `MAX_BACKUPS` indices point at.
pub proof fn lemma_rotated_by_listing(entries: Seq<BackupEntry>, order: Seq<usize>)
    requires
        lists_newest_first(entries, entries.len() as int, order),
    ensures
        rotated(entries) == picked(entries, order.take(retained(order.len()) as int)),
        rotated(entries).len() == retained(order.len()),
{
    let chosen = choose|chosen: Seq<usize>|
        lists_newest_first(entries, entries.len() as int, chosen);
    lemma_newest_first_unique(entries, entries.len() as int, chosen, order);
}

/// No backup that a rotation deletes is newer than one that it keeps.
pub proof fn lemma_kept_are_newest(entries: Seq<BackupEntry>, keep: Seq<usize>, remove: Seq<usize>)
    requires
        lists_newest_first(entries, entries.len() as int, keep + remove),
    ensures
        forall|a: int, b: int|
            0 <= a < keep.len() && 0 <= b < remove.len() ==> !newer_than(
                entries[(#[trigger] remove[b]) as int].modified,
                entries[(#[trigger] keep[a]) as int].modified,
            ),
{
    let order = keep + remove;
    assert forall|a: int, b: int| 0 <= a < keep.len() && 0 <= b < remove.len() implies !newer_than(
        entries[(#[trigger] remove[b]) as int].modified,
        entries[(#[trigger] keep[a]) as int].modified,
    ) by {
        assert(order[a] == keep[a]);
        assert(order[keep.len() + b] == remove[b]);
        assert(comes_before(entries, order[a] as int, order[keep.len() + b] as int));
    }
}

/// A rotation never deletes while fewer than `MAX_BACKUPS` backups exist, and
/// leaves exactly `MAX_BACKUPS` once more than that exist.
pub proof fn lemma_retained_bounds(count: nat)
    ensures
        retained(count) <= MAX_BACKUPS,
        retained(count) <= count,
        count > MAX_BACKUPS ==> retained(count) == MAX_BACKUPS,
        count <= MAX_BACKUPS ==> retained(count) == count,
{
}

/// Two newest-first listings of the same entries agree up to position `k`.
proof fn lemma_listings_agree_upto(
    entries: Seq<BackupEntry>,
    upto: int,
    first: Seq<usize>,
    second: Seq<usize>,
    k: int,
)
    requires
        lists_newest_first(entries, upto, first),
        lists_newest_first(entries, upto, second),
        0 <= k <= first.len(),
        k <= second.len(),
    ensures
        forall|j: int| 0 <= j < k ==> first[j] == second[j],
    decreases k,
{
    if k > 0 {
        lemma_listings_agree_upto(entries, upto, first, second, k - 1);
        let x = first[k - 1];
        let y = second[k - 1];
        assert(is_backup_at(entries, x as int));
        assert(is_backup_at(entries, y as int));
        let p = choose|p: int| 0 <= p < second.len() && #[trigger] second[p] == x;
        let q = choose|q: int| 0 <= q < first.len() && #[trigger] first[q] == y;
        if p < k - 1 {
            assert(first[p] == second[p]);
            assert(comes_before(entries, first[p] as int, first[k - 1] as int));
        } else if q < k - 1 {
            assert(first[q] == second[q]);
            assert(comes_before(entries, second[q] as int, second[k - 1] as int));
        } else if p > k - 1 && q > k - 1 {
            assert(comes_before(entries, second[k - 1] as int, second[p] as int));
            assert(comes_before(entries, first[k - 1] as int, first[q] as int));
        }
    }
}

/// A listing cannot go on where another one of the same entries has ended.
proof fn lemma_listing_not_longer(
    entries: Seq<BackupEntry>,
    upto: int,
    first: Seq<usize>,
    second: Seq<usize>,
)
    requires
        lists_newest_first(entries, upto, first),
        lists_newest_first(entries, upto, second),
    ensures
        second.len() <= first.len(),
{
    if first.len() < second.len() {
        let n = first.len() as int;
        lemma_listings_agree_upto(entries, upto, first, second, n);
        let z = second[n];
        assert(is_backup_at(entries, z as int));
        let q = choose|q: int| 0 <= q < first.len() && #[trigger] first[q] == z;
        assert(first[q] == second[q]);
        assert(comes_before(entries, second[q] as int, second[n] as int));
    }
}

/// A directory has one newest-first listing of its backups and no other, so
/// the plan of a rotation is determined by the entries alone.
pub proof fn lemma_newest_first_unique(
    entries: Seq<BackupEntry>,
    upto: int,
    first: Seq<usize>,
    second: Seq<usize>,
)
    requires
        lists_newest_first(entries, upto, first),
        lists_newest_first(entries, upto, second),
    ensures
        first == second,
{
    lemma_listing_not_longer(entries, upto, first, second);
    lemma_listing_not_longer(entries, upto, second, first);
    lemma_listings_agree_upto(entries, upto, first, second, first.len() as int);
    assert(first =~= second);
}

/// Where a new backup goes into a listing: behind everything that is not
/// older than it, searched from position `from`.
proof fn lemma_insertion_point(
    entries: Seq<BackupEntry>,
    i: int,
    before: Seq<usize>,
    from: int,
) -> (p: int)
    requires
        0 <= from <= before.len(),
        forall|q: int|
            0 <= q < from ==> !newer_than(
                entries[i].modified,
                entries[(#[trigger] before[q]) as int].modified,
            ),
    ensures
        from <= p <= before.len(),
        forall|q: int|
            0 <= q < p ==> !newer_than(
                entries[i].modified,
                entries[(#[trigger] before[q]) as int].modified,
            ),
        p < before.len() ==> newer_than(entries[i].modified, entries[before[p] as int].modified),
    decreases before.len() - from,
{
    if from == before.len() {
        from
    } else if newer_than(entries[i].modified, entries[before[from] as int].modified) {
        from
    } else {
        lemma_insertion_point(entries, i, before, from + 1)
    }
}

/// Every directory has a newest-first listing of its backups.
pub proof fn lemma_listing_exists(entries: Seq<BackupEntry>, upto: int) -> (order: Seq<usize>)
    requires
        0 <= upto <= entries.len(),
        entries.len() <= usize::MAX,
    ensures
        lists_newest_first(entries, upto, order),
    decreases upto,
{
    if upto == 0 {
        Seq::empty()
    } else {
        let before = lemma_listing_exists(entries, upto - 1);
        let i = upto - 1;
        if is_backup_name(entries[i].name@) {
            let p = lemma_insertion_point(entries, i, before, 0);
            lemma_insert_keeps_order(entries, i, before, p);
            before.insert(p, i as usize)
        } else {
            before
        }
    }
}

/// `listing` holds the entries of `base` in another order: entry `i` of
/// `base` stands at `place[i]`, and entry `j` of `listing` came from
/// `origin[j]`.
pub open spec fn rearranges(
    base: Seq<BackupEntry>,
    listing: Seq<BackupEntry>,
    place: Seq<int>,
    origin: Seq<int>,
) -> bool {
    &&& listing.len() == base.len()
    &&& place.len() == base.len()
    &&& origin.len() == base.len()
    &&& forall|i: int|
        0 <= i < base.len() ==> 0 <= (#[trigger] place[i]) < base.len() && listing[place[i]]
            == base[i]
    &&& forall|j: int|
        0 <= j < base.len() ==> 0 <= (#[trigger] origin[j]) < base.len() && place[origin[j]] == j
}

/// No two backups of the directory were modified at the same time.
pub open spec fn distinct_times(entries: Seq<BackupEntry>) -> bool {
    forall|i: int, j: int|
        #![trigger entries[i], entries[j]]
        is_backup_at(entries, i) && is_backup_at(entries, j) && i != j ==> entries[i].modified
            != entries[j].modified
}

/// What a rotation leaves does not depend on the order in which the
/// directory lists its entries, as long as no two backups have the same time.
pub proof fn lemma_rotation_ignores_order(
    base: Seq<BackupEntry>,
    listing: Seq<BackupEntry>,
    place: Seq<int>,
    origin: Seq<int>,
)
    requires
        rearranges(base, listing, place, origin),
        distinct_times(base),
        base.len() <= usize::MAX,
    ensures
        rotated(listing) == rotated(base),
{
    let n = base.len() as int;
    let in_base = lemma_listing_exists(base, n);
    let in_listing = Seq::new(in_base.len(), |k: int| place[in_base[k] as int] as usize);
    assert(lists_newest_first(listing, n, in_listing)) by {
        assert forall|k: int| 0 <= k < in_listing.len() implies (#[trigger] in_listing[k]) < n
            && is_backup_at(listing, in_listing[k] as int) by {
            let i = in_base[k] as int;
            assert(is_backup_at(base, i));
            assert(listing[place[i]] == base[i]);
        }
        assert forall|j: int| 0 <= j < n && #[trigger] is_backup_at(listing, j) implies exists|
            k: int,
        |
            0 <= k < in_listing.len() && #[trigger] in_listing[k] == j by {
            let i = origin[j];
            assert(listing[place[i]] == base[i]);
            assert(is_backup_at(base, i));
            let k = choose|k: int| 0 <= k < in_base.len() && #[trigger] in_base[k] == i;
            assert(in_listing[k] == j);
        }
        assert forall|a: int, b: int| 0 <= a < b < in_listing.len() implies comes_before(
            listing,
            #[trigger] in_listing[a] as int,
            #[trigger] in_listing[b] as int,
        ) by {
            let ia = in_base[a] as int;
            let ib = in_base[b] as int;
            assert(comes_before(base, ia, ib));
            assert(is_backup_at(base, ia) && is_backup_at(base, ib));
            assert(listing[place[ia]] == base[ia]);
            assert(listing[place[ib]] == base[ib]);
            if ia != ib {
                assert(base[ia].modified != base[ib].modified);
            }
        }
    }
    lemma_rotated_by_listing(base, in_base);
    lemma_rotated_by_listing(listing, in_listing);
    assert forall|k: int| 0 <= k < retained(in_base.len()) implies rotated(listing)[k] == rotated(
        base,
    )[k] by {
        let i = in_base[k] as int;
        assert(in_base.take(retained(in_base.len()) as int)[k] == in_base[k]);
        assert(in_listing.take(retained(in_listing.len()) as int)[k] == in_listing[k]);
        assert(listing[place[i]] == base[i]);
    }
    assert(rotated(listing) =~= rotated(base));
}

} // verus!
