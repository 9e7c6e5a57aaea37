use vstd::prelude::*;
use crate::locator::{latest_generation, is_latest, has_generation, DirEntry};

verus! {

/// Seconds in one day of retention.
pub const SECS_PER_DAY: u64 = 86400;

/// The entry was last modified more than `days` days before `now`.
pub open spec fn expired(e: DirEntry, days: nat, now: nat) -> bool {
    e.modified_secs <= now && now - e.modified_secs > days * SECS_PER_DAY
}

/// The entry is a generation that retention removes: a directory past the
/// window that is not the latest generation `keep`.
pub open spec fn doomed(e: DirEntry, keep: Seq<char>, days: nat, now: nat) -> bool {
    e.is_dir && expired(e, days, now) && e.name@ != keep
}

/// The names of the generations that retention removes, in listing order.
pub open spec fn doomed_names(entries: Seq<DirEntry>, keep: Seq<char>, days: nat, now: nat) -> Seq<Seq<char>>
    decreases entries.len(),
{
    if entries.len() == 0 {
        Seq::empty()
    } else {
        let rest = doomed_names(entries.drop_last(), keep, days, now);
        if doomed(entries.last(), keep, days, now) {
            rest.push(entries.last().name@)
        } else {
            rest
        }
    }
}

fn is_expired(e: &DirEntry, days: u64, now: u64) -> (r: bool)
    ensures
        r == expired(*e, days as nat, now as nat),
{
    if e.modified_secs > now {
        return false;
    }
    let age = now - e.modified_secs;
    if days > u64::MAX / SECS_PER_DAY {
        assert(days * SECS_PER_DAY > u64::MAX) by (nonlinear_arith)
            requires
                days > u64::MAX / SECS_PER_DAY,
                SECS_PER_DAY == 86400,
        ;
        false
    } else {
        assert(days * SECS_PER_DAY <= u64::MAX) by (nonlinear_arith)
            requires
                days <= u64::MAX / SECS_PER_DAY,
                SECS_PER_DAY == 86400,
        ;
        age > days * SECS_PER_DAY
    }
}

/// Picks the generations of a backup root that retention removes: every
/// directory last modified more than `retention_days` days before `now_secs`,
/// except the latest generation, which stays however old it is. Plain files are
/// never picked.
pub fn purge(retention_days: u64, entries: &Vec<DirEntry>, now_secs: u64) -> (r: Vec<String>)
    ensures
        (forall|i: int| 0 <= i < entries@.len() ==> !(#[trigger] entries@[i].is_dir)) ==> r@.len() == 0,
        !(forall|i: int| 0 <= i < entries@.len() ==> !(#[trigger] entries@[i].is_dir)) ==> exists|keep: Seq<char>|
            is_latest(entries@, keep) && r@.map_values(|s: String| s@) == doomed_names(
                entries@,
                keep,
                retention_days as nat,
                now_secs as nat,
            ),
{
    let mut out: Vec<String> = Vec::new();
    let latest = latest_generation(entries);
    match latest {
        None => out,
        Some(keep) => {
            let mut i: usize = 0;
            while i < entries.len()
                invariant
                    i <= entries@.len(),
                    out@.map_values(|s: String| s@) == doomed_names(
                        entries@.take(i as int),
                        keep@,
                        retention_days as nat,
                        now_secs as nat,
                    ),
                decreases entries@.len() - i,
            {
                let e = &entries[i];
                assert(entries@.take(i + 1).drop_last() =~= entries@.take(i as int));
                assert(entries@.take(i + 1).last() == *e);
                if e.is_dir && is_expired(e, retention_days, now_secs) && !(e.name == keep) {
                    out.push(e.name.clone());
                }
                assert(out@.map_values(|s: String| s@) =~= doomed_names(
                    entries@.take(i + 1),
                    keep@,
                    retention_days as nat,
                    now_secs as nat,
                ));
                i = i + 1;
            }
            assert(entries@.take(entries@.len() as int) =~= entries@);
            out
        },
    }
}

proof fn lemma_keep_not_doomed(entries: Seq<DirEntry>, keep: Seq<char>, days: nat, now: nat)
    ensures
        !doomed_names(entries, keep, days, now).contains(keep),
    decreases entries.len(),
{
    if entries.len() > 0 {
        lemma_keep_not_doomed(entries.drop_last(), keep, days, now);
        let rest = doomed_names(entries.drop_last(), keep, days, now);
        if doomed(entries.last(), keep, days, now) {
            assert(!rest.push(entries.last().name@).contains(keep)) by {
                if rest.push(entries.last().name@).contains(keep) {
                    let j = choose|j: int| 0 <= j < rest.len() + 1 && rest.push(entries.last().name@)[j] == keep;
                    if j < rest.len() {
                        assert(rest[j] == keep);
                    }
                }
            }
        }
    }
}

/// Whatever the retention period and the time, pruning a backup root that holds
/// a generation leaves one: the latest generation is never among those removed.
pub proof fn lemma_retention_floor(entries: Seq<DirEntry>, keep: Seq<char>, days: nat, now: nat)
    requires
        is_latest(entries, keep),
    ensures
        has_generation(entries, keep),
        !doomed_names(entries, keep, days, now).contains(keep),
{
    lemma_keep_not_doomed(entries, keep, days, now);
}

} // verus!
