use vstd::prelude::*;
use crate::clock::{earlier, generation_text, lemma_generation_names_ordered, padded};
use crate::order::{name_le, name_le_exec, lemma_le_from_total, lemma_le_from_trans};

verus! {

/// One entry of a directory listing, as the caller read it.
#[derive(Clone, Debug)]
pub struct DirEntry {
    pub name: String,
    pub is_dir: bool,
    /// A regular file (a link is followed).
    pub is_file: bool,
    /// Last modification, in whole seconds since the Unix epoch.
    pub modified_secs: u64,
}

/// The listing holds a directory of this name.
pub open spec fn has_generation(entries: Seq<DirEntry>, n: Seq<char>) -> bool {
    exists|i: int| 0 <= i < entries.len() && entries[i].is_dir && #[trigger] entries[i].name@ == n
}

/// `n` is the name of a directory of the listing, and no directory's name sorts after it.
pub open spec fn is_latest(entries: Seq<DirEntry>, n: Seq<char>) -> bool {
    &&& has_generation(entries, n)
    &&& forall|i: int| 0 <= i < entries.len() && #[trigger] entries[i].is_dir ==> name_le(entries[i].name@, n)
}

/// Finds the latest generation of a backup root's listing: the directory whose
/// name sorts last. Plain files are passed over; with no directory there is none.
pub fn latest_generation(entries: &Vec<DirEntry>) -> (r: Option<String>)
    ensures
        r is None <==> forall|i: int| 0 <= i < entries@.len() ==> !(#[trigger] entries@[i].is_dir),
        r matches Some(n) ==> is_latest(entries@, n@),
{
    let mut best: Option<String> = None;
    let mut i: usize = 0;
    while i < entries.len()
        invariant
            i <= entries@.len(),
            best is None <==> forall|j: int| 0 <= j < i ==> !(#[trigger] entries@[j].is_dir),
            best matches Some(n) ==> has_generation(entries@, n@),
            best matches Some(n) ==> forall|j: int|
                0 <= j < i && #[trigger] entries@[j].is_dir ==> name_le(entries@[j].name@, n@),
        decreases entries@.len() - i,
    {
        let e = &entries[i];
        if e.is_dir {
            let take = match &best {
                None => true,
                Some(b) => !name_le_exec(&e.name, b),
            };
            if take {
                proof {
                    if let Some(b) = best {
                        lemma_le_from_total(e.name@, b@, 0);
                        assert forall|j: int| 0 <= j < i && #[trigger] entries@[j].is_dir implies name_le(
                            entries@[j].name@,
                            e.name@,
                        ) by {
                            lemma_le_from_trans(entries@[j].name@, b@, e.name@, 0);
                        }
                    }
                    assert(entries@[i as int].name@ == e.name@);
                }
                best = Some(e.name.clone());
            }
            proof {
                assert(name_le(e.name@, best->0@)) by {
                    if !take {
                    } else {
                        lemma_le_from_total(e.name@, e.name@, 0);
                    }
                }
            }
        }
        i = i + 1;
    }
    best
}

/// Where every directory of a backup root is a generation named by the time it
/// was made, the times distinct and the hour count written with as many digits
/// in each, the directory that sorts last, which `latest_generation` returns, is
/// the one made last.
pub proof fn lemma_latest_is_newest(entries: Seq<DirEntry>, times: Seq<(u64, u32)>, newest: int, n: Seq<char>)
    requires
        entries.len() == times.len(),
        0 <= newest < entries.len(),
        forall|i: int| 0 <= i < entries.len() ==> #[trigger] entries[i].is_dir,
        forall|i: int|
            0 <= i < entries.len() ==> (#[trigger] times[i]).1 < 1_000_000_000 && entries[i].name@
                == generation_text(times[i].0 as nat, times[i].1 as nat),
        forall|i: int|
            0 <= i < entries.len() ==> padded((#[trigger] times[i]).0 as nat / 3600, 2).len() == padded(
                times[newest].0 as nat / 3600,
                2,
            ).len(),
        forall|i: int|
            0 <= i < entries.len() && i != newest ==> earlier(
                (#[trigger] times[i]).0 as nat,
                times[i].1 as nat,
                times[newest].0 as nat,
                times[newest].1 as nat,
            ),
        is_latest(entries, n),
    ensures
        n == entries[newest].name@,
{
    let j = choose|j: int| 0 <= j < entries.len() && entries[j].is_dir && #[trigger] entries[j].name@ == n;
    if j != newest {
        assert(entries[newest].is_dir);
        assert(name_le(entries[newest].name@, n));
        let (s1, n1) = times[j];
        let (s2, n2) = times[newest];
        lemma_generation_names_ordered(s1, n1, s2, n2);
    }
}

} // verus!
