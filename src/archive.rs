use vstd::prelude::*;
use crate::locator::DirEntry;

verus! {

/// The suffix of a compressed generation archive.
pub open spec fn archive_suffix() -> Seq<char> {
    ".tar.gz"@
}

/// Where the archive of generation `generation` of the backup root `root` goes,
/// made at the time written `stamp`: `<root>/<generation>_<stamp>.tar.gz`.
pub open spec fn archive_text(root: Seq<char>, generation: Seq<char>, stamp: Seq<char>) -> Seq<char> {
    root + seq!['/'] + generation + seq!['_'] + stamp + archive_suffix()
}

/// Names the archive of a generation, next to the generation in its backup root.
pub fn archive_path(root: &String, generation: &String, stamp: &String) -> (r: String)
    ensures
        r@ == archive_text(root@, generation@, stamp@),
{
    proof {
        reveal_strlit("/");
        reveal_strlit("_");
    }
    let mut s = root.clone();
    s.append("/");
    s.append(generation.as_str());
    s.append("_");
    s.append(stamp.as_str());
    s.append(".tar.gz");
    assert(s@ =~= archive_text(root@, generation@, stamp@));
    s
}

/// The source names a compressed archive rather than a generation directory.
pub fn is_archive(source: &String) -> (r: bool)
    ensures
        r == archive_suffix().is_suffix_of(source@),
{
    let suffix = ".tar.gz";
    let t = source.as_str();
    let n = t.unicode_len();
    let k = suffix.unicode_len();
    if n < k {
        return false;
    }
    let mut i: usize = 0;
    while i < k
        invariant
            t@ == source@,
            suffix@ == archive_suffix(),
            n == source@.len(),
            k == archive_suffix().len(),
            k <= n,
            i <= k,
            forall|j: int| 0 <= j < i ==> source@[n - k + j] == archive_suffix()[j],
        decreases k - i,
    {
        if t.get_char(n - k + i) != suffix.get_char(i) {
            assert(source@.subrange(n - k, n as int)[i as int] != archive_suffix()[i as int]);
            return false;
        }
        i = i + 1;
    }
    assert(source@.subrange(n - k, n as int) =~= archive_suffix());
    true
}

/// The names of the directories (with `dirs`) or of the regular files (without)
/// of a listing, in listing order.
pub open spec fn names_where(entries: Seq<DirEntry>, dirs: bool) -> Seq<Seq<char>>
    decreases entries.len(),
{
    if entries.len() == 0 {
        Seq::empty()
    } else {
        let rest = names_where(entries.drop_last(), dirs);
        let e = entries.last();
        if (if dirs { e.is_dir } else { e.is_file }) {
            rest.push(e.name@)
        } else {
            rest
        }
    }
}

fn select(entries: &Vec<DirEntry>, dirs: bool) -> (r: Vec<String>)
    ensures
        r@.map_values(|s: String| s@) == names_where(entries@, dirs),
{
    let mut out: Vec<String> = Vec::new();
    let mut i: usize = 0;
    while i < entries.len()
        invariant
            i <= entries@.len(),
            out@.map_values(|s: String| s@) == names_where(entries@.take(i as int), dirs),
        decreases entries@.len() - i,
    {
        let e = &entries[i];
        assert(entries@.take(i + 1).drop_last() =~= entries@.take(i as int));
        assert(entries@.take(i + 1).last() == *e);
        if if dirs { e.is_dir } else { e.is_file } {
            out.push(e.name.clone());
        }
        assert(out@.map_values(|s: String| s@) =~= names_where(entries@.take(i + 1), dirs));
        i = i + 1;
    }
    assert(entries@.take(entries@.len() as int) =~= entries@);
    out
}

/// The members of a generation's archive: the regular files directly inside
/// it, in listing order; directories and other entries stay out.
pub fn archive_members(entries: &Vec<DirEntry>) -> (r: Vec<String>)
    ensures
        r@.map_values(|s: String| s@) == names_where(entries@, false),
{
    select(entries, false)
}

/// The subdirectories of a listing, in listing order: the backup roots under an
/// offload root, or the generations of a backup root.
pub fn subdirectories(entries: &Vec<DirEntry>) -> (r: Vec<String>)
    ensures
        r@.map_values(|s: String| s@) == names_where(entries@, true),
{
    select(entries, true)
}

} // verus!
