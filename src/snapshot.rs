use vstd::prelude::*;
use crate::options::texts;

verus! {

/// What the snapshot engine does for one entry of the source directory.
#[derive(Debug)]
pub enum EntryAction {
    /// Hard-link the entry of this name in the reference generation.
    Link(String),
    /// Copy the source entry of this name byte for byte.
    Copy(String),
}

impl EntryAction {
    pub open spec fn name_view(&self) -> Seq<char> {
        match self {
            EntryAction::Link(n) => n@,
            EntryAction::Copy(n) => n@,
        }
    }

    pub fn name(&self) -> (r: &String)
        ensures
            r@ == self.name_view(),
    {
        match self {
            EntryAction::Link(n) => n,
            EntryAction::Copy(n) => n,
        }
    }

    pub fn is_link(&self) -> (r: bool)
        ensures
            r == (self is Link),
    {
        matches!(self, EntryAction::Link(_))
    }
}

/// Whether the entry `name` is linked: a reference exists and holds that name.
pub open spec fn links(name: Seq<char>, reference: Option<Seq<Seq<char>>>) -> bool {
    match reference {
        Some(r) => r.contains(name),
        None => false,
    }
}

/// The existence-by-name policy: the entry is linked when the reference holds an
/// entry of the same name, and copied otherwise.
pub open spec fn action_for(name: Seq<char>, reference: Option<Seq<Seq<char>>>) -> (bool, Seq<char>) {
    (links(name, reference), name)
}

pub open spec fn action_view(a: EntryAction) -> (bool, Seq<char>) {
    (a is Link, a.name_view())
}

fn contains_name(v: &Vec<String>, name: &String) -> (r: bool)
    ensures
        r == texts(v@).contains(name@),
{
    let mut i: usize = 0;
    while i < v.len()
        invariant
            i <= v.len(),
            forall|j: int| 0 <= j < i ==> v@[j]@ != name@,
        decreases v.len() - i,
    {
        if v[i] == *name {
            assert(texts(v@)[i as int] == name@);
            return true;
        }
        i = i + 1;
    }
    proof {
        if texts(v@).contains(name@) {
            let j = choose|j: int| 0 <= j < texts(v@).len() && texts(v@)[j] == name@;
            assert(v@[j]@ == name@);
        }
    }
    false
}

/// Plans a new generation: one action per source entry, in the source's order,
/// a link where the reference generation holds an entry of that name and a copy
/// everywhere else (always a copy when there is no reference).
pub fn plan_snapshot(source: &Vec<String>, reference: &Option<Vec<String>>) -> (r: Vec<EntryAction>)
    ensures
        r@.len() == source@.len(),
        forall|i: int|
            0 <= i < source@.len() ==> #[trigger] action_view(r@[i]) == action_for(
                source@[i]@,
                match reference {
                    Some(v) => Some(texts(v@)),
                    None => None,
                },
            ),
        reference is None ==> forall|i: int| 0 <= i < r@.len() ==> #[trigger] r@[i] is Copy,
        r@.map_values(|a: EntryAction| action_view(a)) == plan_of(
            texts(source@),
            match reference {
                Some(v) => Some(texts(v@)),
                None => None,
            },
        ),
{
    let ghost refv = match reference {
        Some(v) => Some(texts(v@)),
        None => None,
    };
    let mut out: Vec<EntryAction> = Vec::new();
    let mut i: usize = 0;
    while i < source.len()
        invariant
            i <= source@.len(),
            out@.len() == i,
            refv == match reference {
                Some(v) => Some(texts(v@)),
                None => None,
            },
            forall|j: int| 0 <= j < i ==> #[trigger] action_view(out@[j]) == action_for(source@[j]@, refv),
        decreases source@.len() - i,
    {
        let name = source[i].clone();
        let linked = match reference {
            Some(v) => contains_name(v, &name),
            None => false,
        };
        if linked {
            out.push(EntryAction::Link(name));
        } else {
            out.push(EntryAction::Copy(name));
        }
        i = i + 1;
    }
    assert forall|j: int| 0 <= j < out@.len() && reference is None implies #[trigger] out@[j] is Copy by {
        assert(action_view(out@[j]) == action_for(source@[j]@, refv));
    }
    assert(out@.map_values(|a: EntryAction| action_view(a)) =~= plan_of(texts(source@), refv));
    out
}

/// The plan, as (linked, name) pairs, for a source listing and a reference listing.
pub open spec fn plan_of(source: Seq<Seq<char>>, reference: Option<Seq<Seq<char>>>) -> Seq<(bool, Seq<char>)> {
    Seq::new(source.len(), |i: int| action_for(source[i], reference))
}

/// A model of the storage the engine works on. Each directory entry, keyed by
/// (directory, name), refers to a storage node, and each node holds bytes. A hard
/// link is a second entry that refers to the node of the first; a copy gets a
/// node of its own.
pub struct Volume {
    pub entries: Map<(Seq<char>, Seq<char>), nat>,
    pub blobs: Map<nat, Seq<u8>>,
    pub next: nat,
}

/// Every entry refers to a node that holds bytes, and `next` lies above every node.
pub open spec fn volume_wf(v: Volume) -> bool {
    &&& forall|k: (Seq<char>, Seq<char>)| #[trigger] v.entries.contains_key(k) ==> v.entries[k] < v.next
        && v.blobs.contains_key(v.entries[k])
    &&& forall|id: nat| #[trigger] v.blobs.contains_key(id) ==> id < v.next
}

/// The directory holds no entry.
pub open spec fn dir_empty(v: Volume, dir: Seq<char>) -> bool {
    forall|n: Seq<char>| !(#[trigger] v.entries.contains_key((dir, n)))
}

/// The names that the directory holds.
pub open spec fn dir_holds(v: Volume, dir: Seq<char>, n: Seq<char>) -> bool {
    v.entries.contains_key((dir, n))
}

/// The bytes of an entry.
pub open spec fn content(v: Volume, dir: Seq<char>, n: Seq<char>) -> Seq<u8> {
    v.blobs[v.entries[(dir, n)]]
}

/// One action carried out on the volume. A link whose reference entry is
/// missing, and a copy whose source entry is missing, change nothing.
pub open spec fn apply_action(
    v: Volume,
    src: Seq<char>,
    reference: Option<Seq<char>>,
    tgt: Seq<char>,
    a: (bool, Seq<char>),
) -> Volume {
    let n = a.1;
    if a.0 {
        match reference {
            Some(r) => if v.entries.contains_key((r, n)) {
                Volume { entries: v.entries.insert((tgt, n), v.entries[(r, n)]), ..v }
            } else {
                v
            },
            None => v,
        }
    } else if v.entries.contains_key((src, n)) {
        Volume {
            entries: v.entries.insert((tgt, n), v.next),
            blobs: v.blobs.insert(v.next, v.blobs[v.entries[(src, n)]]),
            next: v.next + 1,
        }
    } else {
        v
    }
}

/// A whole plan carried out on the volume, action after action.
pub open spec fn run_plan(
    v: Volume,
    src: Seq<char>,
    reference: Option<Seq<char>>,
    tgt: Seq<char>,
    plan: Seq<(bool, Seq<char>)>,
) -> Volume
    decreases plan.len(),
{
    if plan.len() == 0 {
        v
    } else {
        apply_action(run_plan(v, src, reference, tgt, plan.drop_last()), src, reference, tgt, plan.last())
    }
}

/// What a snapshot may assume: a well-formed volume, a fresh target apart from
/// the source and the reference, a listing of distinct names that the source
/// holds, and a reference listing that names exactly what the reference holds.
pub open spec fn snapshot_setting(
    v: Volume,
    src: Seq<char>,
    reference: Option<Seq<char>>,
    tgt: Seq<char>,
    source: Seq<Seq<char>>,
    ref_names: Option<Seq<Seq<char>>>,
) -> bool {
    &&& volume_wf(v)
    &&& tgt != src
    &&& reference != Some(tgt)
    &&& dir_empty(v, tgt)
    &&& source.no_duplicates()
    &&& forall|i: int| 0 <= i < source.len() ==> dir_holds(v, src, #[trigger] source[i])
    &&& (reference is Some <==> ref_names is Some)
    &&& reference is Some ==> forall|n: Seq<char>|
        #[trigger] ref_names->0.contains(n) <==> dir_holds(v, reference->0, n)
}

proof fn lemma_run_prefix(
    v: Volume,
    src: Seq<char>,
    reference: Option<Seq<char>>,
    tgt: Seq<char>,
    source: Seq<Seq<char>>,
    ref_names: Option<Seq<Seq<char>>>,
    k: int,
)
    requires
        snapshot_setting(v, src, reference, tgt, source, ref_names),
        0 <= k <= source.len(),
    ensures
        ({
            let w = run_plan(v, src, reference, tgt, plan_of(source, ref_names).take(k));
            &&& volume_wf(w)
            &&& w.next >= v.next
            &&& forall|key: (Seq<char>, Seq<char>)| key.0 != tgt ==> (#[trigger] w.entries.contains_key(key)
                == v.entries.contains_key(key)) && (v.entries.contains_key(key) ==> w.entries[key]
                == v.entries[key])
            &&& forall|id: nat| #[trigger] v.blobs.contains_key(id) ==> w.blobs.contains_key(id)
                && w.blobs[id] == v.blobs[id]
            &&& forall|i: int| 0 <= i < k ==> {
                let n = #[trigger] source[i];
                &&& w.entries.contains_key((tgt, n))
                &&& links(n, ref_names) ==> w.entries[(tgt, n)] == v.entries[(reference->0, n)]
                &&& !links(n, ref_names) ==> w.entries[(tgt, n)] >= v.next && w.blobs[w.entries[(tgt, n)]]
                    == v.blobs[v.entries[(src, n)]]
            }
            &&& ref_names is None ==> forall|n: Seq<char>| #[trigger] w.entries.contains_key((tgt, n))
                ==> w.entries[(tgt, n)] >= v.next
            &&& forall|k1: (Seq<char>, Seq<char>), k2: (Seq<char>, Seq<char>)|
                #[trigger] w.entries.contains_key(k1) && #[trigger] w.entries.contains_key(k2) && k1 != k2
                    && w.entries[k1] >= v.next ==> w.entries[k1] != w.entries[k2]
        }),
    decreases k,
{
    let plan = plan_of(source, ref_names);
    if k > 0 {
        lemma_run_prefix(v, src, reference, tgt, source, ref_names, k - 1);
        assert(plan.take(k).drop_last() =~= plan.take(k - 1));
        assert(plan.take(k).last() == action_for(source[k - 1], ref_names));
        let w0 = run_plan(v, src, reference, tgt, plan.take(k - 1));
        let w = run_plan(v, src, reference, tgt, plan.take(k));
        let n = source[k - 1];
        assert(dir_holds(v, src, n));
        assert(w0.entries.contains_key((src, n)));
        if links(n, ref_names) {
            assert(ref_names->0.contains(n));
            assert(dir_holds(v, reference->0, n));
            assert(w0.entries.contains_key((reference->0, n)));
        }
        assert forall|i: int| 0 <= i < k implies {
            let m = #[trigger] source[i];
            &&& w.entries.contains_key((tgt, m))
            &&& links(m, ref_names) ==> w.entries[(tgt, m)] == v.entries[(reference->0, m)]
            &&& !links(m, ref_names) ==> w.entries[(tgt, m)] >= v.next && w.blobs[w.entries[(tgt, m)]]
                == v.blobs[v.entries[(src, m)]]
        } by {
            if i < k - 1 {
                assert(source[i] != source[k - 1]);
                assert(w0.entries.contains_key((tgt, source[i])));
            }
        }
    } else {
        assert(plan.take(0).len() == 0);
    }
}

/// Every entry of the source listing appears under the same name in the new
/// generation, and its content equals the source's, wherever the reference
/// entry that a link reuses holds what the source entry holds.
pub proof fn lemma_snapshot_complete(
    v: Volume,
    src: Seq<char>,
    reference: Option<Seq<char>>,
    tgt: Seq<char>,
    source: Seq<Seq<char>>,
    ref_names: Option<Seq<Seq<char>>>,
)
    requires
        snapshot_setting(v, src, reference, tgt, source, ref_names),
        reference is Some ==> forall|n: Seq<char>|
            #[trigger] dir_holds(v, reference->0, n) && source.contains(n) ==> content(v, reference->0, n)
                == content(v, src, n),
    ensures
        ({
            let w = run_plan(v, src, reference, tgt, plan_of(source, ref_names));
            forall|i: int| 0 <= i < source.len() ==> dir_holds(w, tgt, #[trigger] source[i]) && content(
                w,
                tgt,
                source[i],
            ) == content(v, src, source[i])
        }),
{
    let plan = plan_of(source, ref_names);
    lemma_run_prefix(v, src, reference, tgt, source, ref_names, source.len() as int);
    assert(plan.take(source.len() as int) =~= plan);
    let w = run_plan(v, src, reference, tgt, plan);
    assert forall|i: int| 0 <= i < source.len() implies dir_holds(w, tgt, #[trigger] source[i]) && content(
        w,
        tgt,
        source[i],
    ) == content(v, src, source[i]) by {
        let n = source[i];
        if links(n, ref_names) {
            assert(ref_names->0.contains(n));
            assert(dir_holds(v, reference->0, n));
            assert(source.contains(n));
            assert(v.blobs.contains_key(v.entries[(reference->0, n)]));
        }
    }
}

/// A snapshot leaves the reference generation as it was: each of its entries
/// refers to the same node, and that node holds the same bytes.
pub proof fn lemma_reference_untouched(
    v: Volume,
    src: Seq<char>,
    reference: Option<Seq<char>>,
    tgt: Seq<char>,
    source: Seq<Seq<char>>,
    ref_names: Option<Seq<Seq<char>>>,
)
    requires
        snapshot_setting(v, src, reference, tgt, source, ref_names),
        reference is Some,
    ensures
        ({
            let w = run_plan(v, src, reference, tgt, plan_of(source, ref_names));
            let r = reference->0;
            forall|n: Seq<char>| #[trigger] dir_holds(w, r, n) == dir_holds(v, r, n) && (dir_holds(v, r, n)
                ==> w.entries[(r, n)] == v.entries[(r, n)] && content(w, r, n) == content(v, r, n))
        }),
{
    let plan = plan_of(source, ref_names);
    lemma_run_prefix(v, src, reference, tgt, source, ref_names, source.len() as int);
    assert(plan.take(source.len() as int) =~= plan);
    let w = run_plan(v, src, reference, tgt, plan);
    let r = reference->0;
    assert forall|n: Seq<char>| #[trigger] dir_holds(w, r, n) == dir_holds(v, r, n) && (dir_holds(v, r, n)
        ==> w.entries[(r, n)] == v.entries[(r, n)] && content(w, r, n) == content(v, r, n)) by {
        assert(w.entries.contains_key((r, n)) == v.entries.contains_key((r, n)));
        if dir_holds(v, r, n) {
            assert(v.blobs.contains_key(v.entries[(r, n)]));
        }
    }
}

/// With a reference, an entry whose name the reference holds is a hard link: it
/// refers to the very node of the reference's entry, so a write to either is seen
/// through both.
pub proof fn lemma_links_share_storage(
    v: Volume,
    src: Seq<char>,
    reference: Option<Seq<char>>,
    tgt: Seq<char>,
    source: Seq<Seq<char>>,
    ref_names: Option<Seq<Seq<char>>>,
)
    requires
        snapshot_setting(v, src, reference, tgt, source, ref_names),
        reference is Some,
    ensures
        ({
            let w = run_plan(v, src, reference, tgt, plan_of(source, ref_names));
            let r = reference->0;
            forall|i: int|
                0 <= i < source.len() && dir_holds(v, r, #[trigger] source[i]) ==> dir_holds(w, tgt, source[i])
                    && w.entries[(tgt, source[i])] == w.entries[(r, source[i])]
        }),
{
    let plan = plan_of(source, ref_names);
    lemma_run_prefix(v, src, reference, tgt, source, ref_names, source.len() as int);
    assert(plan.take(source.len() as int) =~= plan);
    let w = run_plan(v, src, reference, tgt, plan);
    let r = reference->0;
    assert forall|i: int|
        0 <= i < source.len() && dir_holds(v, r, #[trigger] source[i]) implies dir_holds(w, tgt, source[i])
            && w.entries[(tgt, source[i])] == w.entries[(r, source[i])] by {
        assert(ref_names->0.contains(source[i]));
        assert(w.entries.contains_key((r, source[i])) == v.entries.contains_key((r, source[i])));
    }
}

/// Without a reference every entry of the new generation is a copy: no other
/// entry anywhere refers to its node, so writing it changes no other entry.
pub proof fn lemma_first_generation_independent(
    v: Volume,
    src: Seq<char>,
    tgt: Seq<char>,
    source: Seq<Seq<char>>,
)
    requires
        snapshot_setting(v, src, None, tgt, source, None),
    ensures
        ({
            let w = run_plan(v, src, None, tgt, plan_of(source, None));
            forall|n: Seq<char>, key: (Seq<char>, Seq<char>)|
                #[trigger] dir_holds(w, tgt, n) && #[trigger] w.entries.contains_key(key) && key != (tgt, n)
                    ==> w.entries[key] != w.entries[(tgt, n)]
        }),
{
    let plan = plan_of(source, None);
    lemma_run_prefix(v, src, None, tgt, source, None, source.len() as int);
    assert(plan.take(source.len() as int) =~= plan);
    let w = run_plan(v, src, None, tgt, plan);
    assert forall|n: Seq<char>, key: (Seq<char>, Seq<char>)|
        #[trigger] dir_holds(w, tgt, n) && #[trigger] w.entries.contains_key(key) && key != (tgt, n)
            implies w.entries[key] != w.entries[(tgt, n)] by {
        assert(w.entries.contains_key((tgt, n)));
    }
}

} // verus!
