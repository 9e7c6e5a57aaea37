use vstd::prelude::*;

verus! {

/// Lexicographic order on names by code point, from position `i` on: the first
/// position where the two differ decides, and a proper prefix comes first.
pub open spec fn le_from(a: Seq<char>, b: Seq<char>, i: int) -> bool
    decreases a.len() - i,
{
    if i < 0 || i >= a.len() {
        true
    } else if i >= b.len() {
        false
    } else if (a[i] as u32) != (b[i] as u32) {
        (a[i] as u32) < (b[i] as u32)
    } else {
        le_from(a, b, i + 1)
    }
}

/// `a` sorts at or before `b`, in the order in which a directory's names compare.
pub open spec fn name_le(a: Seq<char>, b: Seq<char>) -> bool {
    le_from(a, b, 0)
}

pub proof fn lemma_le_from_total(a: Seq<char>, b: Seq<char>, i: int)
    requires
        0 <= i,
    ensures
        le_from(a, b, i) || le_from(b, a, i),
    decreases a.len() - i,
{
    if i < a.len() && i < b.len() && (a[i] as u32) == (b[i] as u32) {
        lemma_le_from_total(a, b, i + 1);
    }
}

pub proof fn lemma_le_from_trans(a: Seq<char>, b: Seq<char>, c: Seq<char>, i: int)
    requires
        0 <= i,
        le_from(a, b, i),
        le_from(b, c, i),
    ensures
        le_from(a, c, i),
    decreases a.len() - i,
{
    if i < a.len() && i < b.len() && i < c.len() && (a[i] as u32) == (b[i] as u32)
        && (b[i] as u32) == (c[i] as u32) {
        lemma_le_from_trans(a, b, c, i + 1);
    }
}

/// `a` and `b` agree before position `k` and differ there, `a` with the lower code point.
pub open spec fn first_diff_less(a: Seq<char>, b: Seq<char>, k: int) -> bool {
    &&& 0 <= k < a.len()
    &&& k < b.len()
    &&& a.take(k) == b.take(k)
    &&& (a[k] as u32) < (b[k] as u32)
}

proof fn lemma_first_diff_from(a: Seq<char>, b: Seq<char>, k: int, i: int)
    requires
        first_diff_less(a, b, k),
        0 <= i <= k,
    ensures
        le_from(a, b, i),
        !le_from(b, a, i),
    decreases k - i,
{
    if i < k {
        assert(a.take(k)[i] == a[i]);
        assert(b.take(k)[i] == b[i]);
        lemma_first_diff_from(a, b, k, i + 1);
    }
}

/// A first difference decides the order both ways.
pub proof fn lemma_first_diff_order(a: Seq<char>, b: Seq<char>, k: int)
    requires
        first_diff_less(a, b, k),
    ensures
        name_le(a, b),
        !name_le(b, a),
        a != b,
{
    lemma_first_diff_from(a, b, k, 0);
}

/// A first difference inside equally long heads stays the first difference
/// whatever follows.
pub proof fn lemma_first_diff_head(x1: Seq<char>, x2: Seq<char>, y1: Seq<char>, y2: Seq<char>, k: int)
    requires
        first_diff_less(x1, x2, k),
    ensures
        first_diff_less(x1 + y1, x2 + y2, k),
{
    assert((x1 + y1).take(k) =~= x1.take(k));
    assert((x2 + y2).take(k) =~= x2.take(k));
}

/// Behind a common head, a first difference moves by the head's length.
pub proof fn lemma_first_diff_tail(x: Seq<char>, y1: Seq<char>, y2: Seq<char>, k: int)
    requires
        first_diff_less(y1, y2, k),
    ensures
        first_diff_less(x + y1, x + y2, x.len() + k),
{
    assert((x + y1).take(x.len() + k) =~= x + y1.take(k));
    assert((x + y2).take(x.len() + k) =~= x + y2.take(k));
}

/// Compares two names as `name_le` does.
pub fn name_le_exec(a: &String, b: &String) -> (r: bool)
    ensures
        r == name_le(a@, b@),
{
    let sa = a.as_str();
    let sb = b.as_str();
    let la = sa.unicode_len();
    let lb = sb.unicode_len();
    let mut i: usize = 0;
    while i < la
        invariant
            sa@ == a@,
            sb@ == b@,
            la == a@.len(),
            lb == b@.len(),
            i <= la,
            le_from(a@, b@, 0) == le_from(a@, b@, i as int),
        decreases la - i,
    {
        if i >= lb {
            return false;
        }
        let ca = sa.get_char(i);
        let cb = sb.get_char(i);
        if (ca as u32) != (cb as u32) {
            return (ca as u32) < (cb as u32);
        }
        i = i + 1;
    }
    true
}

} // verus!
