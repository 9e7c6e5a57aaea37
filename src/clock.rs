use vstd::prelude::*;
use crate::order::{first_diff_less, lemma_first_diff_head, lemma_first_diff_tail, lemma_first_diff_order, name_le};

verus! {

/// The decimal digit `d` (below ten) as a character.
pub open spec fn digit_char(d: nat) -> char {
    if d == 0 { '0' } else if d == 1 { '1' } else if d == 2 { '2' } else if d == 3 { '3' }
    else if d == 4 { '4' } else if d == 5 { '5' } else if d == 6 { '6' } else if d == 7 { '7' }
    else if d == 8 { '8' } else { '9' }
}

/// How many decimal digits `n` has (zero has one).
pub open spec fn ndigits(n: nat) -> nat
    decreases n,
{
    if n < 10 { 1 } else { 1 + ndigits(n / 10) }
}

/// The last `w` decimal digits of `n`, most significant first.
pub open spec fn digits(n: nat, w: nat) -> Seq<char>
    decreases w,
{
    if w == 0 { Seq::empty() } else { digits(n / 10, (w - 1) as nat).push(digit_char(n % 10)) }
}

/// `n` in decimal, padded with zeros on the left to at least `w` characters.
pub open spec fn padded(n: nat, w: nat) -> Seq<char> {
    digits(n, if ndigits(n) > w { ndigits(n) } else { w })
}

/// A time of day `secs` seconds and `nanos` nanoseconds after the epoch, as
/// hours (not wrapped at a day), minutes, seconds and nanoseconds, with `sep`
/// between the first three and `frac` before the nanoseconds.
pub open spec fn stamp(secs: nat, nanos: nat, sep: char, frac: char) -> Seq<char> {
    padded(secs / 3600, 2) + seq![sep] + padded((secs % 3600) / 60, 2) + seq![sep] + padded(secs % 60, 2)
        + seq![frac] + padded(nanos, 9)
}

/// The time as log lines show it: `HH:MM:SS.NNNNNNNNN`.
pub open spec fn clock_text(secs: nat, nanos: nat) -> Seq<char> {
    stamp(secs, nanos, ':', '.')
}

/// The name of a generation made at that time: `HH_MM_SS_NNNNNNNNN`.
pub open spec fn generation_text(secs: nat, nanos: nat) -> Seq<char> {
    stamp(secs, nanos, '_', '_')
}

fn push_digit(s: &mut String, d: u64)
    requires
        d < 10,
    ensures
        final(s)@ == old(s)@.push(digit_char(d as nat)),
{
    proof {
        reveal_strlit("0");
        reveal_strlit("1");
        reveal_strlit("2");
        reveal_strlit("3");
        reveal_strlit("4");
        reveal_strlit("5");
        reveal_strlit("6");
        reveal_strlit("7");
        reveal_strlit("8");
        reveal_strlit("9");
    }
    let t: &str = if d == 0 { "0" } else if d == 1 { "1" } else if d == 2 { "2" } else if d == 3 { "3" }
    else if d == 4 { "4" } else if d == 5 { "5" } else if d == 6 { "6" } else if d == 7 { "7" }
    else if d == 8 { "8" } else { "9" };
    s.append(t);
    assert(final(s)@ =~= old(s)@.push(digit_char(d as nat)));
}

fn push_digits(s: &mut String, n: u64, w: u64)
    ensures
        final(s)@ == old(s)@ + digits(n as nat, w as nat),
    decreases w,
{
    if w > 0 {
        push_digits(s, n / 10, w - 1);
        push_digit(s, n % 10);
        assert(final(s)@ =~= old(s)@ + digits(n as nat, w as nat));
    } else {
        assert(final(s)@ =~= old(s)@ + digits(n as nat, w as nat));
    }
}

fn count_digits(n: u64) -> (r: u64)
    ensures
        r == ndigits(n as nat),
    decreases n,
{
    if n < 10 {
        1
    } else {
        let k = count_digits(n / 10);
        proof {
            lemma_ndigits_bound((n / 10) as nat);
        }
        1 + k
    }
}

proof fn lemma_ndigits_bound(n: nat)
    ensures
        ndigits(n) <= n + 1,
    decreases n,
{
    if n >= 10 {
        lemma_ndigits_bound(n / 10);
    }
}

/// Ten to the power `k`.
pub open spec fn pow10(k: nat) -> nat
    decreases k,
{
    if k == 0 { 1 } else { 10 * pow10((k - 1) as nat) }
}

fn push_padded(s: &mut String, n: u64, w: u64)
    ensures
        final(s)@ == old(s)@ + padded(n as nat, w as nat),
{
    let k = count_digits(n);
    let width = if k > w { k } else { w };
    push_digits(s, n, width);
}

fn push_stamp(s: &mut String, secs: u64, nanos: u32, sep: &str, frac: &str)
    requires
        sep@.len() == 1,
        frac@.len() == 1,
    ensures
        final(s)@ == old(s)@ + stamp(secs as nat, nanos as nat, sep@[0], frac@[0]),
{
    push_padded(s, secs / 3600, 2);
    s.append(sep);
    push_padded(s, (secs % 3600) / 60, 2);
    s.append(sep);
    push_padded(s, secs % 60, 2);
    s.append(frac);
    push_padded(s, nanos as u64, 9);
    assert(sep@ =~= seq![sep@[0]]);
    assert(frac@ =~= seq![frac@[0]]);
    assert(final(s)@ =~= old(s)@ + stamp(secs as nat, nanos as nat, sep@[0], frac@[0]));
}

/// Formats a time as log lines show it, `HH:MM:SS.NNNNNNNNN`, from whole
/// seconds and nanoseconds since the epoch.
pub fn format_clock(secs: u64, nanos: u32) -> (r: String)
    ensures
        r@ == clock_text(secs as nat, nanos as nat),
{
    let mut s = String::new();
    proof {
        reveal_strlit(":");
        reveal_strlit(".");
    }
    push_stamp(&mut s, secs, nanos, ":", ".");
    assert(s@ =~= clock_text(secs as nat, nanos as nat));
    s
}

/// The name of a generation made at that time, `HH_MM_SS_NNNNNNNNN`: the clock
/// text with its separators made safe for a file name.
pub fn generation_name(secs: u64, nanos: u32) -> (r: String)
    ensures
        r@ == generation_text(secs as nat, nanos as nat),
{
    let mut s = String::new();
    proof {
        reveal_strlit("_");
    }
    push_stamp(&mut s, secs, nanos, "_", "_");
    assert(s@ =~= generation_text(secs as nat, nanos as nat));
    s
}

/// Relies on std's `SystemTime::now` and `duration_since(UNIX_EPOCH)`: the time
/// elapsed since the epoch as whole seconds and the nanoseconds below one
/// second, or nothing when the system clock stands before the epoch.
#[verifier::external_body]
fn clock_now() -> (r: Option<(u64, u32)>)
    ensures
        r matches Some(t) ==> t.1 < 1_000_000_000,
{
    let d = std::time::SystemTime::now().duration_since(std::time::UNIX_EPOCH).ok();
    d.map(|d| (d.as_secs(), d.subsec_nanos()))
}

/// The time now as log lines show it; a clock set before the epoch reads as the
/// epoch itself.
pub fn current_time() -> (r: String)
    ensures
        exists|secs: u64, nanos: u32| nanos < 1_000_000_000 && r@ == clock_text(secs as nat, nanos as nat),
{
    let (secs, nanos) = match clock_now() {
        Some(t) => t,
        None => (0, 0),
    };
    format_clock(secs, nanos)
}

/// A name for a generation made now; a clock set before the epoch reads as the
/// epoch itself.
pub fn new_generation_name() -> (r: String)
    ensures
        exists|secs: u64, nanos: u32| nanos < 1_000_000_000 && r@ == generation_text(secs as nat, nanos as nat),
{
    let (secs, nanos) = match clock_now() {
        Some(t) => t,
        None => (0, 0),
    };
    generation_name(secs, nanos)
}

proof fn lemma_digits_len(n: nat, w: nat)
    ensures
        digits(n, w).len() == w,
    decreases w,
{
    if w > 0 {
        lemma_digits_len(n / 10, (w - 1) as nat);
    }
}

proof fn lemma_ndigits_pow(n: nat, k: nat)
    requires
        n < pow10(k),
        k > 0,
    ensures
        ndigits(n) <= k,
    decreases k,
{
    if n >= 10 {
        assert(n / 10 < pow10((k - 1) as nat)) by (nonlinear_arith)
            requires
                n < 10 * pow10((k - 1) as nat),
        ;
        if k > 1 {
            lemma_ndigits_pow(n / 10, (k - 1) as nat);
        } else {
            assert(pow10(0) == 1);
        }
    }
}

proof fn lemma_below_pow10(n: nat)
    ensures
        n < pow10(ndigits(n)),
    decreases n,
{
    reveal_with_fuel(pow10, 2);
    if n >= 10 {
        lemma_below_pow10(n / 10);
        let p = pow10(ndigits(n / 10));
        assert(pow10(ndigits(n)) == 10 * p);
        assert(n < 10 * p) by (nonlinear_arith)
            requires
                n / 10 < p,
        ;
    }
}

proof fn lemma_pow10_mono(a: nat, b: nat)
    requires
        a <= b,
    ensures
        pow10(a) <= pow10(b),
    decreases b,
{
    if a < b {
        lemma_pow10_mono(a, (b - 1) as nat);
    }
}

/// Of two numbers below `10^w`, the smaller one's `w` digits come first.
proof fn lemma_digits_order(a: nat, b: nat, w: nat) -> (k: int)
    requires
        a < b,
        b < pow10(w),
    ensures
        first_diff_less(digits(a, w), digits(b, w), k),
    decreases w,
{
    let w1 = (w - 1) as nat;
    lemma_digits_len(a / 10, w1);
    lemma_digits_len(b / 10, w1);
    let da = digit_char(a % 10);
    let db = digit_char(b % 10);
    if a / 10 == b / 10 {
        assert(a % 10 < b % 10);
        assert((da as u32) < (db as u32));
        assert(digits(a, w).take(w1 as int) =~= digits(a / 10, w1));
        assert(digits(b, w).take(w1 as int) =~= digits(b / 10, w1));
        w1 as int
    } else {
        assert(b / 10 < pow10(w1)) by (nonlinear_arith)
            requires
                b < 10 * pow10(w1),
        ;
        let k = lemma_digits_order(a / 10, b / 10, w1);
        lemma_first_diff_head(digits(a / 10, w1), digits(b / 10, w1), seq![da], seq![db], k);
        assert(digits(a, w) =~= digits(a / 10, w1) + seq![da]);
        assert(digits(b, w) =~= digits(b / 10, w1) + seq![db]);
        k
    }
}

/// Of two numbers padded to the same length, the smaller one's text comes first.
proof fn lemma_padded_order(a: nat, b: nat, w: nat) -> (k: int)
    requires
        a < b,
        padded(a, w).len() == padded(b, w).len(),
    ensures
        first_diff_less(padded(a, w), padded(b, w), k),
{
    let wa = if ndigits(a) > w { ndigits(a) } else { w };
    let wb = if ndigits(b) > w { ndigits(b) } else { w };
    lemma_digits_len(a, wa);
    lemma_digits_len(b, wb);
    lemma_below_pow10(b);
    lemma_pow10_mono(ndigits(b), wb);
    lemma_digits_order(a, b, wb)
}

proof fn lemma_padded_len(n: nat, w: nat)
    requires
        n < pow10(w),
        w > 0,
    ensures
        padded(n, w).len() == w,
    decreases w,
{
    lemma_ndigits_pow(n, w);
    lemma_digits_len(n, w);
}

/// The time `(s1, n1)` comes before `(s2, n2)`.
pub open spec fn earlier(s1: nat, n1: nat, s2: nat, n2: nat) -> bool {
    s1 < s2 || (s1 == s2 && n1 < n2)
}

/// Names of generations made at two distinct times sort in the order of the
/// times, as long as the hour count since the epoch is written with as many
/// digits at both times.
pub proof fn lemma_generation_names_ordered(s1: u64, n1: u32, s2: u64, n2: u32)
    requires
        n1 < 1_000_000_000,
        n2 < 1_000_000_000,
        earlier(s1 as nat, n1 as nat, s2 as nat, n2 as nat),
        padded(s1 as nat / 3600, 2).len() == padded(s2 as nat / 3600, 2).len(),
    ensures
        name_le(generation_text(s1 as nat, n1 as nat), generation_text(s2 as nat, n2 as nat)),
        !name_le(generation_text(s2 as nat, n2 as nat), generation_text(s1 as nat, n1 as nat)),
{
    let k = lemma_generation_first_diff(s1 as nat, n1 as nat, s2 as nat, n2 as nat);
    lemma_first_diff_order(generation_text(s1 as nat, n1 as nat), generation_text(s2 as nat, n2 as nat), k);
}

proof fn lemma_pow10_small()
    ensures
        pow10(2) == 100,
        pow10(9) == 1_000_000_000,
{
    reveal_with_fuel(pow10, 10);
    assert(pow10(1) == 10);
    assert(pow10(2) == 100);
    assert(pow10(3) == 1000);
    assert(pow10(4) == 10000);
    assert(pow10(5) == 100000);
    assert(pow10(6) == 1000000);
    assert(pow10(7) == 10000000);
    assert(pow10(8) == 100000000);
    assert(pow10(9) == 1000000000);
}

/// Four fields joined by one separator character.
pub open spec fn join_fields(h: Seq<char>, m: Seq<char>, c: Seq<char>, f: Seq<char>) -> Seq<char> {
    h + (seq!['_'] + (m + (seq!['_'] + (c + (seq!['_'] + f)))))
}

proof fn lemma_generation_text_shape(s: nat, n: nat)
    ensures
        generation_text(s, n) == join_fields(padded(s / 3600, 2), padded((s % 3600) / 60, 2), padded(s % 60, 2), padded(n, 9)),
{
    assert(generation_text(s, n) =~= join_fields(padded(s / 3600, 2), padded((s % 3600) / 60, 2), padded(s % 60, 2), padded(n, 9)));
}

/// Where the first fields that differ are equally long, the joined texts first
/// differ inside them.
proof fn lemma_fields_first_diff(
    h1: Seq<char>, m1: Seq<char>, c1: Seq<char>, f1: Seq<char>,
    h2: Seq<char>, m2: Seq<char>, c2: Seq<char>, f2: Seq<char>,
    field: int, k: int,
) -> (r: int)
    requires
        h1.len() == h2.len(),
        m1.len() == m2.len(),
        c1.len() == c2.len(),
        0 <= field <= 3,
        field == 0 ==> first_diff_less(h1, h2, k),
        field == 1 ==> h1 == h2 && first_diff_less(m1, m2, k),
        field == 2 ==> h1 == h2 && m1 == m2 && first_diff_less(c1, c2, k),
        field == 3 ==> h1 == h2 && m1 == m2 && c1 == c2 && first_diff_less(f1, f2, k),
    ensures
        first_diff_less(join_fields(h1, m1, c1, f1), join_fields(h2, m2, c2, f2), r),
{
    let sep = seq!['_'];
    let (b1, b2) = (sep + f1, sep + f2);
    let (cc1, cc2) = (c1 + b1, c2 + b2);
    let (d1, d2) = (sep + cc1, sep + cc2);
    let (e1, e2) = (m1 + d1, m2 + d2);
    let (g1, g2) = (sep + e1, sep + e2);
    if field == 0 {
        lemma_first_diff_head(h1, h2, g1, g2, k);
        k
    } else {
        let ke: int = if field == 1 {
            lemma_first_diff_head(m1, m2, d1, d2, k);
            k
        } else {
            let kc: int = if field == 2 {
                lemma_first_diff_head(c1, c2, b1, b2, k);
                k
            } else {
                lemma_first_diff_tail(sep, f1, f2, k);
                lemma_first_diff_tail(c1, b1, b2, 1 + k);
                c1.len() + 1 + k
            };
            lemma_first_diff_tail(sep, cc1, cc2, kc);
            lemma_first_diff_tail(m1, d1, d2, 1 + kc);
            m1.len() + 1 + kc
        };
        lemma_first_diff_tail(sep, e1, e2, ke);
        lemma_first_diff_tail(h1, g1, g2, 1 + ke);
        h1.len() + 1 + ke
    }
}

proof fn lemma_time_fields(s1: nat, s2: nat)
    requires
        s1 <= s2,
    ensures
        s1 / 3600 <= s2 / 3600,
        s1 / 3600 == s2 / 3600 ==> (s1 % 3600) / 60 <= (s2 % 3600) / 60,
        s1 / 3600 == s2 / 3600 && (s1 % 3600) / 60 == (s2 % 3600) / 60 ==> s1 % 60 <= s2 % 60,
        s1 / 3600 == s2 / 3600 && (s1 % 3600) / 60 == (s2 % 3600) / 60 && s1 % 60 == s2 % 60 ==> s1 == s2,
        (s1 % 3600) / 60 < 60,
        (s2 % 3600) / 60 < 60,
{
    assert((s1 % 3600) % 60 == s1 % 60);
    assert((s2 % 3600) % 60 == s2 % 60);
}

proof fn lemma_generation_first_diff(s1: nat, n1: nat, s2: nat, n2: nat) -> (k: int)
    requires
        n1 < 1_000_000_000,
        n2 < 1_000_000_000,
        earlier(s1, n1, s2, n2),
        padded(s1 / 3600, 2).len() == padded(s2 / 3600, 2).len(),
    ensures
        first_diff_less(generation_text(s1, n1), generation_text(s2, n2), k),
{
    let (h1, h2) = (padded(s1 / 3600, 2), padded(s2 / 3600, 2));
    let (m1, m2) = (padded((s1 % 3600) / 60, 2), padded((s2 % 3600) / 60, 2));
    let (c1, c2) = (padded(s1 % 60, 2), padded(s2 % 60, 2));
    let (f1, f2) = (padded(n1, 9), padded(n2, 9));
    lemma_time_fields(s1, s2);
    lemma_pow10_small();
    lemma_padded_len((s1 % 3600) / 60, 2);
    lemma_padded_len((s2 % 3600) / 60, 2);
    lemma_padded_len(s1 % 60, 2);
    lemma_padded_len(s2 % 60, 2);
    lemma_generation_text_shape(s1, n1);
    lemma_generation_text_shape(s2, n2);
    if s1 / 3600 < s2 / 3600 {
        let k = lemma_padded_order(s1 / 3600, s2 / 3600, 2);
        lemma_fields_first_diff(h1, m1, c1, f1, h2, m2, c2, f2, 0, k)
    } else if (s1 % 3600) / 60 < (s2 % 3600) / 60 {
        let k = lemma_padded_order((s1 % 3600) / 60, (s2 % 3600) / 60, 2);
        lemma_fields_first_diff(h1, m1, c1, f1, h2, m2, c2, f2, 1, k)
    } else if s1 % 60 < s2 % 60 {
        let k = lemma_padded_order(s1 % 60, s2 % 60, 2);
        lemma_fields_first_diff(h1, m1, c1, f1, h2, m2, c2, f2, 2, k)
    } else {
        lemma_padded_len(n1, 9);
        lemma_padded_len(n2, 9);
        let k = lemma_padded_order(n1, n2, 9);
        lemma_fields_first_diff(h1, m1, c1, f1, h2, m2, c2, f2, 3, k)
    }
}

} // verus!
