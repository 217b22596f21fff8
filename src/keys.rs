//! Composite key encoding shared by every entity kind: `TAG#value`
//! partitions and zero-padded numeric sort suffixes.
//!
//! Numbers are rendered ten wide and zero-filled, so that byte order of sort
//! keys is numeric order. Only numbers in `0..=MAX_SORTABLE` are encoded:
//! a sign or an eleventh digit would break that order, so the encoders
//! require the range and the record builders refuse anything outside it.
use vstd::prelude::*;

verus! {

/// Sort key of every primary key: one record per id.
pub const PRIMARY_SORT: &'static str = "A";

/// Lexicographic strict order on character sequences, by code point.
pub open spec fn seq_less(a: Seq<char>, b: Seq<char>) -> bool {
    ||| exists|i: int|
        0 <= i < a.len() && i < b.len() && #[trigger] a.subrange(0, i) == b.subrange(0, i)
            && (a[i] as u32) < (b[i] as u32)
    ||| (a.len() < b.len() && a == b.subrange(0, a.len() as int))
}

/// `tag#value`.
pub open spec fn tagged(tag: Seq<char>, value: Seq<char>) -> Seq<char> {
    tag + seq!['#'] + value
}

/// The character of decimal digit `d`.
pub open spec fn digit_char(d: nat) -> char {
    if d == 0 { '0' }
    else if d == 1 { '1' }
    else if d == 2 { '2' }
    else if d == 3 { '3' }
    else if d == 4 { '4' }
    else if d == 5 { '5' }
    else if d == 6 { '6' }
    else if d == 7 { '7' }
    else if d == 8 { '8' }
    else { '9' }
}

/// The last `count` decimal digits of `n`, most significant first.
pub open spec fn low_digits(n: nat, count: nat) -> Seq<char>
    decreases count,
{
    if count == 0 {
        seq![]
    } else {
        low_digits(n / 10, (count - 1) as nat).push(digit_char(n % 10))
    }
}

/// The ten-wide, zero-filled decimal rendering of a sortable number.
pub open spec fn padded10(n: int) -> Seq<char> {
    low_digits(n as nat, 10)
}

/// Largest number whose ten-wide rendering keeps numeric order.
pub const MAX_SORTABLE: i64 = 9_999_999_999;

/// A number whose ten-wide rendering keeps numeric order in a sort key.
pub open spec fn sortable(n: int) -> bool {
    0 <= n <= MAX_SORTABLE
}

fn digit_str(d: u64) -> (r: &'static str)
    requires
        d < 10,
    ensures
        r@ == seq![digit_char(d as nat)],
{
    proof {
        reveal_strlit("0");
        reveal_strlit("1");
        reveal_strlit("2");
        reveal_strlit("3");
        reveal_strlit("4");
        reveal_strlit("5");
        reveal_strlit("6");
        reveal_strlit("7");
        reveal_strlit("8");
        reveal_strlit("9");
    }
    if d == 0 { "0" }
    else if d == 1 { "1" }
    else if d == 2 { "2" }
    else if d == 3 { "3" }
    else if d == 4 { "4" }
    else if d == 5 { "5" }
    else if d == 6 { "6" }
    else if d == 7 { "7" }
    else if d == 8 { "8" }
    else { "9" }
}

/// Ten to the power `k`.
pub open spec fn pow10(k: nat) -> nat
    decreases k,
{
    if k == 0 { 1 } else { 10 * pow10((k - 1) as nat) }
}

proof fn lemma_low_digits_len(n: nat, count: nat)
    ensures
        low_digits(n, count).len() == count,
    decreases count,
{
    if count > 0 {
        lemma_low_digits_len(n / 10, (count - 1) as nat);
    }
}

proof fn lemma_digit_char_order(d1: nat, d2: nat)
    requires
        d1 < d2 < 10,
    ensures
        (digit_char(d1) as u32) < (digit_char(d2) as u32),
{
}

proof fn lemma_low_digits_less(a: nat, b: nat, w: nat)
    requires
        a < b < pow10(w),
    ensures
        seq_less(low_digits(a, w), low_digits(b, w)),
    decreases w,
{
    let la = low_digits(a, w);
    let lb = low_digits(b, w);
    lemma_low_digits_len(a, w);
    lemma_low_digits_len(b, w);
    if w == 0 {
        assert(false);
    } else {
        let w1 = (w - 1) as nat;
        let pa = low_digits(a / 10, w1);
        let pb = low_digits(b / 10, w1);
        lemma_low_digits_len(a / 10, w1);
        lemma_low_digits_len(b / 10, w1);
        let p = pow10(w1);
        assert(b / 10 < p) by (nonlinear_arith)
            requires b < 10 * p;
        assert(a / 10 <= b / 10) by (nonlinear_arith)
            requires a < b;
        if a / 10 < b / 10 {
            lemma_low_digits_less(a / 10, b / 10, w1);
            let i = choose|i: int|
                0 <= i < pa.len() && i < pb.len() && #[trigger] pa.subrange(0, i) == pb.subrange(0, i)
                    && (pa[i] as u32) < (pb[i] as u32);
            assert(la.subrange(0, i) =~= pa.subrange(0, i));
            assert(lb.subrange(0, i) =~= pb.subrange(0, i));
            assert(la[i] == pa[i]);
            assert(lb[i] == pb[i]);
        } else {
            assert(a % 10 < b % 10) by (nonlinear_arith)
                requires a < b, a / 10 == b / 10;
            lemma_digit_char_order(a % 10, b % 10);
            let i = w1 as int;
            assert(la.subrange(0, i) =~= pa);
            assert(lb.subrange(0, i) =~= pb);
        }
    }
}

proof fn lemma_less_with_prefix(p: Seq<char>, a: Seq<char>, b: Seq<char>)
    requires
        seq_less(a, b),
        a.len() == b.len(),
    ensures
        seq_less(p + a, p + b),
{
    let i = choose|i: int|
        0 <= i < a.len() && i < b.len() && #[trigger] a.subrange(0, i) == b.subrange(0, i)
            && (a[i] as u32) < (b[i] as u32);
    let j = p.len() + i;
    assert((p + a).subrange(0, j) =~= p + a.subrange(0, i));
    assert((p + b).subrange(0, j) =~= p + b.subrange(0, i));
    assert((p + a)[j] == a[i]);
    assert((p + b)[j] == b[i]);
}

/// Within the sortable range, numeric order of two numbers is the
/// lexicographic order of their ten-wide renderings, also behind a common
/// `tag#` prefix.
pub proof fn lemma_padded10_keeps_order(tag: Seq<char>, s1: int, s2: int)
    requires
        0 <= s1 < s2 <= MAX_SORTABLE,
    ensures
        seq_less(padded10(s1), padded10(s2)),
        seq_less(tagged(tag, padded10(s1)), tagged(tag, padded10(s2))),
        precedes(tagged(tag, padded10(s1)), tagged(tag, padded10(s2))),
{
    reveal_with_fuel(pow10, 11);
    assert(pow10(10) == 10_000_000_000nat);
    lemma_low_digits_less(s1 as nat, s2 as nat, 10);
    lemma_low_digits_len(s1 as nat, 10);
    lemma_low_digits_len(s2 as nat, 10);
    let pre = tag + seq!['#'];
    lemma_less_with_prefix(pre, padded10(s1), padded10(s2));
    assert(tagged(tag, padded10(s1)) =~= pre + padded10(s1));
    assert(tagged(tag, padded10(s2)) =~= pre + padded10(s2));
    lemma_seq_less_precedes(tagged(tag, padded10(s1)), tagged(tag, padded10(s2)));
}

fn push_low_digits(out: &mut String, n: u64, count: usize)
    ensures
        final(out)@ == old(out)@ + low_digits(n as nat, count as nat),
    decreases count,
{
    if count > 0 {
        push_low_digits(out, n / 10, count - 1);
        out.append(digit_str(n % 10));
        assert(final(out)@ =~= old(out)@ + low_digits(n as nat, count as nat));
    }
}

/// Appends the ten-wide zero-filled rendering of `n`.
pub fn push_padded10(out: &mut String, n: i64)
    requires
        sortable(n as int),
    ensures
        final(out)@ == old(out)@ + padded10(n as int),
{
    push_low_digits(out, n as u64, 10);
}

/// Lexicographic strict order on character sequences, by code point,
/// compared from the front.
pub open spec fn precedes(a: Seq<char>, b: Seq<char>) -> bool
    decreases a.len(),
{
    if a.len() == 0 {
        b.len() > 0
    } else if b.len() == 0 {
        false
    } else if a[0] != b[0] {
        (a[0] as u32) < (b[0] as u32)
    } else {
        precedes(a.drop_first(), b.drop_first())
    }
}

/// Distinct characters have distinct code points.
pub proof fn lemma_code_injective(a: char, b: char)
    requires
        a as u32 == b as u32,
    ensures
        a == b,
{
}

pub proof fn lemma_precedes_irreflexive(a: Seq<char>)
    ensures
        !precedes(a, a),
    decreases a.len(),
{
    if a.len() > 0 {
        lemma_precedes_irreflexive(a.drop_first());
    }
}

pub proof fn lemma_precedes_transitive(a: Seq<char>, b: Seq<char>, c: Seq<char>)
    requires
        precedes(a, b),
        precedes(b, c),
    ensures
        precedes(a, c),
    decreases a.len(),
{
    if a.len() > 0 && b.len() > 0 && c.len() > 0 {
        if a[0] == b[0] && b[0] == c[0] {
            lemma_precedes_transitive(a.drop_first(), b.drop_first(), c.drop_first());
        } else if a[0] != c[0] {
        } else {
            assert((a[0] as u32) < (b[0] as u32) || (b[0] as u32) < (c[0] as u32));
            assert(false);
        }
    }
}

pub proof fn lemma_precedes_total(a: Seq<char>, b: Seq<char>)
    requires
        a != b,
    ensures
        precedes(a, b) || precedes(b, a),
    decreases a.len(),
{
    if a.len() == 0 {
        assert(b.len() > 0) by {
            if b.len() == 0 {
                assert(a =~= b);
            }
        }
    } else if b.len() > 0 && a[0] == b[0] {
        assert(a.drop_first() != b.drop_first()) by {
            if a.drop_first() == b.drop_first() {
                assert(a =~= seq![a[0]] + a.drop_first());
                assert(b =~= seq![b[0]] + b.drop_first());
            }
        }
        lemma_precedes_total(a.drop_first(), b.drop_first());
    } else if b.len() > 0 {
        if a[0] as u32 == b[0] as u32 {
            lemma_code_injective(a[0], b[0]);
        }
    }
}

proof fn lemma_seq_less_precedes(a: Seq<char>, b: Seq<char>)
    requires
        seq_less(a, b),
    ensures
        precedes(a, b),
    decreases a.len(),
{
    if exists|i: int|
        0 <= i < a.len() && i < b.len() && #[trigger] a.subrange(0, i) == b.subrange(0, i)
            && (a[i] as u32) < (b[i] as u32) {
        let i = choose|i: int|
            0 <= i < a.len() && i < b.len() && #[trigger] a.subrange(0, i) == b.subrange(0, i)
                && (a[i] as u32) < (b[i] as u32);
        if i > 0 {
            assert(a[0] == a.subrange(0, i)[0]);
            assert(b[0] == b.subrange(0, i)[0]);
            let (a1, b1) = (a.drop_first(), b.drop_first());
            assert(a1.subrange(0, i - 1) =~= a.subrange(1, i));
            assert(b1.subrange(0, i - 1) =~= b.subrange(1, i));
            assert(a.subrange(1, i) =~= a.subrange(0, i).subrange(1, i));
            assert(b.subrange(1, i) =~= b.subrange(0, i).subrange(1, i));
            assert(a1[i - 1] == a[i] && b1[i - 1] == b[i]);
            lemma_seq_less_precedes(a1, b1);
        }
    } else if a.len() > 0 {
        assert(a[0] == b.subrange(0, a.len() as int)[0]);
        let (a1, b1) = (a.drop_first(), b.drop_first());
        assert(a1 =~= b1.subrange(0, a1.len() as int));
        lemma_seq_less_precedes(a1, b1);
    }
}

/// Whether `a` comes strictly before `b` in lexicographic order.
pub fn str_precedes(a: &str, b: &str) -> (r: bool)
    ensures
        r == precedes(a@, b@),
{
    let x = chars_of(a);
    let y = chars_of(b);
    let mut i: usize = 0;
    assert(x@.subrange(0, x@.len() as int) =~= x@);
    assert(y@.subrange(0, y@.len() as int) =~= y@);
    while i < x.len() && i < y.len() && x[i] == y[i]
        invariant
            x@ == a@,
            y@ == b@,
            i <= x@.len(),
            i <= y@.len(),
            precedes(a@, b@) == precedes(x@.subrange(i as int, x@.len() as int), y@.subrange(i as int, y@.len() as int)),
        decreases x@.len() - i,
    {
        let ghost xs = x@.subrange(i as int, x@.len() as int);
        let ghost ys = y@.subrange(i as int, y@.len() as int);
        assert(xs.drop_first() =~= x@.subrange(i + 1, x@.len() as int));
        assert(ys.drop_first() =~= y@.subrange(i + 1, y@.len() as int));
        i += 1;
    }
    let ghost xs = x@.subrange(i as int, x@.len() as int);
    let ghost ys = y@.subrange(i as int, y@.len() as int);
    if i == x.len() {
        i < y.len()
    } else if i == y.len() {
        false
    } else {
        assert(xs[0] == x@[i as int] && ys[0] == y@[i as int]);
        (x[i] as u32) < (y[i] as u32)
    }
}

/// The characters of `s`.
pub fn chars_of(s: &str) -> (r: Vec<char>)
    ensures
        r@ == s@,
{
    let n = s.unicode_len();
    let mut v: Vec<char> = Vec::new();
    let mut i: usize = 0;
    while i < n
        invariant
            n == s@.len(),
            i <= n,
            v@ == s@.subrange(0, i as int),
        decreases n - i,
    {
        v.push(s.get_char(i));
        i += 1;
        assert(v@ =~= s@.subrange(0, i as int));
    }
    assert(v@ =~= s@);
    v
}

/// `tag#value` as a new string.
pub fn tagged_value(tag: &str, value: &str) -> (r: String)
    ensures
        r@ == tagged(tag@, value@),
{
    proof { reveal_strlit("#"); }
    let mut s = String::from_str(tag);
    s.append("#");
    s.append(value);
    s
}

/// `tag#` followed by the ten-wide rendering of `n`.
pub fn tagged_number(tag: &str, n: i64) -> (r: String)
    requires
        sortable(n as int),
    ensures
        r@ == tagged(tag@, padded10(n as int)),
{
    proof { reveal_strlit("#"); }
    let mut s = String::from_str(tag);
    s.append("#");
    push_padded10(&mut s, n);
    assert(s@ =~= tagged(tag@, padded10(n as int)));
    s
}

} // verus!
