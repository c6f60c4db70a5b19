//! Comparing dotted version strings such as `1.9.9` and `2.0.0`.
use vstd::prelude::*;
use vstd::string::StringSliceAdditionalSpecFns;

verus! {

/// Whether `c` is an ASCII digit.
pub open spec fn is_digit(c: u8) -> bool {
    0x30 <= c <= 0x39
}

/// Whether every byte of `d` is an ASCII digit.
pub open spec fn all_digits(d: Seq<u8>) -> bool {
    forall|i: int| 0 <= i < d.len() ==> is_digit(#[trigger] d[i])
}

/// The number that the decimal digits `d` spell out.
pub open spec fn digits_value(d: Seq<u8>) -> nat
    decreases d.len(),
{
    if d.len() == 0 {
        0
    } else {
        digits_value(d.drop_last()) * 10 + (d.last() - 0x30) as nat
    }
}

/// A component read as an unsigned 32-bit number, as `u32::from_str` reads it:
/// an optional `+`, then one or more digits, with a value that fits.
pub open spec fn parse_u32(p: Seq<u8>) -> Option<u32> {
    let d = if p.len() > 0 && p[0] == 0x2b {
        p.drop_first()
    } else {
        p
    };
    if d.len() > 0 && all_digits(d) && digits_value(d) <= u32::MAX {
        Some(digits_value(d) as u32)
    } else {
        None
    }
}

/// Splitting on `.`: the components finished so far, and the one in progress.
pub open spec fn split_acc(s: Seq<u8>) -> (Seq<Seq<u8>>, Seq<u8>)
    decreases s.len(),
{
    if s.len() == 0 {
        (seq![], seq![])
    } else {
        let (done, cur) = split_acc(s.drop_last());
        if s.last() == 0x2e {
            (done.push(cur), seq![])
        } else {
            (done, cur.push(s.last()))
        }
    }
}

/// The components of `s` between dots, empty ones included.
pub open spec fn pieces(s: Seq<u8>) -> Seq<Seq<u8>> {
    split_acc(s).0.push(split_acc(s).1)
}

/// The components that read as numbers, in order; the others are left out.
pub open spec fn numbers(ps: Seq<Seq<u8>>) -> Seq<u32>
    decreases ps.len(),
{
    if ps.len() == 0 {
        seq![]
    } else {
        numbers(ps.drop_last()) + match parse_u32(ps.last()) {
            Some(n) => seq![n],
            None => seq![],
        }
    }
}

/// The numeric components of a version string.
pub open spec fn version_numbers(s: Seq<u8>) -> Seq<u32> {
    numbers(pieces(s))
}

/// Component `i`, or 0 past the end.
pub open spec fn part(a: Seq<u32>, i: int) -> u32 {
    if 0 <= i < a.len() {
        a[i]
    } else {
        0
    }
}

/// Compares `a` and `b` from component `i` on, the shorter one padded with zeros:
/// 1 when `a` is greater, -1 when smaller, 0 when equal.
pub open spec fn compare_from(a: Seq<u32>, b: Seq<u32>, i: int) -> i8
    decreases (if a.len() > b.len() { a.len() } else { b.len() }) - i,
{
    if i < 0 || i >= a.len() && i >= b.len() {
        0
    } else if part(a, i) > part(b, i) {
        1
    } else if part(a, i) < part(b, i) {
        -1i8
    } else {
        compare_from(a, b, i + 1)
    }
}

proof fn lemma_digits_value_prefix(d: Seq<u8>, k: int)
    requires
        0 <= k <= d.len(),
        all_digits(d),
    ensures
        digits_value(d.subrange(0, k)) <= digits_value(d),
    decreases d.len(),
{
    if k < d.len() {
        lemma_digits_value_prefix(d.drop_last(), k);
        assert(d.drop_last().subrange(0, k) =~= d.subrange(0, k));
    } else {
        assert(d.subrange(0, k) =~= d);
    }
}

/// Reads one component as `u32::from_str` does.
pub fn parse_component(p: &[u8]) -> (r: Option<u32>)
    ensures
        r == parse_u32(p@),
{
    let start: usize = if p.len() > 0 && p[0] == 0x2b { 1 } else { 0 };
    let ghost d = if p@.len() > 0 && p@[0] == 0x2b { p@.drop_first() } else { p@ };
    assert(d =~= p@.skip(start as int));
    if p.len() - start == 0 {
        return None;
    }
    let mut acc: u64 = 0;
    let mut i: usize = start;
    while i < p.len()
        invariant
            start <= i <= p@.len(),
            d =~= p@.skip(start as int),
            d == (if p@.len() > 0 && p@[0] == 0x2b { p@.drop_first() } else { p@ }),
            all_digits(p@.subrange(start as int, i as int)),
            acc == digits_value(p@.subrange(start as int, i as int)),
            acc <= u32::MAX,
        decreases p@.len() - i,
    {
        let c = p[i];
        if c < 0x30 || c > 0x39 {
            assert(d[i - start] == c);
            assert(!is_digit(d[i - start]));
            return None;
        }
        let ghost before = p@.subrange(start as int, i as int);
        let ghost after = p@.subrange(start as int, i + 1);
        assert(after.drop_last() =~= before);
        assert(digits_value(after) == digits_value(before) * 10 + (c - 0x30) as nat);
        acc = acc * 10 + (c - 0x30) as u64;
        assert(acc == digits_value(after));
        assert forall|j: int| 0 <= j < after.len() implies is_digit(#[trigger] after[j]) by {
            if j < before.len() {
                assert(after[j] == before[j]);
            }
        }
        i = i + 1;
        if acc > 0xffff_ffff {
            proof {
                if all_digits(d) {
                    assert(d.subrange(0, i - start) =~= after);
                    lemma_digits_value_prefix(d, i - start);
                }
            }
            return None;
        }
    }
    assert(p@.subrange(start as int, p@.len() as int) =~= d);
    Some(acc as u32)
}

/// The numeric components of a version string, in order.
pub fn version_parts(s: &str) -> (r: Vec<u32>)
    ensures
        r@ == version_numbers(s.spec_bytes()),
{
    let b = s.as_bytes();
    let mut out: Vec<u32> = Vec::new();
    let mut cur: Vec<u8> = Vec::new();
    let mut i: usize = 0;
    while i < b.len()
        invariant
            i <= b@.len(),
            out@ == numbers(split_acc(b@.subrange(0, i as int)).0),
            cur@ == split_acc(b@.subrange(0, i as int)).1,
        decreases b@.len() - i,
    {
        let ghost pre = b@.subrange(0, i as int);
        let ghost next = b@.subrange(0, i + 1);
        assert(next.drop_last() =~= pre);
        if b[i] == 0x2e {
            let ghost done = split_acc(pre).0;
            assert(done.push(cur@).drop_last() =~= done);
            match parse_component(&cur) {
                Some(n) => out.push(n),
                None => {},
            }
            assert(out@ =~= numbers(done.push(cur@)));
            cur = Vec::new();
        } else {
            cur.push(b[i]);
        }
        i = i + 1;
    }
    let ghost all = b@.subrange(0, b@.len() as int);
    assert(all =~= b@);
    let ghost done = split_acc(all).0;
    assert(done.push(cur@).drop_last() =~= done);
    match parse_component(&cur) {
        Some(n) => out.push(n),
        None => {},
    }
    assert(out@ =~= numbers(done.push(cur@)));
    out
}

/// Compares two dotted versions component by component, the shorter one padded
/// with zeros; components that are not numbers are left out. 1 when `v1` is
/// newer, -1 when older, 0 when equal.
pub fn version_compare(v1: &str, v2: &str) -> (r: i8)
    ensures
        r == compare_from(version_numbers(v1.spec_bytes()), version_numbers(v2.spec_bytes()), 0),
{
    let a = version_parts(v1);
    let b = version_parts(v2);
    let n = if a.len() > b.len() { a.len() } else { b.len() };
    let mut i: usize = 0;
    while i < n
        invariant
            a@ == version_numbers(v1.spec_bytes()),
            b@ == version_numbers(v2.spec_bytes()),
            n == (if a@.len() > b@.len() { a@.len() } else { b@.len() }),
            i <= n,
            compare_from(a@, b@, 0) == compare_from(a@, b@, i as int),
        decreases n - i,
    {
        let p1 = if i < a.len() { a[i] } else { 0 };
        let p2 = if i < b.len() { b[i] } else { 0 };
        assert(part(a@, i as int) == p1 && part(b@, i as int) == p2);
        if p1 > p2 {
            return 1;
        } else if p1 < p2 {
            return -1;
        }
        i = i + 1;
    }
    0
}

} // verus!
