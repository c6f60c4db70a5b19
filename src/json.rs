//! JSON string literals in the compact form: which bytes are escaped, and how.
use vstd::prelude::*;

verus! {

/// A lowercase hexadecimal digit for `n < 16`.
pub open spec fn hex_digit(n: u8) -> u8 {
    if n < 10 {
        (0x30 + n) as u8
    } else {
        (0x61 + n - 10) as u8
    }
}

/// Whether `d` is a lowercase hexadecimal digit.
pub open spec fn is_hex_lower(d: u8) -> bool {
    (0x30 <= d <= 0x39) || (0x61 <= d <= 0x66)
}

/// The value of a lowercase hexadecimal digit.
pub open spec fn hex_value(d: u8) -> u8 {
    if d <= 0x39 {
        (d - 0x30) as u8
    } else {
        (d - 0x61 + 10) as u8
    }
}

/// The bytes that stand for byte `c` inside a string literal: quote, backslash and
/// control bytes are escaped, with the short forms where JSON has one.
pub open spec fn esc_byte(c: u8) -> Seq<u8> {
    if c == 0x22 {
        seq![0x5cu8, 0x22u8]
    } else if c == 0x5c {
        seq![0x5cu8, 0x5cu8]
    } else if c == 0x08 {
        seq![0x5cu8, 0x62u8]
    } else if c == 0x09 {
        seq![0x5cu8, 0x74u8]
    } else if c == 0x0a {
        seq![0x5cu8, 0x6eu8]
    } else if c == 0x0c {
        seq![0x5cu8, 0x66u8]
    } else if c == 0x0d {
        seq![0x5cu8, 0x72u8]
    } else if c < 0x20 {
        seq![0x5cu8, 0x75u8, 0x30u8, 0x30u8, hex_digit(c / 16), hex_digit(c % 16)]
    } else {
        seq![c]
    }
}

/// The body of the string literal for `s`, without its quotes.
pub open spec fn escape(s: Seq<u8>) -> Seq<u8>
    decreases s.len(),
{
    if s.len() == 0 {
        seq![]
    } else {
        esc_byte(s[0]) + escape(s.drop_first())
    }
}

/// Reads one byte of a string body from the front of `b`: the byte and how many
/// input bytes it took. Only the forms that `esc_byte` writes are accepted.
pub open spec fn unescape_one(b: Seq<u8>) -> Option<(u8, nat)> {
    if b.len() == 0 || b[0] == 0x22 {
        None
    } else if b[0] == 0x5c {
        if b.len() < 2 {
            None
        } else if b[1] == 0x22 {
            Some((0x22u8, 2))
        } else if b[1] == 0x5c {
            Some((0x5cu8, 2))
        } else if b[1] == 0x62 {
            Some((0x08u8, 2))
        } else if b[1] == 0x74 {
            Some((0x09u8, 2))
        } else if b[1] == 0x6e {
            Some((0x0au8, 2))
        } else if b[1] == 0x66 {
            Some((0x0cu8, 2))
        } else if b[1] == 0x72 {
            Some((0x0du8, 2))
        } else if b[1] == 0x75 && b.len() >= 6 && b[2] == 0x30 && b[3] == 0x30 && is_hex_lower(b[4])
            && is_hex_lower(b[5]) {
            let v = hex_value(b[4]) * 16 + hex_value(b[5]);
            if v < 0x20 && v != 0x08 && v != 0x09 && v != 0x0a && v != 0x0c && v != 0x0d {
                Some((v as u8, 6))
            } else {
                None
            }
        } else {
            None
        }
    } else if b[0] < 0x20 {
        None
    } else {
        Some((b[0], 1))
    }
}

/// Reads a string body from the front of `b` up to and including its closing quote:
/// the bytes it stands for and how many input bytes it took.
pub open spec fn unescape(b: Seq<u8>) -> Option<(Seq<u8>, nat)>
    decreases b.len(),
{
    if b.len() == 0 {
        None
    } else if b[0] == 0x22 {
        Some((seq![], 1))
    } else {
        match unescape_one(b) {
            Some((c, k)) => if 1 <= k <= b.len() {
                match unescape(b.skip(k as int)) {
                    Some((s, n)) => Some((seq![c] + s, k + n)),
                    None => None,
                }
            } else {
                None
            },
            None => None,
        }
    }
}

/// `r` with `o` in front of its bytes and `d` added to its length.
pub open spec fn after(o: Seq<u8>, d: nat, r: Option<(Seq<u8>, nat)>) -> Option<(Seq<u8>, nat)> {
    match r {
        Some((s, n)) => Some((o + s, d + n)),
        None => None,
    }
}

proof fn lemma_escape_append(a: Seq<u8>, b: Seq<u8>)
    ensures
        escape(a + b) == escape(a) + escape(b),
    decreases a.len(),
{
    if a.len() == 0 {
        assert(a + b =~= b);
    } else {
        assert((a + b).drop_first() =~= a.drop_first() + b);
        lemma_escape_append(a.drop_first(), b);
    }
}

proof fn lemma_escape_single(c: u8)
    ensures
        escape(seq![c]) == esc_byte(c),
{
    let one = seq![c];
    assert(one.drop_first() =~= Seq::<u8>::empty());
    assert(escape(Seq::<u8>::empty()) == Seq::<u8>::empty());
    assert(escape(one) == esc_byte(one[0]) + escape(one.drop_first()));
    assert(esc_byte(c) + Seq::<u8>::empty() =~= esc_byte(c));
}

proof fn lemma_unescape_one_esc(c: u8, t: Seq<u8>)
    ensures
        unescape_one(esc_byte(c) + t) == Some((c, esc_byte(c).len())),
        (esc_byte(c) + t)[0] != 0x22,
{
    let b = esc_byte(c) + t;
    if c < 0x20 && c != 0x08 && c != 0x09 && c != 0x0a && c != 0x0c && c != 0x0d {
        assert(b[4] == hex_digit(c / 16));
        assert(b[5] == hex_digit(c % 16));
        assert(hex_value(b[4]) * 16 + hex_value(b[5]) == c);
    } else {
        assert(b[0] == esc_byte(c)[0]);
        assert(esc_byte(c).len() >= 2 ==> b[1] == esc_byte(c)[1]);
    }
}

/// A string literal body read back yields the bytes it was written from,
/// whatever follows its closing quote.
pub proof fn lemma_unescape_escape(s: Seq<u8>, rest: Seq<u8>)
    ensures
        unescape(escape(s) + seq![0x22u8] + rest) == Some((s, escape(s).len() + 1)),
    decreases s.len(),
{
    let b = escape(s) + seq![0x22u8] + rest;
    if s.len() == 0 {
        assert(b[0] == 0x22);
        assert(s =~= seq![]);
    } else {
        let c = s[0];
        let tail = s.drop_first();
        let t = escape(tail) + seq![0x22u8] + rest;
        assert(b =~= esc_byte(c) + t);
        lemma_unescape_one_esc(c, t);
        let k = esc_byte(c).len();
        assert(b.skip(k as int) =~= t);
        lemma_unescape_escape(tail, rest);
        assert(seq![c] + tail =~= s);
    }
}

/// Appends the string literal body for `s` to `out`.
pub fn escape_into(out: &mut Vec<u8>, s: &[u8])
    ensures
        final(out)@ == old(out)@ + escape(s@),
{
    let ghost start = out@;
    let mut i: usize = 0;
    while i < s.len()
        invariant
            i <= s@.len(),
            out@ == start + escape(s@.subrange(0, i as int)),
        decreases s@.len() - i,
    {
        let c = s[i];
        proof {
            lemma_escape_append(s@.subrange(0, i as int), seq![c]);
            lemma_escape_single(c);
            assert(s@.subrange(0, i + 1) =~= s@.subrange(0, i as int) + seq![c]);
        }
        if c == 0x22 || c == 0x5c {
            out.push(0x5c);
            out.push(c);
        } else if c == 0x08 {
            out.push(0x5c);
            out.push(0x62);
        } else if c == 0x09 {
            out.push(0x5c);
            out.push(0x74);
        } else if c == 0x0a {
            out.push(0x5c);
            out.push(0x6e);
        } else if c == 0x0c {
            out.push(0x5c);
            out.push(0x66);
        } else if c == 0x0d {
            out.push(0x5c);
            out.push(0x72);
        } else if c < 0x20 {
            out.push(0x5c);
            out.push(0x75);
            out.push(0x30);
            out.push(0x30);
            out.push(hex_digit_exec(c / 16));
            out.push(hex_digit_exec(c % 16));
        } else {
            out.push(c);
        }
        assert(out@ =~= start + escape(s@.subrange(0, i as int)) + esc_byte(c));
        i = i + 1;
    }
    assert(s@.subrange(0, s@.len() as int) =~= s@);
}

pub(crate) fn hex_digit_exec(n: u8) -> (r: u8)
    requires
        n < 16,
    ensures
        r == hex_digit(n),
{
    if n < 10 {
        0x30 + n
    } else {
        0x61 + n - 10
    }
}

fn hex_value_exec(d: u8) -> (r: Option<u8>)
    ensures
        r == (if is_hex_lower(d) { Some(hex_value(d)) } else { None::<u8> }),
{
    if 0x30 <= d && d <= 0x39 {
        Some(d - 0x30)
    } else if 0x61 <= d && d <= 0x66 {
        Some(d - 0x61 + 10)
    } else {
        None
    }
}

fn unescape_one_exec(b: &[u8], i: usize) -> (r: Option<(u8, usize)>)
    requires
        i <= b@.len(),
    ensures
        match r {
            Some((c, k)) => unescape_one(b@.skip(i as int)) == Some((c, k as nat)),
            None => unescape_one(b@.skip(i as int)) is None,
        },
{
    let ghost t = b@.skip(i as int);
    let len = b.len() - i;
    if len == 0 || b[i] == 0x22 {
        return None;
    }
    let c = b[i];
    assert(t[0] == c);
    if c == 0x5c {
        if len < 2 {
            return None;
        }
        let d = b[i + 1];
        assert(t[1] == d);
        if d == 0x22 {
            Some((0x22, 2))
        } else if d == 0x5c {
            Some((0x5c, 2))
        } else if d == 0x62 {
            Some((0x08, 2))
        } else if d == 0x74 {
            Some((0x09, 2))
        } else if d == 0x6e {
            Some((0x0a, 2))
        } else if d == 0x66 {
            Some((0x0c, 2))
        } else if d == 0x72 {
            Some((0x0d, 2))
        } else if d == 0x75 && len >= 6 && b[i + 2] == 0x30 && b[i + 3] == 0x30 {
            assert(t[2] == b@[i + 2] && t[3] == b@[i + 3] && t[4] == b@[i + 4] && t[5] == b@[i + 5]);
            match (hex_value_exec(b[i + 4]), hex_value_exec(b[i + 5])) {
                (Some(h), Some(l)) => {
                    if h < 2 {
                        let v = h * 16 + l;
                        if v < 0x20 && v != 0x08 && v != 0x09 && v != 0x0a && v != 0x0c && v != 0x0d {
                            Some((v, 6))
                        } else {
                            None
                        }
                    } else {
                        None
                    }
                },
                _ => None,
            }
        } else {
            if len >= 6 {
                assert(t[2] == b@[i + 2] && t[3] == b@[i + 3]);
            }
            None
        }
    } else if c < 0x20 {
        None
    } else {
        Some((c, 1))
    }
}

/// Reads the string body that starts at `start` in `b`, up to and including its
/// closing quote: the bytes it stands for, and the position just past the quote.
pub fn read_string(b: &[u8], start: usize) -> (r: Option<(Vec<u8>, usize)>)
    requires
        start <= b@.len(),
    ensures
        match r {
            Some((s, end)) => start < end <= b@.len() && unescape(b@.skip(start as int)) == Some(
                (s@, (end - start) as nat),
            ),
            None => unescape(b@.skip(start as int)) is None,
        },
{
    let mut out: Vec<u8> = Vec::new();
    let mut i: usize = start;
    while i < b.len()
        invariant
            start <= i <= b@.len(),
            unescape(b@.skip(start as int)) == after(out@, (i - start) as nat, unescape(b@.skip(i as int))),
        decreases b@.len() - i,
    {
        let ghost t = b@.skip(i as int);
        if b[i] == 0x22 {
            assert(t[0] == 0x22);
            assert(out@ + seq![] =~= out@);
            return Some((out, i + 1));
        }
        match unescape_one_exec(b, i) {
            Some((c, k)) => {
                proof {
                    assert(b@.skip(i as int).skip(k as int) =~= b@.skip(i + k));
                    assert forall|x: Seq<u8>| out@ + (seq![c] + x) =~= out@.push(c) + x by {}
                }
                out.push(c);
                i = i + k;
            },
            None => {
                return None;
            },
        }
    }
    None
}


proof fn lemma_unescape_one_canonical(b: Seq<u8>)
    requires
        unescape_one(b) is Some,
    ensures
        ({
            let (c, k) = unescape_one(b).unwrap();
            1 <= k <= b.len() && b.subrange(0, k as int) == esc_byte(c)
        }),
{
    let (c, k) = unescape_one(b).unwrap();
    if k == 6 {
        let h = hex_value(b[4]);
        let l = hex_value(b[5]);
        assert(h < 2 && l < 16);
        assert(c / 16 == h && c % 16 == l);
        assert(hex_digit(h) == b[4] && hex_digit(l) == b[5]);
    }
    assert(b.subrange(0, k as int) =~= esc_byte(c));
}

/// A string body that reads successfully is exactly the escaped form of what it
/// reads as, followed by the closing quote: only one spelling is accepted.
pub proof fn lemma_unescape_canonical(b: Seq<u8>)
    requires
        unescape(b) is Some,
    ensures
        ({
            let (s, n) = unescape(b).unwrap();
            1 <= n <= b.len() && b.subrange(0, n as int) == escape(s) + seq![0x22u8]
        }),
    decreases b.len(),
{
    let (s, n) = unescape(b).unwrap();
    if b[0] == 0x22 {
        assert(b.subrange(0, 1) =~= seq![0x22u8]);
        assert(escape(s) =~= Seq::<u8>::empty());
    } else {
        let (c, k) = unescape_one(b).unwrap();
        lemma_unescape_one_canonical(b);
        let t = b.skip(k as int);
        lemma_unescape_canonical(t);
        let (s2, n2) = unescape(t).unwrap();
        assert(s == seq![c] + s2);
        assert(s[0] == c && s.drop_first() =~= s2);
        assert(escape(s) == esc_byte(c) + escape(s2));
        assert(b.subrange(0, n as int) =~= b.subrange(0, k as int) + t.subrange(0, n2 as int));
    }
}

} // verus!
