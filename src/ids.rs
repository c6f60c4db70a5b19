//! Agent identifiers: 16-byte UUIDs, written on the wire in the hyphenated
//! lowercase form `xxxxxxxx-xxxx-xxxx-xxxx-xxxxxxxxxxxx`.
use vstd::prelude::*;
use crate::json::{hex_digit, hex_digit_exec, hex_value, is_hex_lower};

verus! {

/// Whether position `k` of the text form holds a hyphen.
pub open spec fn is_hyphen_pos(k: int) -> bool {
    k == 8 || k == 13 || k == 18 || k == 23
}

/// Which of the 32 hex digits stands at position `k` of the text form.
pub open spec fn digit_index(k: int) -> int {
    if k < 8 {
        k
    } else if k < 13 {
        k - 1
    } else if k < 18 {
        k - 2
    } else if k < 23 {
        k - 3
    } else {
        k - 4
    }
}

/// The position of hex digit `j` in the text form.
pub open spec fn digit_pos(j: int) -> int {
    if j < 8 {
        j
    } else if j < 12 {
        j + 1
    } else if j < 16 {
        j + 2
    } else if j < 20 {
        j + 3
    } else {
        j + 4
    }
}

/// Hex digit `j` of the 16 bytes `id`, high nibble first.
pub open spec fn nibble(id: Seq<u8>, j: int) -> u8 {
    if j % 2 == 0 {
        id[j / 2] / 16
    } else {
        id[j / 2] % 16
    }
}

/// The 36 ASCII bytes of the hyphenated lowercase text form of `id`.
pub open spec fn uuid_ascii(id: Seq<u8>) -> Seq<u8> {
    Seq::new(
        36,
        |k: int|
            if is_hyphen_pos(k) {
                0x2du8
            } else {
                hex_digit(nibble(id, digit_index(k)))
            },
    )
}

/// The 16 bytes that a hyphenated text form spells out.
pub open spec fn uuid_bytes_of(t: Seq<u8>) -> Seq<u8> {
    Seq::new(
        16,
        |i: int| (hex_value(t[digit_pos(2 * i)]) * 16 + hex_value(t[digit_pos(2 * i + 1)])) as u8,
    )
}

/// Whether `t` is exactly the hyphenated lowercase text form of some identifier.
pub open spec fn is_uuid_ascii(t: Seq<u8>) -> bool {
    t.len() == 36 && uuid_ascii(uuid_bytes_of(t)) == t
}

proof fn lemma_hex_round_trip(n: u8)
    requires
        n < 16,
    ensures
        hex_value(hex_digit(n)) == n,
        is_hex_lower(hex_digit(n)),
{
}

/// The text form spells out the identifier it was made from.
pub proof fn lemma_uuid_bytes_of_ascii(id: Seq<u8>)
    requires
        id.len() == 16,
    ensures
        uuid_bytes_of(uuid_ascii(id)) == id,
        is_uuid_ascii(uuid_ascii(id)),
{
    let t = uuid_ascii(id);
    assert forall|i: int| 0 <= i < 16 implies #[trigger] uuid_bytes_of(t)[i] == id[i] by {
        let x = id[i];
        let p0 = digit_pos(2 * i);
        let p1 = digit_pos(2 * i + 1);
        assert(!is_hyphen_pos(p0) && digit_index(p0) == 2 * i);
        assert(!is_hyphen_pos(p1) && digit_index(p1) == 2 * i + 1);
        assert(t[p0] == hex_digit(x / 16));
        assert(t[p1] == hex_digit(x % 16));
        lemma_hex_round_trip(x / 16);
        lemma_hex_round_trip(x % 16);
    }
    assert(uuid_bytes_of(t) =~= id);
}

/// The hyphenated lowercase text form of an identifier, as ASCII bytes.
pub fn agent_id_ascii(id: &[u8; 16]) -> (r: Vec<u8>)
    ensures
        r@ == uuid_ascii(id@),
{
    let mut out: Vec<u8> = Vec::new();
    let mut k: usize = 0;
    while k < 36
        invariant
            k <= 36,
            id@.len() == 16,
            out@ == uuid_ascii(id@).subrange(0, k as int),
        decreases 36 - k,
    {
        let c: u8 = if k == 8 || k == 13 || k == 18 || k == 23 {
            0x2d
        } else {
            let j: usize = if k < 8 {
                k
            } else if k < 13 {
                k - 1
            } else if k < 18 {
                k - 2
            } else if k < 23 {
                k - 3
            } else {
                k - 4
            };
            let b = id[j / 2];
            if j % 2 == 0 {
                hex_digit_exec(b / 16)
            } else {
                hex_digit_exec(b % 16)
            }
        };
        assert(c == uuid_ascii(id@)[k as int]);
        out.push(c);
        k = k + 1;
        assert(out@ =~= uuid_ascii(id@).subrange(0, k as int));
    }
    out
}

/// Relies on uuid's `Uuid::try_parse_ascii`: a hyphenated text form parses to the
/// bytes it spells out.
#[verifier::external_body]
fn parse_uuid_ascii(t: &[u8]) -> (r: Option<[u8; 16]>)
    ensures
        is_uuid_ascii(t@) ==> r.is_some() && r.unwrap()@ == uuid_bytes_of(t@),
{
    match uuid::Uuid::try_parse_ascii(t) {
        Ok(u) => Some(*u.as_bytes()),
        Err(_) => None,
    }
}

/// Whether two byte strings are equal.
pub fn bytes_equal(a: &[u8], b: &[u8]) -> (r: bool)
    ensures
        r == (a@ == b@),
{
    if a.len() != b.len() {
        return false;
    }
    let mut i: usize = 0;
    while i < a.len()
        invariant
            a@.len() == b@.len(),
            i <= a@.len(),
            forall|j: int| 0 <= j < i ==> a@[j] == b@[j],
        decreases a@.len() - i,
    {
        if a[i] != b[i] {
            return false;
        }
        i = i + 1;
    }
    assert(a@ =~= b@);
    true
}

/// Reads an identifier from its hyphenated lowercase text form; any other text
/// is refused.
pub fn agent_id_from_ascii(t: &[u8]) -> (r: Option<[u8; 16]>)
    ensures
        match r {
            Some(a) => is_uuid_ascii(t@) && a@ == uuid_bytes_of(t@),
            None => !is_uuid_ascii(t@),
        },
{
    match parse_uuid_ascii(t) {
        Some(a) => {
            let back = agent_id_ascii(&a);
            proof {
                lemma_uuid_bytes_of_ascii(a@);
            }
            if bytes_equal(&back, t) {
                Some(a)
            } else {
                None
            }
        },
        None => None,
    }
}

} // verus!
