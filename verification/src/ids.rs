use vstd::prelude::*;

verus! {

/// Calendar dates are plain day numbers; only their order matters to the
/// engine, and the surrounding program chooses the epoch.
pub type Date = i64;

/// The value a printable byte string is interned to: bytes folded base 256,
/// so equal codes mean equal strings.
pub open spec fn packed_code(s: Seq<u8>) -> int
    decreases s.len(),
{
    if s.len() == 0 {
        0
    } else {
        packed_code(s.drop_last()) * 256 + s.last()
    }
}

pub open spec fn pow256(n: nat) -> int
    decreases n,
{
    if n == 0 {
        1
    } else {
        256 * pow256((n - 1) as nat)
    }
}

/// A code is at most 16 printable, non-blank ASCII bytes.
pub open spec fn valid_code(s: Seq<u8>) -> bool {
    &&& 1 <= s.len() <= 16
    &&& forall|i: int| 0 <= i < s.len() ==> 0x21 <= #[trigger] s[i] <= 0x7e
}

proof fn lemma_packed_code_bound(s: Seq<u8>)
    ensures
        0 <= packed_code(s) < pow256(s.len()),
    decreases s.len(),
{
    if s.len() > 0 {
        lemma_packed_code_bound(s.drop_last());
    }
}

proof fn lemma_pow256_mono(n: nat, m: nat)
    requires
        n <= m,
    ensures
        pow256(n) <= pow256(m),
    decreases m,
{
    if n < m {
        lemma_pow256_mono(n, (m - 1) as nat);
        assert(pow256((m - 1) as nat) >= 1) by {
            lemma_pow256_pos((m - 1) as nat);
        }
    }
}

proof fn lemma_pow256_pos(n: nat)
    ensures
        pow256(n) >= 1,
    decreases n,
{
    if n > 0 {
        lemma_pow256_pos((n - 1) as nat);
    }
}

/// Interns a printable byte code as its packed value, or nothing where the
/// code is empty, too long, or holds a blank or unprintable byte.
fn pack_bytes(code: &[u8]) -> (r: Option<u128>)
    ensures
        r == (if valid_code(code@) {
            Some(packed_code(code@) as u128)
        } else {
            None::<u128>
        }),
{
    if code.len() < 1 || code.len() > 16 {
        return None;
    }
    let ghost s = code@;
    let mut acc: u128 = 0;
    let mut i: usize = 0;
    proof {
        assert(s.take(0) =~= Seq::<u8>::empty());
    }
    while i < code.len()
        invariant
            0 <= i <= s.len(),
            1 <= s.len() <= 16,
            code@ == s,
            acc == packed_code(s.take(i as int)),
            forall|j: int| 0 <= j < i ==> 0x21 <= #[trigger] s[j] <= 0x7e,
        decreases s.len() - i,
    {
        let b: u8 = code[i];
        if b < 0x21 || b > 0x7e {
            return None;
        }
        proof {
            lemma_packed_code_bound(s.take(i as int));
            lemma_pow256_mono(i as nat, 15nat);
            reveal_with_fuel(pow256, 16);
            assert(s.take(i + 1).drop_last() =~= s.take(i as int));
            assert(s.take(i + 1).last() == s[i as int]);
        }
        acc = acc * 256 + (b as u128);
        i = i + 1;
    }
    proof {
        assert(s.take(s.len() as int) =~= s);
    }
    Some(acc)
}

/// A currency code, canonicalized and interned once so comparisons are plain
/// value equality.
#[derive(Clone, Copy, Debug, PartialEq, Eq, Structural)]
pub struct Currency {
    pub code: u128,
}

impl Currency {
    pub fn from_code(code: &[u8]) -> (r: Option<Currency>)
        ensures
            r == (if valid_code(code@) {
                Some((Currency { code: packed_code(code@) as u128 }))
            } else {
                None::<Currency>
            }),
    {
        match pack_bytes(code) {
            Some(c) => Some(Currency { code: c }),
            None => None,
        }
    }
}

/// An instrument symbol, interned the same way as a currency code.
#[derive(Clone, Copy, Debug, PartialEq, Eq, Structural)]
pub struct Symbol {
    pub code: u128,
}

impl Symbol {
    pub fn from_code(code: &[u8]) -> (r: Option<Symbol>)
        ensures
            r == (if valid_code(code@) {
                Some((Symbol { code: packed_code(code@) as u128 }))
            } else {
                None::<Symbol>
            }),
    {
        match pack_bytes(code) {
            Some(c) => Some(Symbol { code: c }),
            None => None,
        }
    }
}

} // verus!
