//! Field elements, held as their canonical 32-byte big-endian form.

use crate::text::{hex_digit_char, hex_text, lemma_hex_digits_step, push_char};
use vstd::prelude::*;

verus! {

/// The number that a byte string denotes when it is read big-endian.
pub open spec fn be_value(bytes: Seq<u8>) -> nat
    decreases bytes.len(),
{
    if bytes.len() == 0 {
        0
    } else {
        be_value(bytes.drop_last()) * 256 + bytes.last() as nat
    }
}

/// The byte string without its leading zero bytes.
pub open spec fn stripped(bytes: Seq<u8>) -> Seq<u8>
    decreases bytes.len(),
{
    if bytes.len() == 0 || bytes[0] != 0 {
        bytes
    } else {
        stripped(bytes.drop_first())
    }
}

/// The power of 256 with exponent `n`: the number of byte strings of length `n`.
pub open spec fn pow256(n: nat) -> nat
    decreases n,
{
    if n == 0 {
        1
    } else {
        256 * pow256((n - 1) as nat)
    }
}

/// A byte string with one more byte at its end denotes the old number times 256 plus that byte.
pub proof fn lemma_value_push(bytes: Seq<u8>, b: u8)
    ensures
        be_value(bytes.push(b)) == be_value(bytes) * 256 + b as nat,
{
    assert(bytes.push(b).drop_last() =~= bytes);
}

/// A byte string of length `n` denotes a number below `256^n`.
pub proof fn lemma_value_below_pow(bytes: Seq<u8>)
    ensures
        be_value(bytes) < pow256(bytes.len()),
    decreases bytes.len(),
{
    if bytes.len() > 0 {
        lemma_value_below_pow(bytes.drop_last());
    }
}

/// A byte string that starts with a non-zero byte denotes a number of at least `256^(n-1)`.
pub proof fn lemma_value_at_least_pow(bytes: Seq<u8>)
    requires
        bytes.len() > 0,
        bytes[0] != 0,
    ensures
        be_value(bytes) >= pow256((bytes.len() - 1) as nat),
    decreases bytes.len(),
{
    if bytes.len() > 1 {
        lemma_value_at_least_pow(bytes.drop_last());
    } else {
        assert(be_value(bytes.drop_last()) == 0);
    }
}

/// Powers of 256 grow with the exponent.
pub proof fn lemma_pow256_monotonic(a: nat, b: nat)
    requires
        a <= b,
    ensures
        pow256(a) <= pow256(b),
        pow256(a) >= 1,
    decreases b,
{
    if a < b {
        lemma_pow256_monotonic(a, (b - 1) as nat);
    } else if a > 0 {
        lemma_pow256_monotonic((a - 1) as nat, (a - 1) as nat);
    }
}

/// Leading zero bytes do not change the number that a byte string denotes.
pub proof fn lemma_value_skips_zeros(bytes: Seq<u8>, i: int)
    requires
        0 <= i <= bytes.len(),
        forall|j: int| 0 <= j < i ==> bytes[j] == 0,
    ensures
        be_value(bytes) == be_value(bytes.subrange(i, bytes.len() as int)),
    decreases bytes.len(),
{
    let n = bytes.len() as int;
    if n == 0 {
        assert(bytes.subrange(i, n) =~= bytes);
    } else if i == n {
        lemma_value_skips_zeros(bytes.drop_last(), i - 1);
        assert(bytes.drop_last().subrange(i - 1, n - 1) =~= Seq::<u8>::empty());
        assert(bytes.subrange(i, n) =~= Seq::<u8>::empty());
    } else {
        lemma_value_skips_zeros(bytes.drop_last(), i);
        assert(bytes.subrange(i, n).drop_last() =~= bytes.drop_last().subrange(i, n - 1));
    }
}

/// The stripped form is the suffix that begins at the first non-zero byte.
pub proof fn lemma_stripped_is_suffix(bytes: Seq<u8>)
    ensures
        stripped(bytes).len() <= bytes.len(),
        stripped(bytes) == bytes.subrange(
            bytes.len() - stripped(bytes).len(),
            bytes.len() as int,
        ),
        forall|j: int| 0 <= j < bytes.len() - stripped(bytes).len() ==> bytes[j] == 0,
        stripped(bytes).len() > 0 ==> stripped(bytes)[0] != 0,
    decreases bytes.len(),
{
    let n = bytes.len() as int;
    if n == 0 || bytes[0] != 0 {
        assert(bytes.subrange(0, n) =~= bytes);
    } else {
        let rest = bytes.drop_first();
        lemma_stripped_is_suffix(rest);
        let k = stripped(rest).len() as int;
        assert(rest.subrange(n - 1 - k, n - 1) =~= bytes.subrange(n - k, n));
        assert forall|j: int| 0 <= j < n - k implies bytes[j] == 0 by {
            if j > 0 {
                assert(bytes[j] == rest[j - 1]);
            }
        }
    }
}

/// The stripped form has at most `k` bytes exactly when the number is below `256^k`.
pub proof fn lemma_stripped_len_by_value(bytes: Seq<u8>, k: nat)
    ensures
        stripped(bytes).len() <= k <==> be_value(bytes) < pow256(k),
{
    lemma_stripped_is_suffix(bytes);
    let s = stripped(bytes);
    lemma_value_skips_zeros(bytes, bytes.len() - s.len());
    lemma_value_below_pow(s);
    if s.len() <= k {
        lemma_pow256_monotonic(s.len(), k);
    } else {
        lemma_value_at_least_pow(s);
        lemma_pow256_monotonic(k, (s.len() - 1) as nat);
    }
}

/// An unsigned value of at most 256 bits in big-endian byte order.
#[derive(Clone, Copy, Debug, PartialEq, Eq)]
pub struct FieldElement {
    pub bytes: [u8; 32],
}

impl View for FieldElement {
    type V = Seq<u8>;

    open spec fn view(&self) -> Seq<u8> {
        self.bytes@
    }
}

impl FieldElement {
    /// The number that the element stands for.
    pub open spec fn value(&self) -> nat {
        be_value(self@)
    }

    pub fn from_bytes_be(bytes: [u8; 32]) -> (felt: FieldElement)
        ensures
            felt@ == bytes@,
    {
        FieldElement { bytes }
    }

    pub fn to_bytes_be(&self) -> (bytes: [u8; 32])
        ensures
            bytes@ == self@,
    {
        self.bytes
    }

    /// Whether both elements have the same bytes.
    pub fn same_as(&self, other: &FieldElement) -> (same: bool)
        ensures
            same == (self@ == other@),
    {
        let mut i: usize = 0;
        while i < 32
            invariant
                i <= 32,
                forall|j: int| 0 <= j < i ==> self@[j] == other@[j],
            decreases 32 - i,
        {
            if self.bytes[i] != other.bytes[i] {
                return false;
            }
            i += 1;
        }
        assert(self@ =~= other@);
        true
    }
    /// The number of bytes that are left when the leading zero bytes are dropped.
    pub fn stripped_len(&self) -> (len: usize)
        ensures
            len == stripped(self@).len(),
            len <= 32,
    {
        let mut i: usize = 0;
        while i < 32 && self.bytes[i] == 0
            invariant
                i <= 32,
                forall|j: int| 0 <= j < i ==> self@[j] == 0,
            decreases 32 - i,
        {
            i += 1;
        }
        proof {
            lemma_stripped_is_suffix(self@);
        }
        32 - i
    }

    /// The element as a native unsigned size, where it fits one.
    pub fn to_usize(&self) -> (n: Option<usize>)
        ensures
            match n {
                Some(n) => n as nat == self.value(),
                None => self.value() > usize::MAX,
            },
    {
        let len = self.stripped_len();
        proof {
            lemma_stripped_is_suffix(self@);
            lemma_value_skips_zeros(self@, 32 - len);
            reveal_with_fuel(pow256, 9);
        }
        if len > 8 {
            proof {
                lemma_value_at_least_pow(stripped(self@));
                lemma_pow256_monotonic(8, (len - 1) as nat);
            }
            return None;
        }
        let start: usize = 32 - len;
        let mut acc: u64 = 0;
        let mut i: usize = start;
        assert(self@.subrange(start as int, i as int) =~= Seq::<u8>::empty());
        while i < 32
            invariant
                start <= i <= 32,
                start >= 24,
                acc as nat == be_value(self@.subrange(start as int, i as int)),
                acc < pow256((i - start) as nat),
            decreases 32 - i,
        {
            proof {
                reveal_with_fuel(pow256, 9);
                lemma_pow256_monotonic((i - start + 1) as nat, 8);
                lemma_value_push(self@.subrange(start as int, i as int), self@[i as int]);
                assert(self@.subrange(start as int, i as int).push(self@[i as int])
                    =~= self@.subrange(start as int, i + 1));
            }
            acc = acc * 256 + self.bytes[i] as u64;
            i += 1;
        }
        if acc > usize::MAX as u64 {
            None
        } else {
            Some(acc as usize)
        }
    }

    /// The element in lowercase hexadecimal with the prefix `0x`.
    pub fn to_hex(&self) -> (text: String)
        ensures
            text@ == hex_text(self.value()),
    {
        let mut text = String::new();
        push_char(&mut text, '0');
        push_char(&mut text, 'x');
        let mut started = false;
        let mut i: usize = 0;
        assert(self@.subrange(0, 0) =~= Seq::<u8>::empty());
        while i < 32
            invariant
                i <= 32,
                started <==> be_value(self@.subrange(0, i as int)) > 0,
                text@ == if started {
                    hex_text(be_value(self@.subrange(0, i as int)))
                } else {
                    seq!['0', 'x']
                },
            decreases 32 - i,
        {
            let b = self.bytes[i];
            let hi = b / 16;
            let lo = b % 16;
            proof {
                let v = be_value(self@.subrange(0, i as int));
                lemma_value_push(self@.subrange(0, i as int), b);
                assert(self@.subrange(0, i as int).push(b) =~= self@.subrange(0, i + 1));
                lemma_hex_digits_step(v, hi as nat);
                lemma_hex_digits_step(v * 16 + hi as nat, lo as nat);
                assert((v * 16 + hi as nat) * 16 + lo as nat == v * 256 + b as nat);
            }
            if started || hi != 0 {
                push_char(&mut text, hex_digit_char(hi));
                started = true;
            }
            if started || lo != 0 {
                push_char(&mut text, hex_digit_char(lo));
                started = true;
            }
            i += 1;
            assert(text@ =~= if started {
                hex_text(be_value(self@.subrange(0, i as int)))
            } else {
                seq!['0', 'x']
            });
        }
        assert(self@.subrange(0, 32) =~= self@);
        if !started {
            push_char(&mut text, '0');
        }
        assert(text@ =~= hex_text(self.value()));
        text
    }
}

} // verus!
