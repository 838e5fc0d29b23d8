//! Address codec: decomposes a virtual address of a 32-bit address space
//! into a page number and an offset for a given page size, reconstructs a
//! physical address from a frame and an offset, and parses addresses from
//! hexadecimal text tokens.

use vstd::prelude::*;
use vstd::arithmetic::power2::{
    pow2, is_pow2, lemma_pow2_adds, lemma_pow2_pos, lemma_pow2_strictly_increases, lemma2_to64,
};
use vstd::arithmetic::div_mod::lemma_fundamental_div_mod_converse;
use vstd::bits::{
    low_bits_mask, lemma_usize_shr_is_div, lemma_usize_low_bits_mask_is_mod,
};
use vstd::string::StringSliceAdditionalSpecFns;

verus! {

/// A usable page size: a power of two with at least one offset bit and at
/// least one page bit of the 32-bit address space, so that both shift
/// amounts of the codec stay strictly below the machine word width.
pub open spec fn valid_page_size(page_size: usize) -> bool {
    &&& is_pow2(page_size as int)
    &&& 2 <= page_size
    &&& page_size <= 0x8000_0000
}

/// The exponent of a power of two: `log2s(pow2(k)) == k`.
pub open spec fn log2s(n: nat) -> nat
    decreases n,
{
    if n <= 1 {
        0
    } else {
        1 + log2s(n / 2)
    }
}

pub proof fn lemma_log2s_pow2(n: nat)
    requires
        is_pow2(n as int),
    ensures
        pow2(log2s(n)) == n,
    decreases n,
{
    reveal(is_pow2);
    if n <= 1 {
        lemma2_to64();
    } else {
        lemma_log2s_pow2(n / 2);
        lemma_pow2_adds(1, log2s(n / 2));
        lemma2_to64();
        assert(n == 2 * (n / 2));
    }
}

pub proof fn lemma_pow2_injective(a: nat, b: nat)
    requires
        pow2(a) == pow2(b),
    ensures
        a == b,
{
    if a < b {
        lemma_pow2_strictly_increases(a, b);
    }
    if b < a {
        lemma_pow2_strictly_increases(b, a);
    }
}

/// Number of offset bits of a page size: the exponent `k` with
/// `page_size == 2^k`, computed by repeated halving.
pub fn log2_of(page_size: usize) -> (k: usize)
    requires
        valid_page_size(page_size),
    ensures
        pow2(k as nat) == page_size as nat,
        k as nat == log2s(page_size as nat),
        1 <= k <= 31,
{
    let mut v: usize = page_size;
    let mut k: usize = 0;
    proof {
        lemma2_to64();
    }
    while v > 1
        invariant
            valid_page_size(page_size),
            is_pow2(v as int),
            v >= 1,
            page_size as nat == v as nat * pow2(k as nat),
            k <= 31,
        decreases v,
    {
        proof {
            reveal(is_pow2);
            lemma_pow2_adds(k as nat, 1);
            lemma2_to64();
            assert(v as int == 2 * (v as int / 2));
            assert((v as nat / 2) * pow2(k as nat + 1) == v as nat * pow2(k as nat))
                by (nonlinear_arith)
                requires
                    v as nat == 2 * (v as nat / 2),
                    pow2(k as nat + 1) == 2 * pow2(k as nat),
            ;
            lemma_pow2_pos(k as nat);
            assert(v as nat * pow2(k as nat) >= 2 * pow2(k as nat)) by (nonlinear_arith)
                requires
                    v >= 2,
                    pow2(k as nat) >= 1,
            ;
            if k == 31 {
                assert(pow2(32) == 0x1_0000_0000);
                lemma_pow2_adds(31, 1);
            }
        }
        v = v / 2;
        k = k + 1;
    }
    proof {
        assert(pow2(k as nat) == page_size as nat);
        lemma_log2s_pow2(page_size as nat);
        lemma_pow2_injective(k as nat, log2s(page_size as nat));
        lemma2_to64();
        assert(pow2(0) == 1 && pow2(31) == 0x8000_0000);
        if k == 0 {
            assert(page_size == 1);
        }
        if k > 31 {
            lemma_pow2_strictly_increases(31, k as nat);
        }
    }
    k
}

/// A virtual address, parsed from a hexadecimal trace token. The low 32
/// bits are meaningful; the codec works on the `usize` image of the value.
#[derive(Clone, Copy, Debug, PartialEq, Eq, Structural)]
pub struct LogicalAddress {
    pub value: u64,
}

/// The physical address that `join` builds: the frame number shifted into
/// the high bits above the 32-bit page field, combined with the offset.
pub open spec fn spec_join(frame: usize, offset: usize, page_size: usize) -> usize {
    (frame << ((32 - log2s(page_size as nat)) as usize)) | offset
}

impl LogicalAddress {
    /// The address as a machine word (truncated on a 32-bit machine).
    pub open spec fn usize_value(self) -> usize {
        self.value as usize
    }

    /// The page number: the address divided by the page size.
    pub open spec fn spec_page(self, page_size: usize) -> nat {
        self.usize_value() as nat / page_size as nat
    }

    /// The offset inside the page: the address modulo the page size.
    pub open spec fn spec_offset(self, page_size: usize) -> nat {
        self.usize_value() as nat % page_size as nat
    }

    pub fn value(&self) -> (r: usize)
        ensures
            r == self.usize_value(),
    {
        self.value as usize
    }

    pub fn page(&self, page_size: usize) -> (r: usize)
        requires
            valid_page_size(page_size),
        ensures
            r as nat == self.spec_page(page_size),
    {
        let k = log2_of(page_size);
        let v = self.value();
        proof {
            lemma_usize_shr_is_div(v, k as usize);
        }
        v >> k
    }

    pub fn offset(&self, page_size: usize) -> (r: usize)
        requires
            valid_page_size(page_size),
        ensures
            r as nat == self.spec_offset(page_size),
            r < page_size,
    {
        let k = log2_of(page_size);
        let v = self.value();
        proof {
            lemma_usize_low_bits_mask_is_mod(v, k as nat);
            assert(low_bits_mask(k as nat) == page_size - 1);
        }
        v & (page_size - 1)
    }

    /// Decomposes the address into `(page, offset)` for the page size.
    pub fn split(&self, page_size: usize) -> (r: (usize, usize))
        requires
            valid_page_size(page_size),
        ensures
            r.0 as nat == self.spec_page(page_size),
            r.1 as nat == self.spec_offset(page_size),
            r.1 < page_size,
    {
        (self.page(page_size), self.offset(page_size))
    }

    /// Reconstructs a physical address: the frame shifted into the bits
    /// above the 32-bit page field, combined with the offset.
    pub fn join(&self, frame: usize, offset: usize, page_size: usize) -> (r: usize)
        requires
            valid_page_size(page_size),
        ensures
            r == spec_join(frame, offset, page_size),
    {
        let k = log2_of(page_size);
        (frame << (32 - k)) | offset
    }
}

/// Codec round trip: splitting a joined address recovers the frame (as the
/// page number) and the offset. Because `join` places the frame above the
/// whole 32-bit page field while `split` divides by the page size, the two
/// agree exactly when the frame field and the page field coincide — a page
/// size with sixteen offset bits — or when the frame is zero; the frame
/// bound keeps the shift from discarding bits on a 32-bit machine.
pub proof fn lemma_codec_round_trip(frame: usize, offset: usize, page_size: usize)
    requires
        valid_page_size(page_size),
        offset < page_size,
        frame == 0 || (page_size == 0x10000 && frame < 0x10000),
    ensures
        ({
            let a = LogicalAddress { value: spec_join(frame, offset, page_size) as u64 };
            a.spec_page(page_size) == frame && a.spec_offset(page_size) == offset
        }),
{
    lemma_log2s_pow2(page_size as nat);
    let k = log2s(page_size as nat);
    lemma2_to64();
    if k == 0 {
        assert(page_size == 1);
    }
    if k > 31 {
        lemma_pow2_strictly_increases(31, k);
    }
    let sh = (32 - k) as usize;
    let j = spec_join(frame, offset, page_size);
    if frame == 0 {
        assert((0usize << sh) | offset == offset) by (bit_vector);
        assert(j == offset);
        lemma_fundamental_div_mod_converse(j as int, page_size as int, 0, offset as int);
    } else {
        lemma_pow2_injective(k, 16);
        assert(sh == 16usize);
        assert(((frame << 16usize) | offset) == frame * 0x10000 + offset) by (bit_vector)
            requires
                frame < 0x10000,
                offset < 0x10000,
        ;
        lemma_fundamental_div_mod_converse(
            j as int,
            page_size as int,
            frame as int,
            offset as int,
        );
    }
}

/// ASCII whitespace as trimmed from a trace token.
pub open spec fn is_ascii_ws(b: u8) -> bool {
    b == 0x20 || b == 0x09 || b == 0x0a || b == 0x0d
}

/// A hexadecimal digit, upper or lower case.
pub open spec fn is_hex_digit(b: u8) -> bool {
    (0x30 <= b <= 0x39) || (0x41 <= b <= 0x46) || (0x61 <= b <= 0x66)
}

/// The numeric value of a hexadecimal digit.
pub open spec fn hex_digit_value(b: u8) -> nat {
    if 0x30 <= b <= 0x39 {
        (b - 0x30) as nat
    } else if 0x41 <= b <= 0x46 {
        (b - 0x41 + 10) as nat
    } else {
        (b - 0x61 + 10) as nat
    }
}

pub open spec fn all_hex_digits(s: Seq<u8>) -> bool {
    forall|i: int| 0 <= i < s.len() ==> is_hex_digit(#[trigger] s[i])
}

/// The value of a sequence of hexadecimal digits, most significant first.
pub open spec fn hex_value(s: Seq<u8>) -> nat
    decreases s.len(),
{
    if s.len() == 0 {
        0
    } else {
        hex_value(s.drop_last()) * 16 + hex_digit_value(s.last())
    }
}

/// The token with leading ASCII whitespace removed.
pub open spec fn trim_front(s: Seq<u8>) -> Seq<u8>
    decreases s.len(),
{
    if s.len() > 0 && is_ascii_ws(s[0]) {
        trim_front(s.subrange(1, s.len() as int))
    } else {
        s
    }
}

/// The token with trailing ASCII whitespace removed.
pub open spec fn trim_back(s: Seq<u8>) -> Seq<u8>
    decreases s.len(),
{
    if s.len() > 0 && is_ascii_ws(s.last()) {
        trim_back(s.drop_last())
    } else {
        s
    }
}

pub open spec fn trimmed(s: Seq<u8>) -> Seq<u8> {
    trim_back(trim_front(s))
}

/// What a trace token parses to: after trimming ASCII whitespace, the
/// token must be one or more hexadecimal digits whose value fits in 64
/// bits; anything else is malformed and yields `None`.
pub open spec fn parsed_address(s: Seq<u8>) -> Option<u64> {
    let t = trimmed(s);
    if t.len() > 0 && all_hex_digits(t) && hex_value(t) <= u64::MAX {
        Some(hex_value(t) as u64)
    } else {
        None
    }
}

proof fn lemma_hex_value_step(s: Seq<u8>, j: int)
    requires
        0 <= j < s.len(),
    ensures
        hex_value(s.subrange(0, j + 1)) == hex_value(s.subrange(0, j)) * 16 + hex_digit_value(
            s[j],
        ),
{
    assert(s.subrange(0, j + 1).drop_last() =~= s.subrange(0, j));
    assert(s.subrange(0, j + 1).last() == s[j]);
}

proof fn lemma_hex_value_prefix_le(s: Seq<u8>, i: int, j: int)
    requires
        0 <= i <= j <= s.len(),
    ensures
        hex_value(s.subrange(0, i)) <= hex_value(s.subrange(0, j)),
    decreases j - i,
{
    if i < j {
        lemma_hex_value_prefix_le(s, i, j - 1);
        lemma_hex_value_step(s, j - 1);
    }
}

fn is_ws_byte(b: u8) -> (r: bool)
    ensures
        r == is_ascii_ws(b),
{
    b == 0x20 || b == 0x09 || b == 0x0a || b == 0x0d
}

fn hex_digit(b: u8) -> (r: Option<u8>)
    ensures
        match r {
            Some(d) => is_hex_digit(b) && d < 16 && d as nat == hex_digit_value(b),
            None => !is_hex_digit(b),
        },
{
    if 0x30 <= b && b <= 0x39 {
        Some(b - 0x30)
    } else if 0x41 <= b && b <= 0x46 {
        Some(b - 0x41 + 10)
    } else if 0x61 <= b && b <= 0x66 {
        Some(b - 0x61 + 10)
    } else {
        None
    }
}

impl LogicalAddress {
    /// Parses a trace token: ASCII whitespace around a hexadecimal number
    /// without radix prefix. Returns `None` exactly when the trimmed token
    /// is empty, holds a non-digit, or does not fit in 64 bits; the caller
    /// decides that such a token is fatal for the run.
    pub fn from_str(s: &str) -> (r: Option<LogicalAddress>)
        ensures
            ({
                let p = parsed_address(s.spec_bytes());
                match r {
                    Some(a) => p == Some(a.value),
                    None => p is None,
                }
            }),
    {
        let bytes: &[u8] = s.as_bytes();
        let n: usize = bytes.len();
        let ghost s0 = s.spec_bytes();

        proof {
            assert(s0.subrange(0, n as int) =~= s0);
        }
        let mut lo: usize = 0;
        while lo < n && is_ws_byte(bytes[lo])
            invariant
                lo <= n,
                n == bytes@.len(),
                bytes@ == s0,
                trim_front(s0) == trim_front(s0.subrange(lo as int, n as int)),
            decreases n - lo,
        {
            proof {
                assert(s0.subrange(lo as int, n as int).subrange(
                    1,
                    s0.subrange(lo as int, n as int).len() as int,
                ) =~= s0.subrange(lo as int + 1, n as int));
            }
            lo = lo + 1;
        }
        proof {
            assert(trim_front(s0) =~= s0.subrange(lo as int, n as int));
        }
        let ghost u = s0.subrange(lo as int, n as int);

        proof {
            assert(u.subrange(0, n as int - lo as int) =~= u);
        }
        let mut hi: usize = n;
        while hi > lo && is_ws_byte(bytes[hi - 1])
            invariant
                lo <= hi <= n,
                n == bytes@.len(),
                bytes@ == s0,
                u == s0.subrange(lo as int, n as int),
                trim_back(u) == trim_back(u.subrange(0, hi - lo)),
            decreases hi,
        {
            proof {
                assert(u.subrange(0, hi - lo).drop_last() =~= u.subrange(0, hi - 1 - lo));
                assert(u.subrange(0, hi - lo).last() == s0[hi - 1]);
            }
            hi = hi - 1;
        }
        proof {
            assert(trim_back(u.subrange(0, hi - lo)) =~= u.subrange(0, hi - lo));
            assert(trimmed(s0) =~= s0.subrange(lo as int, hi as int));
        }
        let ghost t = trimmed(s0);

        if lo == hi {
            return None;
        }

        let mut acc: u64 = 0;
        let mut i: usize = lo;
        while i < hi
            invariant
                lo <= i <= hi <= n,
                lo < hi,
                n == bytes@.len(),
                bytes@ == s0,
                s0 == s.spec_bytes(),
                t == trimmed(s0),
                t =~= s0.subrange(lo as int, hi as int),
                all_hex_digits(t.subrange(0, i - lo)),
                acc as nat == hex_value(t.subrange(0, i - lo)),
            decreases hi - i,
        {
            let ghost j = i - lo;
            match hex_digit(bytes[i]) {
                None => {
                    proof {
                        assert(!is_hex_digit(t[j]));
                    }
                    return None;
                },
                Some(d) => {
                    proof {
                        lemma_hex_value_step(t, j);
                        assert(t.subrange(0, j + 1).drop_last() =~= t.subrange(0, j));
                    }
                    if acc > 0x0FFF_FFFF_FFFF_FFFF {
                        proof {
                            lemma_hex_value_prefix_le(t, j + 1, t.len() as int);
                            assert(t.subrange(0, t.len() as int) =~= t);
                        }
                        return None;
                    }
                    acc = acc * 16 + (d as u64);
                    proof {
                        assert(forall|q: int| 0 <= q < j + 1 ==> is_hex_digit(
                            #[trigger] t.subrange(0, j + 1)[q],
                        ));
                    }
                },
            }
            i = i + 1;
        }
        proof {
            assert(t.subrange(0, t.len() as int) =~= t);
        }
        Some(LogicalAddress { value: acc })
    }
}

} // verus!
