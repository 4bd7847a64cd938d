//! The fingerprint of an image file and the display form of a file size.

use crate::number::{decimal, digits, push_decimal, push_number, zero_padded};
use crate::text::{push_str, string_of};
use vstd::prelude::*;

verus! {

/// How many bytes from the start of a file go into its fingerprint.
pub const SAMPLE_SIZE: usize = 1048576;

// ---------------------------------------------------------------------------
// The fingerprint
// ---------------------------------------------------------------------------

/// The SHA-256 digest of a message.
pub uninterp spec fn sha256_of(message: Seq<u8>) -> Seq<u8>;

/// The SHA-256 digest of `message`, from `sha2::Sha256::digest`. The
/// digest depends on the message alone; its value is named, not defined
/// here.
#[verifier::external_body]
pub(crate) fn sha256(message: &[u8]) -> (r: Vec<u8>)
    ensures
        r@ == sha256_of(message@),
{
    <sha2::Sha256 as sha2::Digest>::digest(message).to_vec()
}

/// The `n` low bytes of `v`, least significant first.
pub open spec fn le_bytes(v: nat, n: nat) -> Seq<u8>
    decreases n,
{
    if n == 0 {
        Seq::empty()
    } else {
        seq![(v % 256) as u8] + le_bytes(v / 256, (n - 1) as nat)
    }
}

/// The bytes `bytes` in lower-case hexadecimal, two digits each.
pub open spec fn hex_text(bytes: Seq<u8>) -> Seq<char>
    decreases bytes.len(),
{
    if bytes.len() == 0 {
        Seq::empty()
    } else {
        hex_text(bytes.drop_last()) + zero_padded(digits(bytes.last() as nat, 16, false), 2)
    }
}

/// What is hashed for a file that begins with `head`, has `file_size`
/// bytes and was last changed at `modified_time`: the first `SAMPLE_SIZE`
/// bytes of `head`, then the size and the time, eight bytes each, least
/// significant first.
pub open spec fn fingerprint_message(head: Seq<u8>, file_size: u64, modified_time: u64) -> Seq<u8> {
    let sample = if head.len() > SAMPLE_SIZE {
        head.take(SAMPLE_SIZE as int)
    } else {
        head
    };
    sample + le_bytes(file_size as nat, 8) + le_bytes(modified_time as nat, 8)
}

fn push_le_bytes(out: &mut Vec<u8>, v: u64)
    ensures
        final(out)@ == old(out)@ + le_bytes(v as nat, 8),
{
    let mut rest: u64 = v;
    let mut k: usize = 0;
    let ghost start = out@;
    proof {
        assert(out@ + le_bytes(rest as nat, 8) =~= start + le_bytes(v as nat, 8));
    }
    while k < 8
        invariant
            k <= 8,
            out@ + le_bytes(rest as nat, (8 - k) as nat) == start + le_bytes(v as nat, 8),
        decreases 8 - k,
    {
        let ghost before = out@;
        let b: u8 = (rest % 256) as u8;
        out.push(b);
        proof {
            let tail = le_bytes((rest / 256) as nat, (8 - k - 1) as nat);
            assert(le_bytes(rest as nat, (8 - k) as nat) == seq![b] + tail);
            assert(before + (seq![b] + tail) =~= out@ + tail);
        }
        rest = rest / 256;
        k += 1;
    }
    proof {
        assert(out@ + Seq::<u8>::empty() =~= out@);
    }
}

/// The fingerprint of a file that begins with `head`, has `file_size`
/// bytes and was last changed at `modified_time`, in seconds since the
/// epoch: the SHA-256 digest of its first bytes, its size and that time,
/// in lower-case hexadecimal.
pub fn compute_file_hash(head: &[u8], file_size: u64, modified_time: u64) -> (r: String)
    ensures
        r@ == hex_text(sha256_of(fingerprint_message(head@, file_size, modified_time))),
{
    let n = if head.len() > SAMPLE_SIZE {
        SAMPLE_SIZE
    } else {
        head.len()
    };
    let mut message: Vec<u8> = Vec::new();
    let mut i: usize = 0;
    while i < n
        invariant
            i <= n <= head.len(),
            message@ == head@.take(i as int),
        decreases n - i,
    {
        message.push(head[i]);
        i += 1;
    }
    proof {
        if head.len() <= SAMPLE_SIZE {
            assert(head@.take(n as int) =~= head@);
        }
    }
    push_le_bytes(&mut message, file_size);
    push_le_bytes(&mut message, modified_time);
    let digest = sha256(message.as_slice());
    let mut out: Vec<char> = Vec::new();
    let mut k: usize = 0;
    proof {
        assert(digest@.take(0) =~= Seq::<u8>::empty());
    }
    while k < digest.len()
        invariant
            k <= digest.len(),
            out@ == hex_text(digest@.take(k as int)),
        decreases digest.len() - k,
    {
        proof {
            let next = digest@.take(k + 1);
            assert(next.drop_last() =~= digest@.take(k as int));
            assert(next.last() == digest@[k as int]);
        }
        push_number(&mut out, digest[k] as u64, 16, false, 2);
        k += 1;
    }
    proof {
        assert(digest@.take(digest.len() as int) =~= digest@);
    }
    string_of(out.as_slice())
}

// ---------------------------------------------------------------------------
// File sizes
// ---------------------------------------------------------------------------

/// `n / d` rounded to the nearest whole number, a tie to the even one.
pub open spec fn rounded_quotient(n: nat, d: nat) -> nat {
    let q = n / d;
    let r = n % d;
    if 2 * r > d || (2 * r == d && q % 2 == 1) {
        q + 1
    } else {
        q
    }
}

/// `n` rounded to 53 significant bits, a tie to the even one: to a
/// multiple of the first of `step`, `2 * step`, `4 * step`, ... of which
/// `n` holds fewer than 2^53. No number below 2^64 needs a step beyond
/// 2^11.
pub open spec fn rounded_to_53_bits(n: nat, step: nat) -> nat
    decreases 0x1000 - step,
{
    if step == 0 || step >= 0x800 || n / step < 0x20_0000_0000_0000 {
        rounded_quotient(n, step) * step
    } else {
        rounded_to_53_bits(n, step * 2)
    }
}

/// The hundredths of `size / unit`: the size is rounded to 53 significant
/// bits, and the quotient to two decimal places, ties to even each time.
pub open spec fn hundredths(size: u64, unit: nat) -> nat {
    rounded_quotient(rounded_to_53_bits(size as nat, 1) * 100, unit)
}

/// A number of hundredths with two decimal places.
pub open spec fn two_places(h: nat) -> Seq<char> {
    decimal(h / 100) + "."@ + zero_padded(decimal(h % 100), 2)
}

/// A file size for display: in GB, MB or KB with two decimal places from
/// 1024 bytes on, and in bytes below.
pub open spec fn size_text(size: u64) -> Seq<char> {
    if size >= 0x4000_0000 {
        two_places(hundredths(size, 0x4000_0000)) + " GB"@
    } else if size >= 0x10_0000 {
        two_places(hundredths(size, 0x10_0000)) + " MB"@
    } else if size >= 0x400 {
        two_places(hundredths(size, 0x400)) + " KB"@
    } else {
        decimal(size as nat) + " B"@
    }
}

fn round_quotient(n: u128, d: u128) -> (r: u128)
    requires
        d > 0,
        d <= 0xffff_ffff_ffff_ffff,
        n <= 0xffff_ffff_ffff_ffff_ffff_ffff,
    ensures
        r == rounded_quotient(n as nat, d as nat),
        r <= n / d + 1,
{
    let q = n / d;
    let r = n % d;
    if 2 * r > d || (2 * r == d && q % 2 == 1) {
        q + 1
    } else {
        q
    }
}

fn round_to_53_bits(size: u64) -> (r: u128)
    ensures
        r == rounded_to_53_bits(size as nat, 1),
        r <= 0x1_0000_0000_0000_1000,
{
    let n: u128 = size as u128;
    let mut step: u128 = 1;
    while step < 0x800 && n / step >= 0x20_0000_0000_0000
        invariant
            1 <= step < 0x1000,
            n == size,
            rounded_to_53_bits(n as nat, step as nat) == rounded_to_53_bits(n as nat, 1),
        decreases 0x1000 - step,
    {
        step = step * 2;
    }
    let q = round_quotient(n, step);
    proof {
        let a = n as int;
        let d = step as int;
        vstd::arithmetic::div_mod::lemma_fundamental_div_mod(a, d);
        vstd::arithmetic::div_mod::lemma_mod_bound(a, d);
        assert((a / d + 1) * d == d * (a / d) + d) by (nonlinear_arith);
        assert(q * d <= (a / d + 1) * d) by (nonlinear_arith)
            requires
                q <= a / d + 1,
                d >= 1,
        ;
    }
    q * step
}

fn push_two_places(out: &mut Vec<char>, size: u64, unit: u128)
    requires
        unit == 0x400 || unit == 0x10_0000 || unit == 0x4000_0000,
    ensures
        final(out)@ == old(out)@ + two_places(hundredths(size, unit as nat)),
{
    let x = round_to_53_bits(size);
    let h = round_quotient(x * 100, unit);
    proof {
        vstd::arithmetic::div_mod::lemma_div_is_ordered_by_denominator(
            (x * 100) as int,
            0x400,
            unit as int,
        );
    }
    let mut b: Vec<char> = Vec::new();
    push_decimal(&mut b, (h / 100) as u64);
    push_str(&mut b, ".");
    push_number(&mut b, (h % 100) as u64, 10, false, 2);
    proof {
        assert(b@ =~= two_places(h as nat));
    }
    crate::text::push_all(out, b.as_slice());
}

/// A file size for display.
pub fn format_file_size(size: u64) -> (r: String)
    ensures
        r@ == size_text(size),
{
    let mut out: Vec<char> = Vec::new();
    if size >= 0x4000_0000 {
        push_two_places(&mut out, size, 0x4000_0000);
        push_str(&mut out, " GB");
    } else if size >= 0x10_0000 {
        push_two_places(&mut out, size, 0x10_0000);
        push_str(&mut out, " MB");
    } else if size >= 0x400 {
        push_two_places(&mut out, size, 0x400);
        push_str(&mut out, " KB");
    } else {
        push_decimal(&mut out, size);
        push_str(&mut out, " B");
    }
    proof {
        assert(out@ =~= size_text(size));
    }
    string_of(out.as_slice())
}

} // verus!
