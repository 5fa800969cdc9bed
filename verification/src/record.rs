//! Length-delimited records.
//!
//! A record frames a payload for bulk output: the length of the payload in
//! eight bytes, a masked checksum of those eight bytes, the payload, and a
//! masked checksum of the payload. All numbers are written least significant
//! byte first. Records are independent of each other, so a file of them is
//! their concatenation.

use vstd::prelude::*;

verus! {

/// The CRC-32C checksum of `bytes`.
pub uninterp spec fn crc32c(bytes: Seq<u8>) -> u32;

/// `crc::Crc::<u32>::checksum` for the algorithm `crc::CRC_32_ISCSI`, which
/// is CRC-32C. The checksum is a function of the bytes alone; what it is for
/// given bytes is not claimed here.
#[verifier::external_body]
fn checksum(bytes: &Vec<u8>) -> (c: u32)
    ensures
        c == crc32c(bytes@),
{
    crc::Crc::<u32>::new(&crc::CRC_32_ISCSI).checksum(bytes)
}

/// A checksum as it is stored: turned right by fifteen bits, plus a constant,
/// so that the checksum of data that holds checksums stays sound.
pub open spec fn masked(c: u32) -> u32 {
    let turned = (c as int / 0x8000) + (c as int % 0x8000) * 0x2_0000;
    ((turned + 0xa282_ead8) % 0x1_0000_0000) as u32
}

/// The `n` least significant bytes of `x`, least significant first.
pub open spec fn le_bytes(x: nat, n: nat) -> Seq<u8>
    decreases n,
{
    if n == 0 {
        Seq::empty()
    } else {
        seq![(x % 256) as u8] + le_bytes(x / 256, (n - 1) as nat)
    }
}

/// The number that the bytes spell, least significant first.
pub open spec fn le_value(bytes: Seq<u8>) -> nat
    decreases bytes.len(),
{
    if bytes.len() == 0 {
        0
    } else {
        bytes[0] as nat + 256 * le_value(bytes.drop_first())
    }
}

/// `256` to the power of `n`.
pub open spec fn radix_power(n: nat) -> nat
    decreases n,
{
    if n == 0 {
        1
    } else {
        256 * radix_power((n - 1) as nat)
    }
}

/// The record that frames `payload`.
pub open spec fn framed(payload: Seq<u8>) -> Seq<u8> {
    let length = le_bytes(payload.len(), 8);
    length + le_bytes(masked(crc32c(length)) as nat, 4) + payload + le_bytes(
        masked(crc32c(payload)) as nat,
        4,
    )
}

/// The bytes are one whole record: the length field fits the number of bytes
/// and both checksums are right.
pub open spec fn is_frame(bytes: Seq<u8>) -> bool {
    &&& bytes.len() >= 16
    &&& le_value(bytes.subrange(0, 8)) == bytes.len() - 16
    &&& le_value(bytes.subrange(8, 12)) == masked(crc32c(bytes.subrange(0, 8)))
    &&& le_value(bytes.subrange(bytes.len() - 4, bytes.len() as int)) == masked(
        crc32c(bytes.subrange(12, bytes.len() - 4)),
    )
}

/// `n` bytes spell the number that they were made from, if it is small enough.
pub proof fn lemma_le_round_trip(x: nat, n: nat)
    requires
        x < radix_power(n),
    ensures
        le_bytes(x, n).len() == n,
        le_value(le_bytes(x, n)) == x,
    decreases n,
{
    if n > 0 {
        assert(x / 256 < radix_power((n - 1) as nat)) by (nonlinear_arith)
            requires
                x < 256 * radix_power((n - 1) as nat),
        ;
        lemma_le_round_trip(x / 256, (n - 1) as nat);
        let rest = le_bytes(x / 256, (n - 1) as nat);
        assert(le_bytes(x, n).drop_first() =~= rest);
        assert(x == x % 256 + 256 * (x / 256)) by (nonlinear_arith);
    }
}

/// A framed payload is one whole record, and the payload is found in it
/// behind the twelve bytes of the header.
pub proof fn lemma_frame_round_trip(payload: Seq<u8>)
    requires
        payload.len() <= u64::MAX,
    ensures
        is_frame(framed(payload)),
        framed(payload).len() == payload.len() + 16,
        framed(payload).subrange(12, framed(payload).len() - 4) == payload,
{
    let length = le_bytes(payload.len(), 8);
    let head = le_bytes(masked(crc32c(length)) as nat, 4);
    let tail = le_bytes(masked(crc32c(payload)) as nat, 4);
    let whole = framed(payload);
    assert(radix_power(4) == 0x1_0000_0000 && radix_power(8) == 0x1_0000_0000_0000_0000) by {
        reveal_with_fuel(radix_power, 9);
    }
    lemma_le_round_trip(payload.len(), 8);
    lemma_le_round_trip(masked(crc32c(length)) as nat, 4);
    lemma_le_round_trip(masked(crc32c(payload)) as nat, 4);
    assert(whole.subrange(0, 8) =~= length);
    assert(whole.subrange(8, 12) =~= head);
    assert(whole.subrange(12, whole.len() - 4) =~= payload);
    assert(whole.subrange(whole.len() - 4, whole.len() as int) =~= tail);
}

/// Masks a checksum for storage.
pub fn mask(c: u32) -> (m: u32)
    ensures
        m == masked(c),
{
    let turned: u32 = (c / 0x8000) + (c % 0x8000) * 0x2_0000;
    turned.wrapping_add(0xa282_ead8)
}

fn push_le(out: &mut Vec<u8>, x: u64, n: usize)
    requires
        n <= 8,
    ensures
        final(out)@ == old(out)@ + le_bytes(x as nat, n as nat),
{
    let ghost before = out@;
    let mut rest = x;
    let mut i: usize = 0;
    assert(out@ =~= before + le_bytes(x as nat, 0));
    while i < n
        invariant
            i <= n,
            out@ + le_bytes(rest as nat, (n - i) as nat) == before + le_bytes(x as nat, n as nat),
        decreases n - i,
    {
        let ghost written = out@;
        out.push((rest % 256) as u8);
        proof {
            assert(le_bytes(rest as nat, (n - i) as nat) =~= seq![(rest % 256) as u8] + le_bytes(
                (rest / 256) as nat,
                (n - i - 1) as nat,
            ));
            assert(out@ + le_bytes((rest / 256) as nat, (n - i - 1) as nat) =~= written + le_bytes(
                rest as nat,
                (n - i) as nat,
            ));
        }
        rest = rest / 256;
        i = i + 1;
    }
    assert(out@ + le_bytes(rest as nat, 0) =~= out@);
}

fn read_le(bytes: &Vec<u8>, start: usize, n: usize) -> (x: u64)
    requires
        n <= 8,
        start + n <= bytes@.len(),
    ensures
        x == le_value(bytes@.subrange(start as int, start + n)),
{
    let total = bytes.len();
    let mut x: u64 = 0;
    let mut i: usize = n;
    assert(bytes@.subrange(start + n, start + n).len() == 0);
    while i > 0
        invariant
            i <= n <= 8,
            start + n <= total == bytes@.len(),
            x == le_value(bytes@.subrange(start + i, start + n)),
            x < radix_power((n - i) as nat),
        decreases i,
    {
        i = i - 1;
        proof {
            let tail = bytes@.subrange(start + i, start + n);
            assert(tail.drop_first() =~= bytes@.subrange(start + i + 1, start + n));
            assert(tail[0] == bytes@[start + i]);
            assert(radix_power(8) == 0x1_0000_0000_0000_0000) by {
                reveal_with_fuel(radix_power, 9);
            }
            lemma_radix_power_monotonic((n - i) as nat, 8);
            assert(bytes@[start + i] + 256 * x < 256 * radix_power((n - i - 1) as nat))
                by (nonlinear_arith)
                requires
                    0 <= bytes@[start + i] < 256,
                    0 <= x < radix_power((n - i - 1) as nat),
            ;
        }
        x = bytes[start + i] as u64 + 256 * x;
    }
    x
}

/// The powers of the radix do not fall.
proof fn lemma_radix_power_monotonic(a: nat, b: nat)
    requires
        a <= b,
    ensures
        radix_power(a) <= radix_power(b),
        radix_power(a) >= 1,
    decreases b,
{
    if a < b {
        lemma_radix_power_monotonic(a, (b - 1) as nat);
    } else if a > 0 {
        lemma_radix_power_monotonic((a - 1) as nat, (a - 1) as nat);
    }
}

/// Appends the record that frames `payload`.
pub fn append_record(out: &mut Vec<u8>, payload: &Vec<u8>)
    ensures
        final(out)@ == old(out)@ + framed(payload@),
{
    let ghost before = out@;
    let mut length: Vec<u8> = Vec::new();
    push_le(&mut length, payload.len() as u64, 8);
    assert(length@ =~= le_bytes(payload@.len(), 8));
    let length_check = mask(checksum(&length));
    let payload_check = mask(checksum(payload));
    let mut body = payload.clone();
    assert(body@ =~= payload@);
    out.append(&mut length);
    push_le(out, length_check as u64, 4);
    out.append(&mut body);
    push_le(out, payload_check as u64, 4);
    assert(out@ =~= before + framed(payload@));
}

/// The record that frames `payload`.
pub fn frame_record(payload: &Vec<u8>) -> (record: Vec<u8>)
    ensures
        record@ == framed(payload@),
{
    let mut record: Vec<u8> = Vec::new();
    append_record(&mut record, payload);
    assert(record@ =~= framed(payload@));
    record
}

/// Takes the payload out of one whole record; gives nothing where the bytes
/// are not one whole record.
pub fn unframe_record(bytes: &Vec<u8>) -> (r: Option<Vec<u8>>)
    ensures
        r is Some <==> is_frame(bytes@),
        r matches Some(payload) ==> payload@ == bytes@.subrange(12, bytes@.len() - 4),
{
    let total = bytes.len();
    if total < 16 {
        return None;
    }
    let length = read_le(bytes, 0, 8);
    if length != (total - 16) as u64 {
        return None;
    }
    let mut head: Vec<u8> = Vec::new();
    let mut i: usize = 0;
    while i < 8
        invariant
            i <= 8,
            16 <= bytes@.len(),
            head@ == bytes@.subrange(0, i as int),
        decreases 8 - i,
    {
        head.push(bytes[i]);
        assert(head@ =~= bytes@.subrange(0, i + 1));
        i = i + 1;
    }
    if read_le(bytes, 8, 4) != mask(checksum(&head)) as u64 {
        return None;
    }
    let mut payload: Vec<u8> = Vec::new();
    let mut j: usize = 12;
    while j < total - 4
        invariant
            12 <= j <= total - 4,
            total == bytes@.len(),
            payload@ == bytes@.subrange(12, j as int),
        decreases total - 4 - j,
    {
        payload.push(bytes[j]);
        assert(payload@ =~= bytes@.subrange(12, j + 1));
        j = j + 1;
    }
    if read_le(bytes, total - 4, 4) != mask(checksum(&payload)) as u64 {
        return None;
    }
    Some(payload)
}

} // verus!
