//! The CRC-8 frame check sequence.
//!
//! Reflected polynomial 0xE0 (x^8+x^2+x+1), start value 0xFF. A frame carries
//! `0xFF - crc(data)`; running the CRC over `data ++ [fcs]` then always ends
//! in 0xCF.
use vstd::prelude::*;

verus! {

/// The CRC of any data followed by its own check byte.
pub const FCS_GOOD: u8 = 0xCF;

/// One step of the bitwise division: the lowest bit leaves, and when it was
/// set the reflected polynomial is added.
pub open spec fn shift_bit(c: u8) -> u8 {
    if c & 1 != 0 {
        (c >> 1) ^ 0xE0
    } else {
        c >> 1
    }
}

/// The CRC of one byte: eight division steps.
pub open spec fn shift_byte(c: u8) -> u8 {
    shift_bit(shift_bit(shift_bit(shift_bit(shift_bit(shift_bit(shift_bit(shift_bit(c))))))))
}

/// The running CRC over a byte sequence, starting from 0xFF.
pub open spec fn crc_of(data: Seq<u8>) -> u8
    decreases data.len(),
{
    if data.len() == 0 {
        0xFF
    } else {
        shift_byte(crc_of(data.drop_last()) ^ data.last())
    }
}

/// The check byte that belongs to `data`.
pub open spec fn fcs_of(data: Seq<u8>) -> u8 {
    (0xFF - crc_of(data)) as u8
}

/// The CRC contribution of the byte `c`.
fn byte_crc(c: u8) -> (r: u8)
    ensures
        r == shift_byte(c),
{
    let mut crc: u8 = c;
    let mut j: u8 = 0;
    while j < 8
        invariant
            j <= 8,
            j == 0 ==> crc == c,
            j == 1 ==> crc == shift_bit(c),
            j == 2 ==> crc == shift_bit(shift_bit(c)),
            j == 3 ==> crc == shift_bit(shift_bit(shift_bit(c))),
            j == 4 ==> crc == shift_bit(shift_bit(shift_bit(shift_bit(c)))),
            j == 5 ==> crc == shift_bit(shift_bit(shift_bit(shift_bit(shift_bit(c))))),
            j == 6 ==> crc == shift_bit(shift_bit(shift_bit(shift_bit(shift_bit(shift_bit(c)))))),
            j == 7 ==> crc == shift_bit(
                shift_bit(shift_bit(shift_bit(shift_bit(shift_bit(shift_bit(c)))))),
            ),
            j == 8 ==> crc == shift_byte(c),
        decreases 8 - j,
    {
        crc = if crc & 1 != 0 {
            (crc >> 1) ^ 0xE0
        } else {
            crc >> 1
        };
        j += 1;
    }
    crc
}

/// Runs the CRC over `data`.
fn crc(data: &[u8]) -> (r: u8)
    ensures
        r == crc_of(data@),
{
    let mut acc: u8 = 0xFF;
    for i in 0..data.len()
        invariant
            acc == crc_of(data@.take(i as int)),
    {
        assert(data@.take(i + 1).drop_last() =~= data@.take(i as int));
        acc = byte_crc(acc ^ data[i]);
    }
    assert(data@.take(data@.len() as int) =~= data@);
    acc
}

/// The check byte to write into a frame.
pub fn fcs(data: &[u8]) -> (r: u8)
    ensures
        r == fcs_of(data@),
{
    0xFF - crc(data)
}

/// Whether `received` is the check byte of `data`.
///
/// The test is the receiver's: the CRC over the data and the received byte
/// ends in [`FCS_GOOD`].
pub fn check(data: &[u8], received: u8) -> (ok: bool)
    ensures
        ok == (received == fcs_of(data@)),
{
    let acc: u8 = crc(data);
    proof {
        lemma_residue_byte(acc, received);
    }
    byte_crc(acc ^ received) == FCS_GOOD
}

/// From any running CRC, exactly one byte leads to [`FCS_GOOD`].
proof fn lemma_residue_byte(acc: u8, received: u8)
    ensures
        shift_byte(acc ^ received) == FCS_GOOD <==> received == 0xFF - acc,
{
    assert(shift_byte(acc ^ received) == 0xCF <==> received == 0xFF - acc) by (bit_vector);
}

/// A byte's CRC step loses nothing: two different values stay different.
proof fn lemma_shift_byte_injective(a: u8, b: u8)
    ensures
        shift_byte(a) == shift_byte(b) ==> a == b,
{
    assert(shift_byte(a) == shift_byte(b) ==> a == b) by (bit_vector);
}

/// The receiver's residue: the CRC over any data followed by its check byte is
/// [`FCS_GOOD`].
pub proof fn law_residue(data: Seq<u8>)
    ensures
        crc_of(data.push(fcs_of(data))) == FCS_GOOD,
{
    assert(data.push(fcs_of(data)).drop_last() =~= data);
    lemma_residue_byte(crc_of(data), fcs_of(data));
}

/// Changing exactly one byte of the data always changes the check byte.
pub proof fn law_single_byte_change_is_detected(data: Seq<u8>, i: int, b: u8)
    requires
        0 <= i < data.len(),
        data[i] != b,
    ensures
        fcs_of(data.update(i, b)) != fcs_of(data),
    decreases data.len(),
{
    let changed = data.update(i, b);
    let x = crc_of(data.drop_last());
    let last = data.last();
    if i == data.len() - 1 {
        assert(changed.drop_last() =~= data.drop_last());
        assert(x ^ last == x ^ b ==> last == b) by (bit_vector);
        lemma_shift_byte_injective(x ^ last, x ^ b);
    } else {
        law_single_byte_change_is_detected(data.drop_last(), i, b);
        assert(changed.drop_last() =~= data.drop_last().update(i, b));
        let y = crc_of(changed.drop_last());
        assert(x ^ last == y ^ last ==> x == y) by (bit_vector);
        lemma_shift_byte_injective(x ^ last, y ^ last);
    }
}

/// Bit `i` of bytes as they go over the line: the lowest bit of each byte first.
pub open spec fn line_bit(bytes: Seq<u8>, i: int) -> bool {
    (bytes[i / 8] >> ((i % 8) as u8)) & 1 == 1
}

/// A coefficient of a polynomial over two elements, that of the highest power first;
/// zero past either end.
pub open spec fn coefficient(q: Seq<bool>, i: int) -> bool {
    0 <= i < q.len() && q[i]
}

/// Whether `q` times `x^8 + x^2 + x + 1` is the data followed by the check byte, read
/// as one polynomial of line bits, with the first eight and the last eight of its bits
/// inverted.
pub open spec fn is_quotient(q: Seq<bool>, data: Seq<u8>, check: u8) -> bool {
    &&& q.len() == 8 * data.len()
    &&& forall|i: int|
        #![trigger line_bit(data.push(check), i)]
        0 <= i < 8 * data.len() + 8 ==> ((line_bit(data.push(check), i) != (i < 8)) != (i >= 8
            * data.len())) == (((coefficient(q, i) != coefficient(q, i - 6)) != coefficient(q, i - 7))
            != coefficient(q, i - 8))
}

/// Whether data and check byte, with their first and last eight line bits inverted, are
/// a multiple of `x^8 + x^2 + x + 1`.
pub open spec fn is_multiple(data: Seq<u8>, check: u8) -> bool {
    exists|q: Seq<bool>| is_quotient(q, data, check)
}

/// The division register after one line bit.
spec fn register_step(r: u8, bit: bool) -> u8 {
    if (r & 1 == 1) != bit {
        (r >> 1) ^ 0xE0
    } else {
        r >> 1
    }
}

/// The division register after the first `k` line bits.
spec fn register(data: Seq<u8>, k: nat) -> u8
    decreases k,
{
    if k == 0 {
        0xFF
    } else {
        register_step(register(data, (k - 1) as nat), line_bit(data, k - 1))
    }
}

/// The bits that the division takes off, one for each line bit.
spec fn quotient(data: Seq<u8>) -> Seq<bool> {
    Seq::new(
        8 * data.len(),
        |i: int| (register(data, i as nat) & 1 == 1) != line_bit(data, i),
    )
}

/// Eight steps by the bits of a byte are the step for the byte.
proof fn lemma_byte_step(r: u8, b: u8)
    ensures
        register_step(
            register_step(
                register_step(
                    register_step(
                        register_step(
                            register_step(
                                register_step(
                                    register_step(r, (b >> 0) & 1 == 1),
                                    (b >> 1) & 1 == 1,
                                ),
                                (b >> 2) & 1 == 1,
                            ),
                            (b >> 3) & 1 == 1,
                        ),
                        (b >> 4) & 1 == 1,
                    ),
                    (b >> 5) & 1 == 1,
                ),
                (b >> 6) & 1 == 1,
            ),
            (b >> 7) & 1 == 1,
        ) == shift_byte(r ^ b),
{
    assert(register_step(
        register_step(
            register_step(
                register_step(
                    register_step(
                        register_step(
                            register_step(
                                register_step(r, (b >> 0) & 1 == 1),
                                (b >> 1) & 1 == 1,
                            ),
                            (b >> 2) & 1 == 1,
                        ),
                        (b >> 3) & 1 == 1,
                    ),
                    (b >> 4) & 1 == 1,
                ),
                (b >> 5) & 1 == 1,
            ),
            (b >> 6) & 1 == 1,
        ),
        (b >> 7) & 1 == 1,
    ) == shift_byte(r ^ b)) by (bit_vector);
}

/// The register over whole bytes is the running CRC.
proof fn lemma_register_is_crc(data: Seq<u8>, n: nat)
    requires
        n <= data.len(),
    ensures
        register(data, 8 * n) == crc_of(data.take(n as int)),
    decreases n,
{
    if n > 0 {
        let m = (n - 1) as nat;
        lemma_register_is_crc(data, m);
        assert(data.take(n as int).drop_last() =~= data.take(m as int));
        let b = data[m as int];
        let at: int = 8 * m as int;
        assert forall|j: int| 0 <= j < 8 implies #[trigger] line_bit(data, at + j) == ((b >> (
        j as u8)) & 1 == 1) by {
            assert((at + j) / 8 == m && (at + j) % 8 == j);
        }
        reveal_with_fuel(register, 9);
        lemma_byte_step(register(data, 8 * m), b);
        assert(line_bit(data, at + 0) == ((b >> 0) & 1 == 1));
        assert(line_bit(data, at + 1) == ((b >> 1) & 1 == 1));
        assert(line_bit(data, at + 2) == ((b >> 2) & 1 == 1));
        assert(line_bit(data, at + 3) == ((b >> 3) & 1 == 1));
        assert(line_bit(data, at + 4) == ((b >> 4) & 1 == 1));
        assert(line_bit(data, at + 5) == ((b >> 5) & 1 == 1));
        assert(line_bit(data, at + 6) == ((b >> 6) & 1 == 1));
        assert(line_bit(data, at + 7) == ((b >> 7) & 1 == 1));
    }
}

/// The bits of the register move down by one, and the polynomial goes in above.
proof fn lemma_register_bits(r: u8, bit: bool, j: u8)
    requires
        j < 8,
    ensures
        ((register_step(r, bit) >> j) & 1 == 1) == ((j < 7 && (r >> ((j + 1) as u8)) & 1 == 1) != (j
            >= 5 && ((r & 1 == 1) != bit))),
{
    let r2 = register_step(r, bit);
    let k = (j + 1) as u8;
    assert(((r2 >> j) & 1 == 1) == ((j < 7 && (r >> k) & 1 == 1) != (j >= 5 && ((r & 1 == 1)
        != bit)))) by (bit_vector)
        requires
            j < 8,
            k == j + 1,
            r2 == (if (r & 1 == 1) != bit {
                (r >> 1) ^ 0xE0
            } else {
                r >> 1
            }),
    ;
}

/// After `k` bits, what was taken in is the quotient so far times the polynomial, and
/// what is left over stands in the register.
proof fn lemma_division(data: Seq<u8>, k: nat)
    requires
        k <= 8 * data.len(),
    ensures
        forall|i: int|
            #![trigger coefficient(quotient(data).take(k as int), i)]
            0 <= i < k + 8 ==> ((i < k && line_bit(data, i)) != (i < 8)) == ((((coefficient(
                quotient(data).take(k as int),
                i,
            ) != coefficient(quotient(data).take(k as int), i - 6)) != coefficient(
                quotient(data).take(k as int),
                i - 7,
            )) != coefficient(quotient(data).take(k as int), i - 8)) != (i >= k && (register(data, k)
                >> ((i - k) as u8)) & 1 == 1)),
    decreases k,
{
    let q = quotient(data).take(k as int);
    if k == 0 {
        assert forall|i: int|
            #![trigger coefficient(q, i)]
            0 <= i < 8 implies (register(data, 0) >> (i as u8)) & 1 == 1 by {
            let j = i as u8;
            assert((0xFFu8 >> j) & 1 == 1) by (bit_vector)
                requires
                    j < 8,
            ;
        }
    } else {
        let m = (k - 1) as nat;
        let p = quotient(data).take(m as int);
        let r = register(data, m);
        let bit = line_bit(data, m as int);
        lemma_division(data, m);
        let taken = (r & 1 == 1) != bit;
        assert(q =~= p.push(taken));
        assert forall|x: int| #[trigger] coefficient(q, x) == (if x == m {
            taken
        } else {
            coefficient(p, x)
        }) by {}
        assert forall|i: int|
            #![trigger coefficient(q, i)]
            0 <= i < k + 8 implies ((i < k && line_bit(data, i)) != (i < 8)) == ((((coefficient(q, i)
            != coefficient(q, i - 6)) != coefficient(q, i - 7)) != coefficient(q, i - 8)) != (i >= k
            && (register(data, k) >> ((i - k) as u8)) & 1 == 1)) by {
            let before = coefficient(p, i);
            if i >= k {
                let j = (i - k) as u8;
                lemma_register_bits(r, bit, j);
                assert((j + 1) as u8 == (i - m) as u8);
                assert(i == m + 8 ==> !before && !coefficient(p, i - 6) && !coefficient(p, i - 7)
                    && !coefficient(p, i - 8));
            } else if i == m {
                assert((i - m) as u8 == 0);
                assert((r >> 0u8) == r) by (bit_vector);
            }
        }
    }
}

/// The bits of the inverted byte are the inverted bits.
proof fn lemma_inverted_bits(c: u8, j: u8)
    requires
        j < 8,
    ensures
        ((((0xFF - c) as u8) >> j) & 1 == 1) == !((c >> j) & 1 == 1),
{
    let d = (0xFF - c) as u8;
    assert(((d >> j) & 1 == 1) == !((c >> j) & 1 == 1)) by (bit_vector)
        requires
            j < 8,
            d == 0xFF - c,
    ;
}

/// Bytes are the same where their bits are.
proof fn lemma_same_bits(a: u8, b: u8)
    requires
        forall|j: u8| j < 8 ==> (#[trigger] (a >> j) & 1 == 1) == ((b >> j) & 1 == 1),
    ensures
        a == b,
{
    assert((a >> 0u8) & 1 == 1 <==> (b >> 0u8) & 1 == 1);
    assert((a >> 1u8) & 1 == 1 <==> (b >> 1u8) & 1 == 1);
    assert((a >> 2u8) & 1 == 1 <==> (b >> 2u8) & 1 == 1);
    assert((a >> 3u8) & 1 == 1 <==> (b >> 3u8) & 1 == 1);
    assert((a >> 4u8) & 1 == 1 <==> (b >> 4u8) & 1 == 1);
    assert((a >> 5u8) & 1 == 1 <==> (b >> 5u8) & 1 == 1);
    assert((a >> 6u8) & 1 == 1 <==> (b >> 6u8) & 1 == 1);
    assert((a >> 7u8) & 1 == 1 <==> (b >> 7u8) & 1 == 1);
    assert(a == b) by (bit_vector)
        requires
            ((a >> 0u8) & 1 == 1) == ((b >> 0u8) & 1 == 1),
            ((a >> 1u8) & 1 == 1) == ((b >> 1u8) & 1 == 1),
            ((a >> 2u8) & 1 == 1) == ((b >> 2u8) & 1 == 1),
            ((a >> 3u8) & 1 == 1) == ((b >> 3u8) & 1 == 1),
            ((a >> 4u8) & 1 == 1) == ((b >> 4u8) & 1 == 1),
            ((a >> 5u8) & 1 == 1) == ((b >> 5u8) & 1 == 1),
            ((a >> 6u8) & 1 == 1) == ((b >> 6u8) & 1 == 1),
            ((a >> 7u8) & 1 == 1) == ((b >> 7u8) & 1 == 1),
    ;
}

/// Division gives one quotient: two of the same data have the same bits.
proof fn lemma_one_quotient(p: Seq<bool>, q: Seq<bool>, data: Seq<u8>, a: u8, b: u8, k: nat)
    requires
        is_quotient(p, data, a),
        is_quotient(q, data, b),
        k <= 8 * data.len(),
    ensures
        forall|i: int| 0 <= i < k ==> p[i] == q[i],
    decreases k,
{
    if k > 0 {
        let m = k - 1;
        lemma_one_quotient(p, q, data, a, b, m as nat);
        assert(data.push(a)[m / 8] == data[m / 8]);
        assert(data.push(b)[m / 8] == data[m / 8]);
        assert(line_bit(data.push(a), m) == line_bit(data.push(b), m));
        assert(coefficient(p, m - 6) == coefficient(q, m - 6));
        assert(coefficient(p, m - 7) == coefficient(q, m - 7));
        assert(coefficient(p, m - 8) == coefficient(q, m - 8));
        assert(coefficient(p, m) == p[m] && coefficient(q, m) == q[m]);
    }
}

/// The check byte is what polynomial division leaves over: it is the one byte that makes
/// data and check byte together, their first and last eight bits inverted, a multiple of
/// `x^8 + x^2 + x + 1`. Every bit of the data counts alike, the first ones too.
pub proof fn law_check_byte_is_the_remainder(data: Seq<u8>, check: u8)
    ensures
        check == fcs_of(data) <==> is_multiple(data, check),
{
    let good = fcs_of(data);
    let n = data.len();
    let q = quotient(data);
    assert(is_quotient(q, data, good)) by {
        lemma_division(data, 8 * n);
        lemma_register_is_crc(data, n);
        assert(data.take(n as int) =~= data);
        assert(q.take(8 * n as int) =~= q);
        assert forall|i: int|
            #![trigger line_bit(data.push(good), i)]
            0 <= i < 8 * n + 8 implies ((line_bit(data.push(good), i) != (i < 8)) != (i >= 8 * n))
            == (((coefficient(q, i) != coefficient(q, i - 6)) != coefficient(q, i - 7))
            != coefficient(q, i - 8)) by {
            assert(coefficient(q, i) || !coefficient(q, i));
            if i < 8 * n {
                assert(data.push(good)[i / 8] == data[i / 8]);
            } else {
                assert(i / 8 == n && i % 8 == i - 8 * n);
                lemma_inverted_bits(crc_of(data), (i - 8 * n) as u8);
            }
        }
    }
    if is_multiple(data, check) {
        let p = choose|p: Seq<bool>| is_quotient(p, data, check);
        lemma_one_quotient(p, q, data, check, good, 8 * n);
        assert(p =~= q);
        assert forall|j: u8| j < 8 implies (#[trigger] (check >> j) & 1 == 1) == ((good >> j) & 1
            == 1) by {
            let i = 8 * n + j;
            assert(i / 8 == n && i % 8 == j as int);
            assert(line_bit(data.push(check), i) == line_bit(data.push(good), i));
        }
        lemma_same_bits(check, good);
    }
}

} // verus!
