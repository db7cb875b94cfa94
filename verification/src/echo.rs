//! ICMP echo framing: the RFC 1071 internet checksum, echo requests and the
//! recognition of the matching echo reply.

use vstd::prelude::*;

verus! {

/// The 16-bit big-endian word that starts at byte `i`; a last odd byte is
/// padded with a zero byte.
pub open spec fn word_at(data: Seq<u8>, i: int) -> nat {
    if i + 1 < data.len() {
        (data[i] * 256 + data[i + 1]) as nat
    } else {
        (data[i] * 256) as nat
    }
}

/// The sum of the first `w` words of `data`.
pub open spec fn word_sum(data: Seq<u8>, w: nat) -> nat
    decreases w,
{
    if w == 0 {
        0
    } else {
        word_sum(data, (w - 1) as nat) + word_at(data, 2 * (w - 1))
    }
}

/// The number of 16-bit words in `data`, counting a last odd byte as one.
pub open spec fn word_count(data: Seq<u8>) -> nat {
    ((data.len() + 1) / 2) as nat
}

/// One folding step strictly shrinks a value of 17 bits or more and keeps its
/// residue modulo 0xffff.
pub proof fn lemma_fold_step(x: nat)
    requires
        x >= 0x10000,
    ensures
        x % 0x10000 + x / 0x10000 < x,
        (x % 0x10000 + x / 0x10000) % 0xffff == x % 0xffff,
{
    let q = x / 0x10000;
    let r = x % 0x10000;
    assert(x == 0x10000 * q + r && 0 <= r < 0x10000 && q >= 1) by (nonlinear_arith)
        requires q == x / 0x10000, r == x % 0x10000, x >= 0x10000;
    assert((r + q) % 0xffff == x % 0xffff) by (nonlinear_arith)
        requires x == 0x10000 * q + r, q >= 0, r >= 0;
}

/// End-around-carry folding: adds the carries above 16 bits back in until
/// the value fits in 16 bits.
pub open spec fn fold_carries(x: nat) -> nat
    decreases x,
{
    if x < 0x10000 {
        x
    } else {
        proof {
            lemma_fold_step(x);
        }
        fold_carries(x % 0x10000 + x / 0x10000)
    }
}

/// The RFC 1071 internet checksum of `data`: the ones' complement of the
/// ones' complement sum of its 16-bit words.
pub open spec fn internet_checksum(data: Seq<u8>) -> u16 {
    (0xffff - fold_carries(word_sum(data, word_count(data)))) as u16
}

/// Folding keeps a value's residue modulo 0xffff, yields at most 0xffff, and
/// yields zero only for zero.
pub proof fn lemma_fold_carries(x: nat)
    ensures
        fold_carries(x) <= 0xffff,
        fold_carries(x) <= x,
        fold_carries(x) % 0xffff == x % 0xffff,
        (fold_carries(x) == 0) == (x == 0),
    decreases x,
{
    if x >= 0x10000 {
        lemma_fold_step(x);
        lemma_fold_carries(x % 0x10000 + x / 0x10000);
    }
}

proof fn lemma_word_sum_bound(data: Seq<u8>, w: nat)
    requires
        2 * w <= data.len() + 1,
    ensures
        word_sum(data, w) <= 0xffff * w,
    decreases w,
{
    if w > 0 {
        lemma_word_sum_bound(data, (w - 1) as nat);
    }
}

/// The word value of byte `hi` followed by byte `lo`.
fn be_word(hi: u8, lo: u8) -> (r: u32)
    ensures
        r == hi * 256 + lo,
{
    let w: u32 = ((hi as u32) << 8) | (lo as u32);
    proof {
        assert(((hi as u32) << 8) | (lo as u32) == hi as u32 * 256 + lo as u32) by (bit_vector);
    }
    w
}

/// The ones' complement of a folded 16-bit sum.
fn complement_folded(sum: u32) -> (r: u16)
    requires
        sum < 0x10000,
    ensures
        r == 0xffff - sum,
{
    proof {
        assert((!sum) as u16 == (0xffff - sum) as u16) by (bit_vector)
            requires sum < 0x10000;
    }
    !sum as u16
}

/// The high byte of a 16-bit value.
fn high_byte(x: u16) -> (r: u8)
    ensures
        r == x / 256,
{
    proof {
        assert(x >> 8 == x / 256) by (bit_vector);
    }
    (x >> 8) as u8
}

/// The low byte of a 16-bit value.
fn low_byte(x: u16) -> (r: u8)
    ensures
        r == x % 256,
{
    proof {
        assert(x & 0xff == x % 256) by (bit_vector);
    }
    (x & 0xff) as u8
}

/// Folds the carries of a sum once: `(sum & 0xffff) + (sum >> 16)`.
fn fold_once(sum: u32) -> (r: u32)
    ensures
        r == sum % 0x10000 + sum / 0x10000,
        (r >> 16 != 0) == (r >= 0x10000),
{
    proof {
        assert(sum >> 16 == sum / 0x10000) by (bit_vector);
        assert(sum & 0xffff == sum % 0x10000) by (bit_vector);
    }
    let r = (sum & 0xffff) + (sum >> 16);
    proof {
        assert(r >> 16 == r / 0x10000) by (bit_vector);
    }
    r
}

/// Whether a sum still has carries above 16 bits.
fn has_carries(sum: u32) -> (r: bool)
    ensures
        r == (sum >= 0x10000),
{
    proof {
        assert(sum >> 16 == sum / 0x10000) by (bit_vector);
    }
    sum >> 16 != 0
}

/// The sum of all 16-bit words of `data`.
fn sum_words(data: &[u8]) -> (r: u32)
    requires
        data@.len() <= 0x2_0000,
    ensures
        r == word_sum(data@, word_count(data@)),
{
    let mut sum: u32 = 0;
    let mut i: usize = 0;
    while i < data.len()
        invariant
            data@.len() <= 0x2_0000,
            i % 2 == 0,
            i <= data@.len() + 1,
            sum == word_sum(data@, (i / 2) as nat),
        decreases data@.len() + 1 - i,
    {
        let word = if i + 1 < data.len() {
            be_word(data[i], data[i + 1])
        } else {
            be_word(data[i], 0)
        };
        proof {
            assert(word == word_at(data@, i as int));
            lemma_word_sum_bound(data@, (i / 2 + 1) as nat);
            assert(word_sum(data@, (i / 2 + 1) as nat) == sum + word);
        }
        sum = sum + word;
        i = i + 2;
    }
    proof {
        assert(i / 2 == word_count(data@));
    }
    sum
}

/// Folds all carries of `total` back into 16 bits.
fn fold_all(total: u32) -> (r: u32)
    ensures
        r == fold_carries(total as nat),
        r < 0x10000,
{
    let mut sum = total;
    while has_carries(sum)
        invariant
            fold_carries(sum as nat) == fold_carries(total as nat),
        decreases sum,
    {
        proof {
            lemma_fold_step(sum as nat);
        }
        sum = fold_once(sum);
    }
    sum
}

/// Computes `internet_checksum` over `data`.
pub fn icmp_checksum(data: &[u8]) -> (r: u16)
    requires
        data@.len() <= 0x2_0000,
    ensures
        r == internet_checksum(data@),
{
    let total = sum_words(data);
    let folded = fold_all(total);
    complement_folded(folded)
}

/// An ICMP echo request: type 8, code 0, the checksum, the identifier and the
/// sequence number, all big-endian.
pub open spec fn echo_request(identifier: u16, sequence: u16, checksum: u16) -> Seq<u8> {
    seq![
        8u8,
        0u8,
        (checksum / 256) as u8,
        (checksum % 256) as u8,
        (identifier / 256) as u8,
        (identifier % 256) as u8,
        (sequence / 256) as u8,
        (sequence % 256) as u8,
    ]
}

/// Builds an ICMP echo request whose checksum field holds the internet
/// checksum of the packet with that field zeroed.
pub fn build_icmp_echo_request(identifier: u16, sequence: u16) -> (r: Vec<u8>)
    ensures
        r@ == echo_request(identifier, sequence, internet_checksum(echo_request(identifier, sequence, 0))),
        internet_checksum(r@) == 0,
        r@.len() == 8,
        r@[0] == 8,
        r@[1] == 0,
        r@[2] * 256 + r@[3] == internet_checksum(r@.update(2, 0u8).update(3, 0u8)),
        r@[4] * 256 + r@[5] == identifier,
        r@[6] * 256 + r@[7] == sequence,
        ((r@[0] * 256 + r@[1]) + (r@[2] * 256 + r@[3]) + (r@[4] * 256 + r@[5]) + (r@[6] * 256
            + r@[7])) % 0xffff == 0,
        r@[2] * 256 + r@[3] < 0xffff,
{
    let mut packet: Vec<u8> = Vec::new();
    packet.push(8);
    packet.push(0);
    packet.push(0);
    packet.push(0);
    packet.push(high_byte(identifier));
    packet.push(low_byte(identifier));
    packet.push(high_byte(sequence));
    packet.push(low_byte(sequence));
    proof {
        assert(packet@ =~= echo_request(identifier, sequence, 0));
    }
    let checksum = icmp_checksum(packet.as_slice());
    packet.set(2, high_byte(checksum));
    packet.set(3, low_byte(checksum));
    proof {
        assert(packet@ =~= echo_request(identifier, sequence, checksum));
        lemma_echo_request_verifies(identifier, sequence);
        assert(packet@.update(2, 0u8).update(3, 0u8) =~= echo_request(identifier, sequence, 0));
        lemma_be_bytes(checksum);
        lemma_be_bytes(identifier);
        lemma_be_bytes(sequence);
        lemma_echo_request_sum(identifier, sequence);
    }
    packet
}

/// The words of a built echo request (type and code, checksum, identifier,
/// sequence number) add up to a multiple of 0xffff, and the checksum is never
/// 0xffff.
proof fn lemma_echo_request_sum(identifier: u16, sequence: u16)
    ensures
        ({
            let c = internet_checksum(echo_request(identifier, sequence, 0));
            &&& (2048 + c + identifier + sequence) % 0xffff == 0
            &&& c < 0xffff
        }),
{
    let z = echo_request(identifier, sequence, 0);
    let c = internet_checksum(z);
    lemma_be_bytes(identifier);
    lemma_be_bytes(sequence);
    assert(word_count(z) == 4);
    assert(word_at(z, 0) == 2048);
    assert(word_at(z, 2) == 0);
    assert(word_at(z, 4) == identifier);
    assert(word_at(z, 6) == sequence);
    reveal_with_fuel(word_sum, 5);
    let t = word_sum(z, 4);
    assert(t == 2048 + identifier + sequence);
    lemma_fold_carries(t);
    let f = fold_carries(t);
    assert(c == 0xffff - f);
    assert((t + 0xffff - f) % 0xffff == 0) by (nonlinear_arith)
        requires f % 0xffff == t % 0xffff, f <= t;
}

/// A 16-bit value is its high byte times 256 plus its low byte.
proof fn lemma_be_bytes(x: u16)
    ensures
        ((x / 256) as u8) * 256 + ((x % 256) as u8) == x,
{
    assert(((x / 256) as u8) * 256 + ((x % 256) as u8) == x) by (bit_vector);
}

/// A datagram whose ICMP part is an echo reply (type 0) carrying back the
/// identifier and sequence bytes of a request is recognized as the reply to
/// that request's identifier and sequence number.
pub proof fn lemma_reply_to_request_matches(request: Seq<u8>, data: Seq<u8>, identifier: u16, sequence: u16)
    requires
        request.len() == 8,
        request[4] * 256 + request[5] == identifier,
        request[6] * 256 + request[7] == sequence,
        data.len() >= 28,
        data[20] == 0,
        data.subrange(24, 28) == request.subrange(4, 8),
    ensures
        is_matching_reply(data, identifier, sequence),
{
    assert(data[24] == data.subrange(24, 28)[0]);
    assert(data[25] == data.subrange(24, 28)[1]);
    assert(data[26] == data.subrange(24, 28)[2]);
    assert(data[27] == data.subrange(24, 28)[3]);
}

/// A received IPv4 datagram (20-byte header, then ICMP) is the echo reply
/// to a request with this identifier and sequence number.
pub open spec fn is_matching_reply(data: Seq<u8>, identifier: u16, sequence: u16) -> bool {
    &&& data.len() >= 28
    &&& data[20] == 0
    &&& data[24] * 256 + data[25] == identifier
    &&& data[26] * 256 + data[27] == sequence
}

/// Whether `data` is the echo reply that matches the request with this
/// identifier and sequence number.
pub fn is_echo_reply(data: &[u8], identifier: u16, sequence: u16) -> (r: bool)
    ensures
        r == is_matching_reply(data@, identifier, sequence),
{
    if data.len() < 28 {
        return false;
    }
    let reply_id: u16 = (data[24] as u16) * 256 + (data[25] as u16);
    let reply_seq: u16 = (data[26] as u16) * 256 + (data[27] as u16);
    data[20] == 0 && reply_id == identifier && reply_seq == sequence
}

proof fn lemma_word_sum_update(data: Seq<u8>, j: int, c: u16, w: nat)
    requires
        data.len() % 2 == 0,
        0 <= j,
        j + 1 < data.len(),
        j % 2 == 0,
        data[j] == 0,
        data[j + 1] == 0,
        2 * w <= data.len(),
    ensures
        word_sum(data.update(j, (c / 256) as u8).update(j + 1, (c % 256) as u8), w)
            == word_sum(data, w) + if j < 2 * w { c as nat } else { 0 },
    decreases w,
{
    if w > 0 {
        lemma_word_sum_update(data, j, c, (w - 1) as nat);
        let d = data.update(j, (c / 256) as u8).update(j + 1, (c % 256) as u8);
        let i = 2 * (w - 1);
        if i == j {
            assert(word_at(d, i) == c as nat);
            assert(word_at(data, i) == 0);
        } else {
            assert(word_at(d, i) == word_at(data, i));
        }
    }
}

/// RFC 1071: when the checksum of a message with a zeroed, word-aligned
/// checksum field is written into that field, the checksum of the result is
/// zero, which is how a receiver verifies it.
pub proof fn lemma_checksum_verifies(data: Seq<u8>, j: int)
    requires
        data.len() % 2 == 0,
        0 <= j,
        j + 1 < data.len(),
        j % 2 == 0,
        data[j] == 0,
        data[j + 1] == 0,
    ensures
        internet_checksum(
            data.update(j, (internet_checksum(data) / 256) as u8).update(
                j + 1,
                (internet_checksum(data) % 256) as u8,
            ),
        ) == 0,
{
    let c = internet_checksum(data);
    let d = data.update(j, (c / 256) as u8).update(j + 1, (c % 256) as u8);
    let w = word_count(data);
    assert(word_count(d) == w);
    assert(2 * w == data.len());
    lemma_word_sum_update(data, j, c, w);
    let t = word_sum(data, w);
    lemma_fold_carries(t);
    assert(c as nat == 0xffff - fold_carries(t));
    let n: nat = t + c as nat;
    assert(word_sum(d, w) == n);
    lemma_fold_carries(n);
    assert(n % 0xffff == 0) by (nonlinear_arith)
        requires n == t + 0xffff - fold_carries(t), fold_carries(t) % 0xffff == t % 0xffff,
            fold_carries(t) <= t;
    assert(fold_carries(n) == 0xffff) by (nonlinear_arith)
        requires fold_carries(n) % 0xffff == n % 0xffff, n % 0xffff == 0, fold_carries(n) <= 0xffff,
            fold_carries(n) != 0;
}

/// A built echo request passes the receiver's checksum verification.
pub proof fn lemma_echo_request_verifies(identifier: u16, sequence: u16)
    ensures
        internet_checksum(
            echo_request(identifier, sequence, internet_checksum(echo_request(identifier, sequence, 0))),
        ) == 0,
{
    let z = echo_request(identifier, sequence, 0);
    let c = internet_checksum(z);
    lemma_checksum_verifies(z, 2);
    assert(z.update(2, (c / 256) as u8).update(3, (c % 256) as u8) =~= echo_request(identifier, sequence, c));
}

} // verus!
