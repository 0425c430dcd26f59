//! The Ethereum contract ABI as the precompiles read and write it: 32-byte big-endian words
//! for integers and booleans, and an offset, a length and zero-padded data for `bytes`.
use vstd::prelude::*;
use vstd::arithmetic::div_mod::{lemma_div_denominator, lemma_mod_breakdown};

verus! {

/// `256` to the power `n`.
pub open spec fn pow256(n: nat) -> nat
    decreases n,
{
    if n == 0 {
        1
    } else {
        256 * pow256((n - 1) as nat)
    }
}

/// The `n` low bytes of `v`, most significant first.
pub open spec fn be_bytes(v: nat, n: nat) -> Seq<u8>
    decreases n,
{
    if n == 0 {
        seq![]
    } else {
        be_bytes(v / 256, (n - 1) as nat).push((v % 256) as u8)
    }
}

/// The number that the bytes `s` spell, most significant first.
pub open spec fn be_value(s: Seq<u8>) -> nat
    decreases s.len(),
{
    if s.len() == 0 {
        0
    } else {
        be_value(s.drop_last()) * 256 + (s.last() as nat)
    }
}

/// A 32-byte word holding `v`.
pub open spec fn word(v: nat) -> Seq<u8> {
    be_bytes(v, 32)
}

/// `k` zero bytes.
pub open spec fn zeros(k: nat) -> Seq<u8> {
    Seq::new(k, |i: int| 0u8)
}

/// The zero bytes that bring `len` bytes up to a multiple of 32.
pub open spec fn padding(len: nat) -> nat {
    if len % 32 == 0 {
        0
    } else {
        (32 - len % 32) as nat
    }
}

/// The encoding of a single `bytes` value: the offset of its data (32), its length, then the
/// bytes padded with zeros to a multiple of 32.
pub open spec fn bytes_encoding(b: Seq<u8>) -> Seq<u8> {
    word(32) + word(b.len()) + b + zeros(padding(b.len()))
}

/// The `i`-th 32-byte argument of call data `input`, after its 4-byte selector.
pub open spec fn argument(input: Seq<u8>, i: nat) -> Seq<u8> {
    input.subrange(4 + 32 * i as int, 4 + 32 * i as int + 32)
}

/// The address that a 32-byte word holds: its last 20 bytes.
pub open spec fn word_address(w: Seq<u8>) -> Seq<u8> {
    w.subrange(12, 32)
}

/// The `u128` that a 32-byte word holds: the value of its last 16 bytes.
pub open spec fn word_u128(w: Seq<u8>) -> nat {
    be_value(w.subrange(16, 32))
}

pub proof fn lemma_pow256_positive(n: nat)
    ensures
        pow256(n) > 0,
    decreases n,
{
    if n > 0 {
        lemma_pow256_positive((n - 1) as nat);
    }
}

pub proof fn lemma_be_bytes_len(v: nat, n: nat)
    ensures
        be_bytes(v, n).len() == n,
    decreases n,
{
    if n > 0 {
        lemma_be_bytes_len(v / 256, (n - 1) as nat);
    }
}

/// The bytes of `v` spell `v` modulo `256^n`.
pub proof fn lemma_be_value_of_bytes(v: nat, n: nat)
    ensures
        be_value(be_bytes(v, n)) == v % pow256(n),
    decreases n,
{
    lemma_pow256_positive(n);
    if n > 0 {
        lemma_be_value_of_bytes(v / 256, (n - 1) as nat);
        let s = be_bytes(v, n);
        assert(s.drop_last() =~= be_bytes(v / 256, (n - 1) as nat));
        lemma_pow256_positive((n - 1) as nat);
        lemma_mod_breakdown(v as int, 256, pow256((n - 1) as nat) as int);
        assert(be_value(s) == ((v / 256) % pow256((n - 1) as nat)) * 256 + v % 256) by (nonlinear_arith)
            requires
                be_value(s) == be_value(s.drop_last()) * 256 + (v % 256) as u8,
                be_value(s.drop_last()) == (v / 256) % pow256((n - 1) as nat),
                v % 256 < 256,
        ;
    }
}

/// What `n` bytes spell is below `256^n`.
pub proof fn lemma_be_value_bound(s: Seq<u8>)
    ensures
        be_value(s) < pow256(s.len()),
    decreases s.len(),
{
    if s.len() > 0 {
        lemma_be_value_bound(s.drop_last());
        let p = pow256((s.len() - 1) as nat);
        let a = be_value(s.drop_last());
        let b = s.last();
        assert(a * 256 + b < 256 * p) by (nonlinear_arith)
            requires
                a < p,
                b < 256,
        ;
    }
}

/// Splitting the bytes of `v`: the high `n` bytes of `n + k` are those of `v / 256^k`.
pub proof fn lemma_be_bytes_split(v: nat, n: nat, k: nat)
    ensures
        be_bytes(v, n + k) =~= be_bytes(v / pow256(k), n) + be_bytes(v, k),
    decreases k,
{
    lemma_pow256_positive(k);
    if k > 0 {
        lemma_be_bytes_split(v / 256, n, (k - 1) as nat);
        lemma_pow256_positive((k - 1) as nat);
        lemma_div_denominator(v as int, 256, pow256((k - 1) as nat) as int);
        assert((v / 256) / pow256((k - 1) as nat) == v / pow256(k));
        assert(((n + k) - 1) as nat == n + (k - 1) as nat);
        assert(be_bytes(v, n + k) == be_bytes(v / 256, (n + k - 1) as nat).push((v % 256) as u8));
        assert(be_bytes(v, k) == be_bytes(v / 256, (k - 1) as nat).push((v % 256) as u8));
        assert(be_bytes(v / 256, (n + k - 1) as nat) =~= be_bytes(v / pow256(k), n) + be_bytes(
            v / 256,
            (k - 1) as nat,
        ));
        assert((be_bytes(v / pow256(k), n) + be_bytes(v / 256, (k - 1) as nat)).push(
            (v % 256) as u8,
        ) =~= be_bytes(v / pow256(k), n) + be_bytes(v / 256, (k - 1) as nat).push(
            (v % 256) as u8,
        ));
    } else {
        assert(pow256(0) == 1);
        assert(v / 1 == v);
        assert(be_bytes(v, 0) =~= seq![]);
    }
}

/// The bytes of 0 are zeros.
pub proof fn lemma_be_bytes_zero(n: nat)
    ensures
        be_bytes(0, n) =~= zeros(n),
    decreases n,
{
    if n > 0 {
        lemma_be_bytes_zero((n - 1) as nat);
    }
}

pub proof fn lemma_pow256_16()
    ensures
        pow256(16) == 0x1_0000_0000_0000_0000_0000_0000_0000_0000,
{
    reveal_with_fuel(pow256, 17);
}

/// Appends the `n` low bytes of `v` to `out`, most significant first.
fn push_be_bytes(out: &mut Vec<u8>, v: u128, n: usize)
    ensures
        final(out)@ == old(out)@ + be_bytes(v as nat, n as nat),
    decreases n,
{
    if n > 0 {
        push_be_bytes(out, v / 256, n - 1);
        out.push((v % 256) as u8);
        assert(final(out)@ =~= old(out)@ + be_bytes(v as nat, n as nat));
    } else {
        assert(final(out)@ =~= old(out)@ + be_bytes(v as nat, n as nat));
    }
}

/// The 32-byte word that holds `value`, most significant byte first.
pub fn encode_uint(value: u128) -> (encoded: Vec<u8>)
    ensures
        encoded@ == word(value as nat),
{
    let mut encoded: Vec<u8> = Vec::new();
    push_be_bytes(&mut encoded, value, 32);
    assert(encoded@ =~= word(value as nat));
    encoded
}

/// The 32-byte word of a boolean: 1 for `true`, 0 for `false`.
pub fn encode_bool(value: bool) -> (encoded: Vec<u8>)
    ensures
        encoded@ == word(if value { 1 } else { 0 }),
{
    encode_uint(if value { 1 } else { 0 })
}

/// The encoding of one `bytes` value: its offset, its length, then its data padded with
/// zeros to a multiple of 32.
pub fn encode_bytes(b: &[u8]) -> (encoded: Vec<u8>)
    ensures
        encoded@ == bytes_encoding(b@),
        encoded@.len() % 32 == 0,
{
    let mut encoded: Vec<u8> = Vec::new();
    push_be_bytes(&mut encoded, 32, 32);
    push_be_bytes(&mut encoded, b.len() as u128, 32);
    let ghost head = encoded@;
    let mut i: usize = 0;
    while i < b.len()
        invariant
            i <= b@.len(),
            encoded@ == head + b@.subrange(0, i as int),
        decreases b@.len() - i,
    {
        encoded.push(b[i]);
        i = i + 1;
        assert(encoded@ =~= head + b@.subrange(0, i as int));
    }
    let pad: usize = if b.len() % 32 == 0 {
        0
    } else {
        32 - b.len() % 32
    };
    let ghost body = encoded@;
    let mut j: usize = 0;
    while j < pad
        invariant
            j <= pad,
            pad == padding(b@.len()),
            encoded@ == body + zeros(j as nat),
        decreases pad - j,
    {
        encoded.push(0);
        j = j + 1;
        assert(encoded@ =~= body + zeros(j as nat));
    }
    proof {
        assert(b@.subrange(0, b@.len() as int) =~= b@);
        assert(encoded@ =~= bytes_encoding(b@));
        lemma_be_bytes_len(32, 32);
        lemma_be_bytes_len(b@.len(), 32);
        assert(encoded@.len() == 64 + b@.len() + padding(b@.len()));
    }
    encoded
}

/// The address in argument `index` of call data `input`: the last 20 bytes of that word.
pub fn read_address(input: &[u8], index: usize) -> (address: [u8; 20])
    requires
        4 + 32 * index + 32 <= input.len(),
    ensures
        address@ == word_address(argument(input@, index as nat)),
{
    let start = 4 + 32 * index + 12;
    let mut address = [0u8; 20];
    let mut i: usize = 0;
    while i < 20
        invariant
            i <= 20,
            start == 4 + 32 * index + 12,
            start + 20 <= input.len(),
            forall|k: int| 0 <= k < i ==> address@[k] == input@[start + k],
        decreases 20 - i,
    {
        address[i] = input[start + i];
        i = i + 1;
    }
    assert(address@ =~= word_address(argument(input@, index as nat)));
    address
}

/// The `u128` in argument `index` of call data `input`: the value of the last 16 bytes of the
/// word; the 16 bytes ahead of them are not read.
pub fn read_u128(input: &[u8], index: usize) -> (value: u128)
    requires
        4 + 32 * index + 32 <= input.len(),
    ensures
        value == word_u128(argument(input@, index as nat)),
{
    let start = 4 + 32 * index + 16;
    let ghost bytes = input@.subrange(start as int, start + 16);
    let mut value: u128 = 0;
    let mut i: usize = 0;
    while i < 16
        invariant
            i <= 16,
            start == 4 + 32 * index + 16,
            start + 16 <= input.len(),
            bytes == input@.subrange(start as int, start + 16),
            value == be_value(bytes.subrange(0, i as int)),
        decreases 16 - i,
    {
        let ghost prefix = bytes.subrange(0, i + 1);
        proof {
            assert(prefix.drop_last() =~= bytes.subrange(0, i as int));
            lemma_be_value_bound(prefix);
            lemma_pow256_16();
            assert(pow256(prefix.len()) <= pow256(16)) by {
                lemma_pow256_monotonic(prefix.len(), 16);
            }
        }
        value = value * 256 + input[start + i] as u128;
        i = i + 1;
    }
    assert(bytes.subrange(0, 16) =~= argument(input@, index as nat).subrange(16, 32));
    value
}

pub proof fn lemma_pow256_monotonic(a: nat, b: nat)
    requires
        a <= b,
    ensures
        pow256(a) <= pow256(b),
    decreases b,
{
    if a < b {
        lemma_pow256_monotonic(a, (b - 1) as nat);
        lemma_pow256_positive((b - 1) as nat);
    }
}

/// A word holds 32 bytes, which spell the value written when it fits in 128 bits.
pub proof fn lemma_word_value(n: nat)
    requires
        n <= u128::MAX,
    ensures
        word(n).len() == 32,
        be_value(word(n)) == n,
{
    lemma_be_bytes_len(n, 32);
    lemma_be_value_of_bytes(n, 32);
    lemma_pow256_16();
    lemma_pow256_monotonic(16, 32);
    vstd::arithmetic::div_mod::lemma_small_mod(n, pow256(32));
}

/// Reading back: the `u128` that a word written by [`encode_uint`] holds is the value written,
/// and the 16 bytes ahead of it are zeros.
pub proof fn law_u128_word_roundtrip(v: u128)
    ensures
        word_u128(word(v as nat)) == v,
        word(v as nat).subrange(0, 16) == zeros(16),
{
    lemma_be_bytes_split(v as nat, 16, 16);
    lemma_pow256_16();
    assert((v as nat) / pow256(16) == 0);
    lemma_be_bytes_zero(16);
    lemma_be_bytes_len(0, 16);
    lemma_be_bytes_len(v as nat, 16);
    let w = word(v as nat);
    assert(w =~= zeros(16) + be_bytes(v as nat, 16));
    assert(w.subrange(16, 32) =~= be_bytes(v as nat, 16));
    assert(w.subrange(0, 16) =~= zeros(16));
    lemma_be_value_of_bytes(v as nat, 16);
}

} // verus!
