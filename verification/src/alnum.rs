//! Deterministic derivation of fixed-length alphanumeric strings from seed
//! material and a context label.
//!
//! Blocks of SHA-256 output are produced for the counters 0, 1, 2, ...; each
//! block hashes a domain tag, the length-prefixed context, the big-endian
//! counter and the seed. Bytes below 248 (four times the alphabet's size) are
//! mapped onto the 62-character alphabet, the others are rejected, so that no
//! character is favoured.

use crate::digest::{sha256, sha256_digest};
use crate::text::push_char;
use vstd::prelude::*;
use vstd::utf8::encode_utf8;

verus! {

/// How many blocks the derivation may use: the block counter is a `u32` that
/// is incremented after every block.
pub const BLOCK_LIMIT: u32 = 0xffff_ffff;

/// Bytes at or above this value are rejected.
pub const REJECT_THRESHOLD: u8 = 248;

/// The output alphabet: upper-case letters, lower-case letters, digits.
pub open spec fn alphabet() -> Seq<char> {
    seq![
        'A', 'B', 'C', 'D', 'E', 'F', 'G', 'H', 'I', 'J', 'K', 'L', 'M',
        'N', 'O', 'P', 'Q', 'R', 'S', 'T', 'U', 'V', 'W', 'X', 'Y', 'Z',
        'a', 'b', 'c', 'd', 'e', 'f', 'g', 'h', 'i', 'j', 'k', 'l', 'm',
        'n', 'o', 'p', 'q', 'r', 's', 't', 'u', 'v', 'w', 'x', 'y', 'z',
        '0', '1', '2', '3', '4', '5', '6', '7', '8', '9',
    ]
}

/// ASCII letters and digits.
pub open spec fn is_ascii_alphanumeric(c: char) -> bool {
    ||| 'A' <= c <= 'Z'
    ||| 'a' <= c <= 'z'
    ||| '0' <= c <= '9'
}

/// Big-endian bytes of a 32-bit number.
pub open spec fn be32(n: nat) -> Seq<u8> {
    seq![
        (n / 0x100_0000) as u8,
        ((n / 0x1_0000) % 0x100) as u8,
        ((n / 0x100) % 0x100) as u8,
        (n % 0x100) as u8,
    ]
}

/// The domain-separation tag at the start of every block.
pub open spec fn domain_tag() -> Seq<u8> {
    encode_utf8("sshx-stable-alnum-v1"@)
}

/// What is hashed for block `counter`: the tag, the context's length
/// (truncated to 32 bits) and bytes, the counter, and the seed.
pub open spec fn block_input(seed: Seq<u8>, context: Seq<u8>, counter: nat) -> Seq<u8> {
    domain_tag() + be32(context.len() % 0x1_0000_0000) + context + be32(counter) + seed
}

/// The characters that a digest contributes: one alphabet character for each
/// byte below the rejection threshold, in order.
pub open spec fn accepted_chars(digest: Seq<u8>) -> Seq<char>
    decreases digest.len(),
{
    if digest.len() == 0 {
        seq![]
    } else {
        let b: u8 = digest.last();
        accepted_chars(digest.drop_last()) + if b < REJECT_THRESHOLD {
            seq![alphabet()[(b % 62) as int]]
        } else {
            seq![]
        }
    }
}

/// The characters that the first `blocks` blocks contribute.
pub open spec fn keystream(seed: Seq<u8>, context: Seq<u8>, blocks: nat) -> Seq<char>
    decreases blocks,
{
    if blocks == 0 {
        seq![]
    } else {
        let prev: nat = (blocks - 1) as nat;
        keystream(seed, context, prev) + accepted_chars(sha256(block_input(seed, context, prev)))
    }
}

/// The derivation of `len` characters finishes within the blocks that the
/// counter can number.
pub open spec fn derivation_fits(seed: Seq<u8>, context: Seq<u8>, len: nat) -> bool {
    keystream(seed, context, BLOCK_LIMIT as nat).len() >= len
}

/// The `len` characters derived from `seed` under `context`: the first `len`
/// characters of the keystream.
pub open spec fn derived(seed: Seq<u8>, context: Seq<u8>, len: nat) -> Seq<char> {
    keystream(seed, context, BLOCK_LIMIT as nat).take(len as int)
}

/// `a` is a prefix of `b`.
pub open spec fn is_prefix(a: Seq<char>, b: Seq<char>) -> bool {
    a.len() <= b.len() && a == b.take(a.len() as int)
}

proof fn lemma_accepted_chars_in_alphabet(d: Seq<u8>)
    ensures
        accepted_chars(d).len() <= d.len(),
        forall|i: int|
            0 <= i < accepted_chars(d).len() ==> alphabet().contains(#[trigger] accepted_chars(d)[i]),
    decreases d.len(),
{
    if d.len() > 0 {
        lemma_accepted_chars_in_alphabet(d.drop_last());
        let b: u8 = d.last();
        if b < REJECT_THRESHOLD {
            assert(alphabet()[(b % 62) as int] == alphabet()[(b % 62) as int]);
        }
        assert forall|i: int| 0 <= i < accepted_chars(d).len() implies alphabet().contains(
            #[trigger] accepted_chars(d)[i],
        ) by {
            if i < accepted_chars(d.drop_last()).len() {
                assert(accepted_chars(d)[i] == accepted_chars(d.drop_last())[i]);
            } else {
                assert(accepted_chars(d)[i] == alphabet()[(b % 62) as int]);
            }
        }
    }
}

/// Every alphabet character is an ASCII letter or digit: the upper-case
/// letters in order, then the lower-case letters, then the digits.
pub proof fn lemma_alphabet_alphanumeric()
    ensures
        alphabet().len() == 62,
        forall|i: int| 0 <= i < 62 ==> is_ascii_alphanumeric(#[trigger] alphabet()[i]),
        forall|i: int|
            0 <= i < 62 ==> #[trigger] alphabet()[i] as int == if i < 26 {
                65 + i
            } else if i < 52 {
                97 + (i - 26)
            } else {
                48 + (i - 52)
            },
{
}

/// The domain tag is the ASCII text `sshx-stable-alnum-v1`.
pub proof fn lemma_domain_tag_bytes()
    ensures
        domain_tag() == seq![
            115u8, 115, 104, 120, 45, 115, 116, 97, 98, 108, 101, 45, 97, 108, 110, 117, 109, 45,
            118, 49,
        ],
{
    reveal_strlit("sshx-stable-alnum-v1");
    let chars = "sshx-stable-alnum-v1"@;
    assert(vstd::utf8::is_ascii_chars(chars));
    vstd::utf8::is_ascii_chars_encode_utf8(chars);
    assert(domain_tag() =~= seq![
        115u8, 115, 104, 120, 45, 115, 116, 97, 98, 108, 101, 45, 97, 108, 110, 117, 109, 45,
        118, 49,
    ]);
}

proof fn lemma_keystream_prefix(seed: Seq<u8>, context: Seq<u8>, n: nat, m: nat)
    requires
        n <= m,
    ensures
        is_prefix(keystream(seed, context, n), keystream(seed, context, m)),
    decreases m,
{
    if n < m {
        lemma_keystream_prefix(seed, context, n, (m - 1) as nat);
        let prev = keystream(seed, context, (m - 1) as nat);
        let k = keystream(seed, context, n);
        assert(keystream(seed, context, m).take(k.len() as int) =~= prev.take(k.len() as int));
    } else {
        assert(keystream(seed, context, n).take(keystream(seed, context, n).len() as int)
            =~= keystream(seed, context, n));
    }
}

proof fn lemma_keystream_alphanumeric(seed: Seq<u8>, context: Seq<u8>, n: nat)
    ensures
        forall|i: int|
            0 <= i < keystream(seed, context, n).len() ==> is_ascii_alphanumeric(
                #[trigger] keystream(seed, context, n)[i],
            ),
    decreases n,
{
    if n > 0 {
        let prev: nat = (n - 1) as nat;
        lemma_keystream_alphanumeric(seed, context, prev);
        let d = sha256(block_input(seed, context, prev));
        lemma_accepted_chars_in_alphabet(d);
        lemma_alphabet_alphanumeric();
        let p = keystream(seed, context, prev);
        assert forall|i: int| 0 <= i < keystream(seed, context, n).len() implies is_ascii_alphanumeric(
            #[trigger] keystream(seed, context, n)[i],
        ) by {
            if i < p.len() {
                assert(keystream(seed, context, n)[i] == p[i]);
            } else {
                let c = accepted_chars(d)[i - p.len()];
                assert(keystream(seed, context, n)[i] == c);
                assert(alphabet().contains(c));
            }
        }
    }
}

/// Derived strings have the requested length and consist of ASCII letters
/// and digits only.
pub proof fn lemma_derived_shape(seed: Seq<u8>, context: Seq<u8>, len: nat)
    requires
        derivation_fits(seed, context, len),
    ensures
        derived(seed, context, len).len() == len,
        forall|i: int|
            0 <= i < len ==> is_ascii_alphanumeric(#[trigger] derived(seed, context, len)[i]),
{
    lemma_keystream_alphanumeric(seed, context, BLOCK_LIMIT as nat);
    let k = keystream(seed, context, BLOCK_LIMIT as nat);
    assert forall|i: int| 0 <= i < len implies is_ascii_alphanumeric(
        #[trigger] derived(seed, context, len)[i],
    ) by {
        assert(derived(seed, context, len)[i] == k[i]);
    }
}

/// The number that four bytes spell, most significant first.
pub open spec fn read_be32(m: Seq<u8>, at: int) -> int {
    m[at] * 0x100_0000 + m[at + 1] * 0x1_0000 + m[at + 2] * 0x100 + m[at + 3]
}

proof fn lemma_be32_reads_back(n: nat)
    requires
        n < 0x1_0000_0000,
    ensures
        be32(n).len() == 4,
        read_be32(be32(n), 0) == n,
{
    let a = n / 0x100_0000;
    let b = (n / 0x1_0000) % 0x100;
    let c = (n / 0x100) % 0x100;
    let d = n % 0x100;
    assert(a < 0x100);
    assert(n == a * 0x100_0000 + b * 0x1_0000 + c * 0x100 + d) by (nonlinear_arith)
        requires
            a == n / 0x100_0000,
            b == (n / 0x1_0000) % 0x100,
            c == (n / 0x100) % 0x100,
            d == n % 0x100,
    ;
    assert(be32(n)[0] == a);
    assert(be32(n)[1] == b);
    assert(be32(n)[2] == c);
    assert(be32(n)[3] == d);
}

/// The message hashed for block `counter` is laid out as: the domain tag, the
/// context's byte length (modulo 2^32) as four big-endian bytes, the context,
/// the counter as four big-endian bytes, and the seed. In particular the
/// counter can be read back from the message.
pub proof fn lemma_block_input_layout(seed: Seq<u8>, context: Seq<u8>, counter: nat)
    requires
        counter < 0x1_0000_0000,
    ensures
        ({
            let m = block_input(seed, context, counter);
            let t = domain_tag().len() as int;
            let c = context.len() as int;
            &&& m.len() == t + 4 + c + 4 + seed.len()
            &&& m.take(t) == domain_tag()
            &&& read_be32(m, t) == context.len() % 0x1_0000_0000
            &&& m.subrange(t + 4, t + 4 + c) == context
            &&& read_be32(m, t + 4 + c) == counter
            &&& m.skip(t + 4 + c + 4) == seed
        }),
{
    let m = block_input(seed, context, counter);
    let t = domain_tag().len() as int;
    let c = context.len() as int;
    let lenbytes = be32(context.len() % 0x1_0000_0000);
    let ctrbytes = be32(counter);
    lemma_be32_reads_back(context.len() % 0x1_0000_0000);
    lemma_be32_reads_back(counter);
    assert(m =~= domain_tag() + lenbytes + context + ctrbytes + seed);
    assert(m.take(t) =~= domain_tag());
    assert(m.subrange(t + 4, t + 4 + c) =~= context);
    assert(m.skip(t + 4 + c + 4) =~= seed);
    assert(forall|i: int| 0 <= i < 4 ==> m[t + i] == lenbytes[i]);
    assert(forall|i: int| 0 <= i < 4 ==> m[t + 4 + c + i] == ctrbytes[i]);
    assert(read_be32(m, t) == read_be32(lenbytes, 0));
    assert(read_be32(m, t + 4 + c) == read_be32(ctrbytes, 0));
}

/// Distinct blocks hash distinct messages: the message for a block determines
/// its counter.
pub proof fn lemma_block_inputs_distinct(seed: Seq<u8>, context: Seq<u8>, k1: nat, k2: nat)
    requires
        k1 < 0x1_0000_0000,
        k2 < 0x1_0000_0000,
        block_input(seed, context, k1) == block_input(seed, context, k2),
    ensures
        k1 == k2,
{
    lemma_block_input_layout(seed, context, k1);
    lemma_block_input_layout(seed, context, k2);
}

/// Each further block appends the characters of the digest of that block's own
/// message to the keystream.
pub proof fn lemma_keystream_step(seed: Seq<u8>, context: Seq<u8>, blocks: nat)
    ensures
        keystream(seed, context, blocks + 1) == keystream(seed, context, blocks)
            + accepted_chars(sha256(block_input(seed, context, blocks))),
        keystream(seed, context, 0) == Seq::<char>::empty(),
{
}

/// Each byte of a digest below 248 contributes the alphabet character at its
/// value modulo 62, the others contribute nothing, and the characters come in
/// the order of the bytes.
pub proof fn lemma_accepted_chars_step(digest: Seq<u8>, b: u8)
    ensures
        b < 248 ==> accepted_chars(digest.push(b)) == accepted_chars(digest).push(
            alphabet()[(b % 62) as int],
        ),
        b >= 248 ==> accepted_chars(digest.push(b)) == accepted_chars(digest),
        accepted_chars(Seq::<u8>::empty()) == Seq::<char>::empty(),
{
    assert(digest.push(b).drop_last() =~= digest);
    assert(accepted_chars(digest) + Seq::<char>::empty() =~= accepted_chars(digest));
    assert(accepted_chars(digest) + seq![alphabet()[(b % 62) as int]] =~= accepted_chars(
        digest,
    ).push(alphabet()[(b % 62) as int]));
}

/// Equal seed material, context and length give equal derivations: the
/// derivation has no other input.
pub proof fn lemma_derivation_deterministic(
    seed1: Seq<u8>,
    context1: Seq<u8>,
    len1: nat,
    seed2: Seq<u8>,
    context2: Seq<u8>,
    len2: nat,
)
    requires
        seed1 == seed2,
        context1 == context2,
        len1 == len2,
    ensures
        derivation_fits(seed1, context1, len1) == derivation_fits(seed2, context2, len2),
        derived(seed1, context1, len1) == derived(seed2, context2, len2),
{
}

/// A shorter derivation is a prefix of a longer one under the same seed and
/// context: the derived characters do not depend on how many are asked for.
pub proof fn lemma_derived_prefix(seed: Seq<u8>, context: Seq<u8>, short: nat, long: nat)
    requires
        short <= long,
        derivation_fits(seed, context, long),
    ensures
        is_prefix(derived(seed, context, short), derived(seed, context, long)),
        derived(seed, context, short) == derived(seed, context, long).take(short as int),
{
    assert(derived(seed, context, short) =~= derived(seed, context, long).take(short as int));
}

/// The derivation equals the first `len` characters of any number of blocks
/// that reaches `len` characters: stopping later changes nothing.
pub proof fn lemma_derived_from_any_sufficient_prefix(
    seed: Seq<u8>,
    context: Seq<u8>,
    len: nat,
    blocks: nat,
)
    requires
        blocks <= BLOCK_LIMIT,
        keystream(seed, context, blocks).len() >= len,
    ensures
        derivation_fits(seed, context, len),
        derived(seed, context, len) == keystream(seed, context, blocks).take(len as int),
{
    lemma_keystream_prefix(seed, context, blocks, BLOCK_LIMIT as nat);
    assert(derived(seed, context, len) =~= keystream(seed, context, blocks).take(len as int));
}

/// Rejection sampling is unbiased: among the accepted bytes (those below
/// 248) each alphabet position is hit by exactly four byte values,
/// `j`, `j + 62`, `j + 124` and `j + 186`.
pub proof fn lemma_rejection_sampling_uniform(j: u8, b: u8)
    requires
        j < 62,
        b < REJECT_THRESHOLD,
    ensures
        b % 62 == j <==> (b == j || b == j + 62 || b == j + 124 || b == j + 186),
{
    assert(b % 62 == j <==> (b == j || b == j + 62 || b == j + 124 || b == j + 186))
        by (bit_vector)
        requires
            j < 62,
            b < 248,
    ;
}

/// The alphabet character at `index`.
fn alphabet_char(index: u8) -> (c: char)
    requires
        index < 62,
    ensures
        c == alphabet()[index as int],
{
    let table: [char; 62] = [
        'A', 'B', 'C', 'D', 'E', 'F', 'G', 'H', 'I', 'J', 'K', 'L', 'M',
        'N', 'O', 'P', 'Q', 'R', 'S', 'T', 'U', 'V', 'W', 'X', 'Y', 'Z',
        'a', 'b', 'c', 'd', 'e', 'f', 'g', 'h', 'i', 'j', 'k', 'l', 'm',
        'n', 'o', 'p', 'q', 'r', 's', 't', 'u', 'v', 'w', 'x', 'y', 'z',
        '0', '1', '2', '3', '4', '5', '6', '7', '8', '9',
    ];
    assert(table@ =~= alphabet());
    table[index as usize]
}

/// Appends the big-endian bytes of `n`.
fn push_be32(m: &mut Vec<u8>, n: u32)
    ensures
        final(m)@ == old(m)@ + be32(n as nat),
{
    m.push((n / 0x100_0000) as u8);
    m.push(((n / 0x1_0000) % 0x100) as u8);
    m.push(((n / 0x100) % 0x100) as u8);
    m.push((n % 0x100) as u8);
    assert(final(m)@ =~= old(m)@ + be32(n as nat));
}

/// Appends the bytes of `s`.
fn push_bytes(m: &mut Vec<u8>, s: &[u8])
    ensures
        final(m)@ == old(m)@ + s@,
{
    let ghost start = m@;
    let mut i: usize = 0;
    while i < s.len()
        invariant
            i <= s@.len(),
            m@ == start + s@.take(i as int),
        decreases s@.len() - i,
    {
        m.push(s[i]);
        i += 1;
        assert(m@ =~= start + s@.take(i as int));
    }
    assert(s@.take(s@.len() as int) =~= s@);
}

/// The message hashed for block `counter`.
fn block_message(seed: &[u8], context: &[u8], counter: u32) -> (m: Vec<u8>)
    ensures
        m@ == block_input(seed@, context@, counter as nat),
{
    let mut m: Vec<u8> = Vec::new();
    push_bytes(&mut m, "sshx-stable-alnum-v1".as_bytes());
    let context_len: u32 = (context.len() as u64 % 0x1_0000_0000) as u32;
    push_be32(&mut m, context_len);
    push_bytes(&mut m, context);
    push_be32(&mut m, counter);
    push_bytes(&mut m, seed);
    assert(m@ =~= block_input(seed@, context@, counter as nat));
    m
}

/// The characters that one digest contributes: for each byte below the
/// rejection threshold, in order, the alphabet character at the byte modulo
/// 62.
pub fn digest_chars(digest: &[u8; 32]) -> (s: String)
    ensures
        s@ == accepted_chars(digest@),
        s@.len() <= 32,
{
    let mut s = String::new();
    let mut i: usize = 0;
    while i < 32
        invariant
            i <= 32,
            digest@.len() == 32,
            s@ == accepted_chars(digest@.take(i as int)),
            s@.len() <= i,
        decreases 32 - i,
    {
        let b: u8 = digest[i];
        assert(digest@.take(i + 1).drop_last() =~= digest@.take(i as int));
        assert(digest@.take(i + 1).last() == b);
        if b < REJECT_THRESHOLD {
            let c = alphabet_char(b % 62);
            push_char(&mut s, c);
        }
        i += 1;
    }
    assert(digest@.take(32) =~= digest@);
    s
}

/// The derivation loop: appends the characters of the blocks 0, 1, 2, ...
/// until `len` characters are there, or gives up where the block counter runs
/// out first.
fn derive(seed_material: &[u8], context: &[u8], len: usize) -> (r: Option<String>)
    ensures
        match r {
            Some(s) => derivation_fits(seed_material@, context@, len as nat) && s@ == derived(
                seed_material@,
                context@,
                len as nat,
            ),
            None => !derivation_fits(seed_material@, context@, len as nat),
        },
{
    let ghost seed = seed_material@;
    let ghost ctx = context@;
    let mut out = String::new();
    let mut count: usize = 0;
    let mut counter: u32 = 0;
    assert(keystream(seed, ctx, 0).take(0) =~= out@);
    while count < len
        invariant
            context@ == ctx,
            seed_material@ == seed,
            count == out@.len(),
            count <= len,
            counter <= BLOCK_LIMIT,
            is_prefix(out@, keystream(seed, ctx, counter as nat)),
            count < len ==> out@ == keystream(seed, ctx, counter as nat),
        decreases BLOCK_LIMIT - counter,
    {
        if counter == BLOCK_LIMIT {
            return None;
        }
        let message = block_message(seed_material, context, counter);
        let digest = sha256_digest(message.as_slice());
        let chars = digest_chars(&digest);
        let n: usize = chars.as_str().unicode_len();
        let remaining: usize = len - count;
        let ghost before = out@;
        if n <= remaining {
            out.append(chars.as_str());
            count += n;
        } else {
            out.append(chars.as_str().substring_char(0, remaining));
            count = len;
        }
        proof {
            let next = keystream(seed, ctx, (counter + 1) as nat);
            assert(next == before + accepted_chars(digest@));
            assert(next.take(out@.len() as int) =~= out@);
        }
        counter += 1;
    }
    proof {
        lemma_keystream_prefix(seed, ctx, counter as nat, BLOCK_LIMIT as nat);
        let full = keystream(seed, ctx, BLOCK_LIMIT as nat);
        let k = keystream(seed, ctx, counter as nat);
        assert(full.take(len as int) =~= k.take(len as int));
    }
    Some(out)
}

/// Derives a `len`-character alphanumeric string from `seed_material` and the
/// context label `context`: the first `len` accepted characters of the blocks
/// for the counters 0, 1, 2, ... The result depends on the arguments alone.
pub fn stable_alphanumeric(seed_material: &[u8], context: &str, len: usize) -> (out: String)
    requires
        derivation_fits(seed_material@, encode_utf8(context@), len as nat),
    ensures
        out@ == derived(seed_material@, encode_utf8(context@), len as nat),
        out@.len() == len,
        forall|i: int| 0 <= i < len ==> is_ascii_alphanumeric(#[trigger] out@[i]),
{
    proof {
        lemma_derived_shape(seed_material@, encode_utf8(context@), len as nat);
    }
    match derive(seed_material, context.as_bytes(), len) {
        Some(s) => s,
        None => String::new(),
    }
}

/// Derives like `stable_alphanumeric` where the derivation finishes within the
/// blocks that the counter can number, and returns `None` where it does not.
pub fn try_stable_alphanumeric(seed_material: &[u8], context: &str, len: usize) -> (out: Option<
    String,
>)
    ensures
        match out {
            Some(s) => derivation_fits(seed_material@, encode_utf8(context@), len as nat) && s@
                == derived(seed_material@, encode_utf8(context@), len as nat),
            None => !derivation_fits(seed_material@, encode_utf8(context@), len as nat),
        },
{
    derive(seed_material, context.as_bytes(), len)
}

} // verus!
