//! MAC addresses: which of a machine's addresses identifies it, and how an
//! address is written.

use crate::text::push_char;
use vstd::prelude::*;

verus! {

/// Lower-case hexadecimal digits.
pub open spec fn hex_digits() -> Seq<char> {
    seq!['0', '1', '2', '3', '4', '5', '6', '7', '8', '9', 'a', 'b', 'c', 'd', 'e', 'f']
}

/// A byte as two lower-case hexadecimal digits.
pub open spec fn hex_byte(b: u8) -> Seq<char> {
    seq![hex_digits()[(b / 16) as int], hex_digits()[(b % 16) as int]]
}

/// An address as lower-case, colon-separated hexadecimal.
pub open spec fn mac_text(b: [u8; 6]) -> Seq<char> {
    hex_byte(b[0]) + seq![':'] + hex_byte(b[1]) + seq![':'] + hex_byte(b[2]) + seq![':']
        + hex_byte(b[3]) + seq![':'] + hex_byte(b[4]) + seq![':'] + hex_byte(b[5])
}

/// The address read as a 48-bit big-endian number; its order is the
/// lexicographic order of the bytes.
pub open spec fn mac_value(b: [u8; 6]) -> int {
    b[0] * 0x100_0000_0000 + b[1] * 0x1_0000_0000 + b[2] * 0x100_0000 + b[3] * 0x1_0000
        + b[4] * 0x100 + b[5]
}

/// The all-zero placeholder address.
pub open spec fn is_zero_mac(b: [u8; 6]) -> bool {
    b[0] == 0 && b[1] == 0 && b[2] == 0 && b[3] == 0 && b[4] == 0 && b[5] == 0
}

/// An address that may identify the machine: not the all-zero placeholder and
/// not a multicast address (least significant bit of the first octet set).
pub open spec fn is_usable_mac(b: [u8; 6]) -> bool {
    !is_zero_mac(b) && b[0] & 1 == 0
}

/// A universally administered (hardware) address: the second least
/// significant bit of the first octet is clear.
pub open spec fn is_universal_mac(b: [u8; 6]) -> bool {
    b[0] & 2 == 0
}

/// A usable address, and a universal one where `universal_only`.
pub open spec fn is_candidate(b: [u8; 6], universal_only: bool) -> bool {
    is_usable_mac(b) && (universal_only ==> is_universal_mac(b))
}

/// The least candidate in `addrs`, if there is one.
pub open spec fn least_candidate(addrs: Seq<[u8; 6]>, universal_only: bool) -> Option<[u8; 6]>
    decreases addrs.len(),
{
    if addrs.len() == 0 {
        None
    } else {
        let rest = least_candidate(addrs.drop_last(), universal_only);
        let b = addrs.last();
        if !is_candidate(b, universal_only) {
            rest
        } else {
            match rest {
                None => Some(b),
                Some(r) => if mac_value(b) < mac_value(r) {
                    Some(b)
                } else {
                    Some(r)
                },
            }
        }
    }
}

/// The address that identifies the machine, and whether it is universal: the
/// least universal usable address if there is one, else the least usable one.
pub open spec fn preferred_mac(addrs: Seq<[u8; 6]>) -> Option<([u8; 6], bool)> {
    match least_candidate(addrs, true) {
        Some(m) => Some((m, true)),
        None => match least_candidate(addrs, false) {
            Some(m) => Some((m, false)),
            None => None,
        },
    }
}

/// `m` is a candidate in `addrs` and no candidate in `addrs` is smaller.
pub open spec fn is_least_candidate(addrs: Seq<[u8; 6]>, universal_only: bool, m: [u8; 6]) -> bool {
    &&& addrs.contains(m)
    &&& is_candidate(m, universal_only)
    &&& forall|x: [u8; 6]|
        addrs.contains(x) && is_candidate(x, universal_only) ==> mac_value(m) <= mac_value(x)
}

/// `addrs` holds a candidate.
pub open spec fn has_candidate(addrs: Seq<[u8; 6]>, universal_only: bool) -> bool {
    exists|x: [u8; 6]| addrs.contains(x) && is_candidate(x, universal_only)
}

/// Distinct addresses have distinct values.
pub proof fn lemma_mac_value_injective(a: [u8; 6], b: [u8; 6])
    requires
        mac_value(a) == mac_value(b),
    ensures
        a == b,
{
    let ra1 = a[1] * 0x1_0000_0000 + a[2] * 0x100_0000 + a[3] * 0x1_0000 + a[4] * 0x100 + a[5];
    let rb1 = b[1] * 0x1_0000_0000 + b[2] * 0x100_0000 + b[3] * 0x1_0000 + b[4] * 0x100 + b[5];
    assert(0 <= ra1 < 0x100_0000_0000 && 0 <= rb1 < 0x100_0000_0000);
    assert(a[0] == b[0]);
    let ra2 = a[2] * 0x100_0000 + a[3] * 0x1_0000 + a[4] * 0x100 + a[5];
    let rb2 = b[2] * 0x100_0000 + b[3] * 0x1_0000 + b[4] * 0x100 + b[5];
    assert(0 <= ra2 < 0x1_0000_0000 && 0 <= rb2 < 0x1_0000_0000);
    assert(a[1] == b[1]);
    let ra3 = a[3] * 0x1_0000 + a[4] * 0x100 + a[5];
    let rb3 = b[3] * 0x1_0000 + b[4] * 0x100 + b[5];
    assert(0 <= ra3 < 0x100_0000 && 0 <= rb3 < 0x100_0000);
    assert(a[2] == b[2]);
    assert(a[3] == b[3]);
    assert(a[4] == b[4]);
    assert(a[5] == b[5]);
    assert(a@ =~= b@);
    vstd::array::axiom_array_ext_equal(a, b);
}

proof fn lemma_least_candidate_is_least(addrs: Seq<[u8; 6]>, universal_only: bool)
    ensures
        match least_candidate(addrs, universal_only) {
            Some(m) => is_least_candidate(addrs, universal_only, m),
            None => !has_candidate(addrs, universal_only),
        },
    decreases addrs.len(),
{
    if addrs.len() > 0 {
        let init = addrs.drop_last();
        let b = addrs.last();
        lemma_least_candidate_is_least(init, universal_only);
        assert(addrs =~= init.push(b));
        assert forall|x: [u8; 6]| addrs.contains(x) implies init.contains(x) || x == b by {
            let i: int = choose|i: int| 0 <= i < addrs.len() && addrs[i] == x;
            if i < addrs.len() - 1 {
                assert(init[i] == x);
            }
        }
        assert forall|x: [u8; 6]| init.contains(x) implies addrs.contains(x) by {
            let i: int = choose|i: int| 0 <= i < init.len() && init[i] == x;
            assert(addrs[i] == x);
        }
        assert(addrs[addrs.len() - 1] == b);
    } else {
        assert forall|x: [u8; 6]| !addrs.contains(x) by {}
    }
}

/// `preferred_mac` picks the least universal usable address where there is
/// one, else the least usable address, and nothing where no address is
/// usable.
pub proof fn lemma_preferred_mac_is_least(addrs: Seq<[u8; 6]>)
    ensures
        match preferred_mac(addrs) {
            Some((m, true)) => is_least_candidate(addrs, true, m),
            Some((m, false)) => !has_candidate(addrs, true) && is_least_candidate(addrs, false, m),
            None => !has_candidate(addrs, false),
        },
{
    lemma_least_candidate_is_least(addrs, true);
    lemma_least_candidate_is_least(addrs, false);
}

proof fn lemma_least_candidate_unique(
    a: Seq<[u8; 6]>,
    b: Seq<[u8; 6]>,
    universal_only: bool,
)
    requires
        forall|x: [u8; 6]| a.contains(x) <==> b.contains(x),
    ensures
        least_candidate(a, universal_only) == least_candidate(b, universal_only),
{
    lemma_least_candidate_is_least(a, universal_only);
    lemma_least_candidate_is_least(b, universal_only);
    match (least_candidate(a, universal_only), least_candidate(b, universal_only)) {
        (Some(m), Some(n)) => {
            assert(mac_value(m) <= mac_value(n));
            assert(mac_value(n) <= mac_value(m));
            lemma_mac_value_injective(m, n);
        },
        (Some(m), None) => {
            assert(b.contains(m));
        },
        (None, Some(n)) => {
            assert(a.contains(n));
        },
        (None, None) => {},
    }
}

/// The identifying address depends only on which addresses the machine has,
/// not on the order in which they are listed nor on repetitions.
pub proof fn lemma_preferred_mac_order_independent(a: Seq<[u8; 6]>, b: Seq<[u8; 6]>)
    requires
        forall|x: [u8; 6]| a.contains(x) <==> b.contains(x),
    ensures
        preferred_mac(a) == preferred_mac(b),
{
    lemma_least_candidate_unique(a, b, true);
    lemma_least_candidate_unique(a, b, false);
}

/// The value of a lower-case hexadecimal digit.
pub open spec fn hex_digit_value(c: char) -> int {
    if '0' <= c <= '9' {
        c as int - '0' as int
    } else {
        c as int - 'a' as int + 10
    }
}

/// The byte written by the two hexadecimal digits at group `k` of a formatted
/// address.
pub open spec fn text_byte(t: Seq<char>, k: int) -> int {
    hex_digit_value(t[3 * k]) * 16 + hex_digit_value(t[3 * k + 1])
}

/// Lexicographic order of character sequences, as strings compare.
pub open spec fn text_lt(s: Seq<char>, t: Seq<char>) -> bool
    decreases s.len(),
{
    if s.len() == 0 || t.len() == 0 {
        s.len() == 0 && t.len() > 0
    } else if s[0] == t[0] {
        text_lt(s.drop_first(), t.drop_first())
    } else {
        s[0] < t[0]
    }
}

proof fn lemma_hex_digit_code(i: int)
    requires
        0 <= i < 16,
    ensures
        hex_digits()[i] as int == if i < 10 {
            48 + i
        } else {
            87 + i
        },
        hex_digit_value(hex_digits()[i]) == i,
{
}

/// Each group of two hexadecimal digits in a formatted address reads back to
/// its byte, and the groups are separated by colons.
pub proof fn lemma_mac_text_reads_back(b: [u8; 6])
    ensures
        mac_text(b).len() == 17,
        forall|k: int| 0 <= k < 6 ==> #[trigger] text_byte(mac_text(b), k) == b[k],
        forall|k: int| 0 <= k < 5 ==> #[trigger] mac_text(b)[3 * k + 2] == ':',
{
    let t = mac_text(b);
    assert forall|k: int| 0 <= k < 6 implies #[trigger] text_byte(t, k) == b[k] by {
        let x = b[k];
        lemma_hex_digit_code((x / 16) as int);
        lemma_hex_digit_code((x % 16) as int);
        assert(t[3 * k] == hex_digits()[(x / 16) as int]);
        assert(t[3 * k + 1] == hex_digits()[(x % 16) as int]);
    }
}

/// Distinct addresses are formatted differently.
pub proof fn lemma_mac_text_injective(a: [u8; 6], b: [u8; 6])
    requires
        mac_text(a) == mac_text(b),
    ensures
        a == b,
{
    lemma_mac_text_reads_back(a);
    lemma_mac_text_reads_back(b);
    assert forall|k: int| 0 <= k < 6 implies a[k] == b[k] by {
        assert(text_byte(mac_text(a), k) == a[k]);
        assert(text_byte(mac_text(b), k) == b[k]);
    }
    assert(a@ =~= b@);
    vstd::array::axiom_array_ext_equal(a, b);
}

/// The formatted bytes from group `k` on.
spec fn mac_tail(b: [u8; 6], k: nat) -> Seq<char>
    decreases 5 - k,
{
    if k >= 5 {
        hex_byte(b[5])
    } else {
        hex_byte(b[k as int]) + (seq![':'] + mac_tail(b, k + 1))
    }
}

/// Lexicographic order of the bytes from index `k` on.
spec fn bytes_lt_from(a: [u8; 6], b: [u8; 6], k: nat) -> bool
    decreases 5 - k,
{
    if k >= 5 {
        a[5] < b[5]
    } else {
        a[k as int] < b[k as int] || (a[k as int] == b[k as int] && bytes_lt_from(a, b, k + 1))
    }
}

proof fn lemma_text_lt_common_prefix(p: Seq<char>, s: Seq<char>, t: Seq<char>)
    ensures
        text_lt(p + s, p + t) == text_lt(s, t),
    decreases p.len(),
{
    if p.len() > 0 {
        lemma_text_lt_common_prefix(p.drop_first(), s, t);
        assert((p + s).drop_first() =~= p.drop_first() + s);
        assert((p + t).drop_first() =~= p.drop_first() + t);
    } else {
        assert(p + s =~= s);
        assert(p + t =~= t);
    }
}

proof fn lemma_text_lt_hex_byte(x: u8, y: u8, s: Seq<char>, t: Seq<char>)
    ensures
        text_lt(hex_byte(x) + s, hex_byte(y) + t) == (x < y || (x == y && text_lt(s, t))),
{
    if x == y {
        lemma_text_lt_common_prefix(hex_byte(x), s, t);
    } else {
        let hi_x = (x / 16) as int;
        let hi_y = (y / 16) as int;
        let lo_x = (x % 16) as int;
        let lo_y = (y % 16) as int;
        lemma_hex_digit_code(hi_x);
        lemma_hex_digit_code(hi_y);
        lemma_hex_digit_code(lo_x);
        lemma_hex_digit_code(lo_y);
        let u = hex_byte(x) + s;
        let v = hex_byte(y) + t;
        assert(u[0] == hex_digits()[hi_x]);
        assert(v[0] == hex_digits()[hi_y]);
        assert(x == hi_x * 16 + lo_x);
        assert(y == hi_y * 16 + lo_y);
        if hi_x == hi_y {
            assert(u[0] == v[0]);
            assert(text_lt(u, v) == text_lt(u.drop_first(), v.drop_first()));
            assert(u.drop_first()[0] == hex_digits()[lo_x]);
            assert(v.drop_first()[0] == hex_digits()[lo_y]);
            assert(lo_x != lo_y);
            assert(u.drop_first()[0] != v.drop_first()[0]);
            assert(text_lt(u.drop_first(), v.drop_first()) == (lo_x < lo_y));
        } else {
            assert(u[0] != v[0]);
            assert(text_lt(u, v) == (hi_x < hi_y));
        }
    }
}

proof fn lemma_mac_tail_order(a: [u8; 6], b: [u8; 6], k: nat)
    requires
        k <= 5,
    ensures
        text_lt(mac_tail(a, k), mac_tail(b, k)) == bytes_lt_from(a, b, k),
    decreases 5 - k,
{
    if k == 5 {
        lemma_text_lt_hex_byte(a[5], b[5], seq![], seq![]);
        assert(hex_byte(a[5]) + Seq::<char>::empty() =~= hex_byte(a[5]));
        assert(hex_byte(b[5]) + Seq::<char>::empty() =~= hex_byte(b[5]));
    } else {
        lemma_mac_tail_order(a, b, k + 1);
        lemma_text_lt_common_prefix(seq![':'], mac_tail(a, k + 1), mac_tail(b, k + 1));
        lemma_text_lt_hex_byte(
            a[k as int],
            b[k as int],
            seq![':'] + mac_tail(a, k + 1),
            seq![':'] + mac_tail(b, k + 1),
        );
    }
}

/// Formatted addresses compare as strings in the order of the addresses: the
/// least address has the least text.
pub proof fn lemma_mac_text_order(a: [u8; 6], b: [u8; 6])
    ensures
        mac_value(a) < mac_value(b) <==> text_lt(mac_text(a), mac_text(b)),
{
    reveal_with_fuel(mac_tail, 6);
    reveal_with_fuel(bytes_lt_from, 6);
    assert(mac_text(a) =~= mac_tail(a, 0));
    assert(mac_text(b) =~= mac_tail(b, 0));
    lemma_mac_tail_order(a, b, 0);
    assert(mac_value(a) < mac_value(b) <==> bytes_lt_from(a, b, 0));
}

/// Which addresses the choice may take, in terms of the bits of the first
/// octet: not all-zero, and the multicast bit (bit 0) clear.
pub open spec fn usable_by_bits(x: [u8; 6]) -> bool {
    &&& (x[0] != 0 || x[1] != 0 || x[2] != 0 || x[3] != 0 || x[4] != 0 || x[5] != 0)
    &&& x[0] & 1 == 0
}

/// The universal/local bit decides the choice: an address whose first octet
/// has bit 1 clear counts as universally administered whatever its other
/// bits. Where the list holds a usable such address, the choice is universal,
/// has that bit clear, and is no larger than the address; the choice is
/// reported as local only where every usable address has the bit set; and
/// whatever is chosen is a usable address of the list.
pub proof fn lemma_universal_bit_decides(addrs: Seq<[u8; 6]>)
    ensures
        forall|x: [u8; 6]|
            addrs.contains(x) && usable_by_bits(x) && x[0] & 2 == 0 ==> (preferred_mac(addrs) matches Some(
                (m, u),
            ) && u && m[0] & 2 == 0 && mac_value(m) <= mac_value(x)),
        preferred_mac(addrs) matches Some((m, false)) ==> forall|x: [u8; 6]|
            addrs.contains(x) && usable_by_bits(x) ==> x[0] & 2 != 0,
        preferred_mac(addrs) matches Some((m, u)) ==> addrs.contains(m) && usable_by_bits(m),
        preferred_mac(addrs) is None <==> forall|x: [u8; 6]|
            addrs.contains(x) ==> !usable_by_bits(x),
{
    lemma_preferred_mac_is_least(addrs);
    assert forall|x: [u8; 6]| usable_by_bits(x) <==> is_usable_mac(x) by {}
    assert forall|x: [u8; 6]|
        addrs.contains(x) && usable_by_bits(x) && x[0] & 2 == 0 implies (preferred_mac(
            addrs,
        ) matches Some((m, u)) && u && m[0] & 2 == 0 && mac_value(m) <= mac_value(x)) by {
        assert(is_candidate(x, true));
    }
    if preferred_mac(addrs) is None {
        assert forall|x: [u8; 6]| addrs.contains(x) implies !usable_by_bits(x) by {
            if usable_by_bits(x) {
                assert(is_candidate(x, false));
            }
        }
    }
    if preferred_mac(addrs) matches Some((m, false)) {
        assert forall|x: [u8; 6]| addrs.contains(x) && usable_by_bits(x) implies x[0] & 2 != 0 by {
            if x[0] & 2 == 0 {
                assert(is_candidate(x, true));
            }
        }
    }
}

/// Appends the two hexadecimal digits of `x`.
fn push_hex_byte(s: &mut String, x: u8)
    ensures
        final(s)@ == old(s)@ + hex_byte(x),
{
    let digits: [char; 16] = [
        '0', '1', '2', '3', '4', '5', '6', '7', '8', '9', 'a', 'b', 'c', 'd', 'e', 'f',
    ];
    assert(digits@ =~= hex_digits());
    push_char(s, digits[(x / 16) as usize]);
    push_char(s, digits[(x % 16) as usize]);
    assert(final(s)@ =~= old(s)@ + hex_byte(x));
}

/// Formats a MAC address as lower-case, colon-separated hexadecimal.
pub fn format_mac(b: &[u8; 6]) -> (s: String)
    ensures
        s@ == mac_text(*b),
        s@.len() == 17,
{
    let mut s = String::new();
    push_hex_byte(&mut s, b[0]);
    push_char(&mut s, ':');
    push_hex_byte(&mut s, b[1]);
    push_char(&mut s, ':');
    push_hex_byte(&mut s, b[2]);
    push_char(&mut s, ':');
    push_hex_byte(&mut s, b[3]);
    push_char(&mut s, ':');
    push_hex_byte(&mut s, b[4]);
    push_char(&mut s, ':');
    push_hex_byte(&mut s, b[5]);
    assert(s@ =~= mac_text(*b));
    s
}

/// The address as a number, for comparisons.
fn mac_key(b: &[u8; 6]) -> (k: u64)
    ensures
        k == mac_value(*b),
{
    b[0] as u64 * 0x100_0000_0000 + b[1] as u64 * 0x1_0000_0000 + b[2] as u64 * 0x100_0000
        + b[3] as u64 * 0x1_0000 + b[4] as u64 * 0x100 + b[5] as u64
}

fn is_candidate_exec(b: &[u8; 6], universal_only: bool) -> (r: bool)
    ensures
        r == is_candidate(*b, universal_only),
{
    let zero = b[0] == 0 && b[1] == 0 && b[2] == 0 && b[3] == 0 && b[4] == 0 && b[5] == 0;
    let usable = !zero && b[0] & 0x01 == 0;
    usable && (!universal_only || b[0] & 0x02 == 0)
}

/// The least candidate in `addrs`.
fn find_least_candidate(addrs: &Vec<[u8; 6]>, universal_only: bool) -> (r: Option<[u8; 6]>)
    ensures
        r == least_candidate(addrs@, universal_only),
{
    let mut best: Option<[u8; 6]> = None;
    let mut i: usize = 0;
    while i < addrs.len()
        invariant
            i <= addrs@.len(),
            best == least_candidate(addrs@.take(i as int), universal_only),
        decreases addrs@.len() - i,
    {
        let b = addrs[i];
        assert(addrs@.take(i + 1).drop_last() =~= addrs@.take(i as int));
        assert(addrs@.take(i + 1).last() == b);
        if is_candidate_exec(&b, universal_only) {
            match best {
                None => {
                    best = Some(b);
                },
                Some(r) => {
                    if mac_key(&b) < mac_key(&r) {
                        best = Some(b);
                    }
                },
            }
        }
        i += 1;
    }
    assert(addrs@.take(addrs@.len() as int) =~= addrs@);
    best
}

/// Picks the address that identifies the machine among `addrs`: the least
/// universally administered usable address where there is one, else the least
/// usable address. Returns it formatted, with whether it is universal.
pub fn choose_mac(addrs: &Vec<[u8; 6]>) -> (r: Option<(String, bool)>)
    ensures
        match (r, preferred_mac(addrs@)) {
            (None, None) => true,
            (Some((s, u)), Some((m, v))) => s@ == mac_text(m) && u == v,
            _ => false,
        },
{
    match find_least_candidate(addrs, true) {
        Some(m) => Some((format_mac(&m), true)),
        None => match find_least_candidate(addrs, false) {
            Some(m) => Some((format_mac(&m), false)),
            None => None,
        },
    }
}

} // verus!
