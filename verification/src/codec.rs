//! Byte strings: big-endian numbers, prefixes and the order in which a store keeps its keys.

use byteorder::{ByteOrder, BE};
use vstd::prelude::*;

verus! {

/// The number that `s` spells in base 256, most significant byte first.
pub open spec fn be_value(s: Seq<u8>) -> nat
    decreases s.len(),
{
    if s.len() == 0 {
        0
    } else {
        be_value(s.drop_last()) * 256 + s.last() as nat
    }
}

/// The `width` lowest base-256 digits of `n`, most significant first.
pub open spec fn be_digits(n: nat, width: nat) -> Seq<u8>
    decreases width,
{
    if width == 0 {
        Seq::empty()
    } else {
        be_digits(n / 256, (width - 1) as nat).push((n % 256) as u8)
    }
}

/// The eight bytes under which a number is stored.
pub open spec fn be_bytes(n: u64) -> Seq<u8> {
    be_digits(n as nat, 8)
}

/// Byte strings compare at the first byte in which they differ; a proper prefix comes first.
pub open spec fn lex_lt(a: Seq<u8>, b: Seq<u8>) -> bool {
    exists|k: int| #[trigger] lex_lt_at(a, b, k)
}

/// `a` precedes `b`, and `k` is the first position that tells them apart.
pub open spec fn lex_lt_at(a: Seq<u8>, b: Seq<u8>, k: int) -> bool {
    &&& 0 <= k <= a.len()
    &&& k < b.len()
    &&& a.take(k) == b.take(k)
    &&& k < a.len() ==> a[k] < b[k]
}

/// `s` begins with `prefix`.
pub open spec fn has_prefix(s: Seq<u8>, prefix: Seq<u8>) -> bool {
    prefix.len() <= s.len() && s.take(prefix.len() as int) == prefix
}

/// Calls `byteorder::BigEndian::read_u64`: the big-endian number in the first eight bytes
/// of `buf`. That function panics on a shorter buffer.
#[verifier::external_body]
pub(crate) fn read_u64_be(buf: &[u8]) -> (n: u64)
    requires
        buf@.len() >= 8,
    ensures
        n == be_value(buf@.take(8)),
{
    BE::read_u64(buf)
}

/// Calls `byteorder::BigEndian::write_u64`: the first eight bytes of `buf` become the
/// big-endian form of `n`, the rest stays. That function panics on a shorter buffer.
#[verifier::external_body]
pub(crate) fn write_u64_be(buf: &mut [u8], n: u64)
    requires
        old(buf)@.len() >= 8,
    ensures
        final(buf)@ == be_bytes(n) + old(buf)@.skip(8),
{
    BE::write_u64(buf, n)
}

/// The stored form of a number.
pub fn encode_number(n: u64) -> (raw: Vec<u8>)
    ensures
        raw@ == be_bytes(n),
{
    let mut raw: Vec<u8> = vec![0u8; 8];
    write_u64_be(raw.as_mut_slice(), n);
    proof {
        lemma_be_digits_len(n as nat, 8);
        assert(raw@ =~= be_bytes(n));
    }
    raw
}

/// The number at the head of a stored value.
pub fn decode_number(raw: &[u8]) -> (n: u64)
    requires
        raw@.len() >= 8,
    ensures
        n == be_value(raw@.take(8)),
{
    read_u64_be(raw)
}

/// Whether `s` begins with `prefix`.
pub fn starts_with(s: &[u8], prefix: &[u8]) -> (yes: bool)
    ensures
        yes == has_prefix(s@, prefix@),
{
    if prefix.len() > s.len() {
        return false;
    }
    let mut i: usize = 0;
    while i < prefix.len()
        invariant
            i <= prefix@.len() <= s@.len(),
            forall|j: int| 0 <= j < i ==> s@[j] == prefix@[j],
        decreases prefix@.len() - i,
    {
        if s[i] != prefix[i] {
            assert(s@.take(prefix@.len() as int)[i as int] != prefix@[i as int]);
            return false;
        }
        i += 1;
    }
    assert(s@.take(prefix@.len() as int) =~= prefix@);
    true
}

/// Whether `a` precedes `b` in the order of byte strings.
pub fn precedes(a: &[u8], b: &[u8]) -> (yes: bool)
    ensures
        yes == lex_lt(a@, b@),
{
    let mut i: usize = 0;
    while i < a.len() && i < b.len()
        invariant
            i <= a@.len(),
            i <= b@.len(),
            forall|j: int| 0 <= j < i ==> a@[j] == b@[j],
        decreases a@.len() - i,
    {
        if a[i] != b[i] {
            let yes = a[i] < b[i];
            proof {
                assert(a@.take(i as int) =~= b@.take(i as int));
                if yes {
                    assert(lex_lt_at(a@, b@, i as int));
                } else {
                    assert(lex_lt_at(b@, a@, i as int));
                    lemma_lex_asymmetric(b@, a@);
                }
            }
            return yes;
        }
        i += 1;
    }
    proof {
        assert(a@.take(i as int) =~= b@.take(i as int));
        if a@.len() < b@.len() {
            assert(lex_lt_at(a@, b@, i as int));
        } else if b@.len() < a@.len() {
            assert(lex_lt_at(b@, a@, i as int));
            lemma_lex_asymmetric(b@, a@);
        } else {
            assert(a@ =~= b@);
            lemma_lex_irreflexive(a@);
        }
    }
    a.len() < b.len() && i == a.len()
}

pub proof fn lemma_be_digits_len(n: nat, width: nat)
    ensures
        be_digits(n, width).len() == width,
    decreases width,
{
    if width > 0 {
        lemma_be_digits_len(n / 256, (width - 1) as nat);
    }
}

/// The number that the digits of `n` spell is `n`, if there are enough of them.
pub proof fn lemma_be_value_of_digits(n: nat, width: nat)
    requires
        n < vstd::arithmetic::power::pow(256, width),
    ensures
        be_value(be_digits(n, width)) == n,
    decreases width,
{
    vstd::arithmetic::power::lemma_pow0(256);
    if width > 0 {
        let w = (width - 1) as nat;
        vstd::arithmetic::power::lemma_pow1(256);
        vstd::arithmetic::power::lemma_pow_adds(256, 1, w);
        let p = vstd::arithmetic::power::pow(256, w);
        assert(n / 256 < p);
        lemma_be_value_of_digits(n / 256, w);
        assert(be_digits(n, width).drop_last() =~= be_digits(n / 256, w));
    }
}

/// A number is read back as it was written.
pub proof fn lemma_be_round_trip(n: u64)
    ensures
        be_bytes(n).len() == 8,
        be_value(be_bytes(n)) == n,
        be_bytes(n).take(8) == be_bytes(n),
{
    reveal_with_fuel(vstd::arithmetic::power::pow, 9);
    assert(vstd::arithmetic::power::pow(256, 8) == 0x1_0000_0000_0000_0000);
    lemma_be_value_of_digits(n as nat, 8);
    lemma_be_digits_len(n as nat, 8);
    assert(be_bytes(n).take(8) =~= be_bytes(n));
}

/// The digits of the number that `s` spells are `s`.
pub proof fn lemma_be_digits_of_value(s: Seq<u8>)
    ensures
        be_digits(be_value(s), s.len()) == s,
        be_value(s) < vstd::arithmetic::power::pow(256, s.len()),
    decreases s.len(),
{
    vstd::arithmetic::power::lemma_pow0(256);
    if s.len() == 0 {
        assert(be_digits(be_value(s), 0) =~= s);
    } else {
        let head = s.drop_last();
        lemma_be_digits_of_value(head);
        vstd::arithmetic::power::lemma_pow1(256);
        vstd::arithmetic::power::lemma_pow_adds(256, 1, head.len());
        let v = be_value(s);
        assert(v / 256 == be_value(head));
        assert(v % 256 == s.last());
        assert(be_digits(v, s.len()) =~= head.push(s.last()));
        assert(head.push(s.last()) =~= s);
    }
}

/// Eight bytes are the stored form of some number.
pub proof fn lemma_eight_bytes_are_a_number(s: Seq<u8>) -> (n: u64)
    requires
        s.len() == 8,
    ensures
        be_bytes(n) == s,
        n == be_value(s),
{
    reveal_with_fuel(vstd::arithmetic::power::pow, 9);
    assert(vstd::arithmetic::power::pow(256, 8) == 0x1_0000_0000_0000_0000);
    lemma_be_digits_of_value(s);
    be_value(s) as u64
}

pub proof fn lemma_be_bytes_injective(m: u64, n: u64)
    ensures
        be_bytes(m) == be_bytes(n) ==> m == n,
{
    lemma_be_round_trip(m);
    lemma_be_round_trip(n);
}

pub proof fn lemma_lex_irreflexive(a: Seq<u8>)
    ensures
        !lex_lt(a, a),
{
}

pub proof fn lemma_lex_asymmetric(a: Seq<u8>, b: Seq<u8>)
    requires
        lex_lt(a, b),
    ensures
        !lex_lt(b, a),
{
    let k = choose|k: int| lex_lt_at(a, b, k);
    assert forall|j: int| !lex_lt_at(b, a, j) by {
        if lex_lt_at(b, a, j) {
            if j < k {
                assert(a.take(k)[j] == b.take(k)[j]);
            } else if k < j {
                assert(a.take(j)[k] == b.take(j)[k]);
            }
        }
    }
}

pub proof fn lemma_lex_transitive(a: Seq<u8>, b: Seq<u8>, c: Seq<u8>)
    requires
        lex_lt(a, b),
        lex_lt(b, c),
    ensures
        lex_lt(a, c),
{
    let j = choose|j: int| lex_lt_at(a, b, j);
    let k = choose|k: int| lex_lt_at(b, c, k);
    let m = if j < k { j } else { k };
    assert forall|i: int| 0 <= i < m implies a[i] == c[i] by {
        assert(a.take(j)[i] == b.take(j)[i]);
        assert(b.take(k)[i] == c.take(k)[i]);
    }
    assert(a.take(m) =~= c.take(m));
    if j < k {
        assert(b.take(k)[j] == c.take(k)[j]);
    } else if k < j {
        assert(a.take(j)[k] == b.take(j)[k]);
    }
    assert(lex_lt_at(a, c, m));
}

pub proof fn lemma_lex_total(a: Seq<u8>, b: Seq<u8>)
    ensures
        lex_lt(a, b) || lex_lt(b, a) || a == b,
    decreases a.len(),
{
    if a.len() == 0 {
        if b.len() > 0 {
            assert(a.take(0) =~= b.take(0));
            assert(lex_lt_at(a, b, 0));
        } else {
            assert(a =~= b);
        }
    } else if b.len() == 0 {
        assert(a.take(0) =~= b.take(0));
        assert(lex_lt_at(b, a, 0));
    } else if a[0] != b[0] {
        assert(a.take(0) =~= b.take(0));
        if a[0] < b[0] {
            assert(lex_lt_at(a, b, 0));
        } else {
            assert(lex_lt_at(b, a, 0));
        }
    } else {
        let x = a.skip(1);
        let y = b.skip(1);
        let p = seq![a[0]];
        lemma_lex_total(x, y);
        assert(a =~= p + x);
        assert(b =~= p + y);
        if lex_lt(x, y) {
            lemma_lex_extend(p, x, y);
        } else if lex_lt(y, x) {
            lemma_lex_extend(p, y, x);
        }
    }
}

/// A common beginning does not change the order.
pub proof fn lemma_lex_extend(p: Seq<u8>, x: Seq<u8>, y: Seq<u8>)
    requires
        lex_lt(x, y),
    ensures
        lex_lt(p + x, p + y),
{
    let k = choose|k: int| lex_lt_at(x, y, k);
    let m = p.len() + k;
    assert((p + x).take(m) =~= p + x.take(k));
    assert((p + y).take(m) =~= p + y.take(k));
    assert(lex_lt_at(p + x, p + y, m));
}

/// What follows two strings of one length does not change their order.
pub proof fn lemma_lex_append(x: Seq<u8>, y: Seq<u8>, s: Seq<u8>, t: Seq<u8>)
    requires
        x.len() == y.len(),
        lex_lt(x, y),
    ensures
        lex_lt(x + s, y + t),
{
    let k = choose|k: int| lex_lt_at(x, y, k);
    assert(k < x.len()) by {
        if k == x.len() {
            assert(k < y.len());
        }
    }
    assert((x + s).take(k) =~= x.take(k));
    assert((y + t).take(k) =~= y.take(k));
    assert(lex_lt_at(x + s, y + t, k));
}

/// Digits of one width order as the numbers they spell.
pub proof fn lemma_be_digits_order(m: nat, n: nat, width: nat)
    requires
        m < n,
        n < vstd::arithmetic::power::pow(256, width),
    ensures
        lex_lt(be_digits(m, width), be_digits(n, width)),
    decreases width,
{
    vstd::arithmetic::power::lemma_pow0(256);
    assert(width > 0);
    let w = (width - 1) as nat;
    vstd::arithmetic::power::lemma_pow1(256);
    vstd::arithmetic::power::lemma_pow_adds(256, 1, w);
    let x = be_digits(m / 256, w);
    let y = be_digits(n / 256, w);
    lemma_be_digits_len(m / 256, w);
    lemma_be_digits_len(n / 256, w);
    let a = seq![(m % 256) as u8];
    let b = seq![(n % 256) as u8];
    assert(be_digits(m, width) =~= x + a);
    assert(be_digits(n, width) =~= y + b);
    if m / 256 < n / 256 {
        lemma_be_digits_order(m / 256, n / 256, w);
        lemma_lex_append(x, y, a, b);
    } else {
        assert(m / 256 == n / 256);
        assert(m % 256 < n % 256);
        assert(a.take(0) =~= b.take(0));
        assert(lex_lt_at(a, b, 0));
        lemma_lex_extend(x, a, b);
    }
}

/// Stored numbers order as the numbers do.
pub proof fn lemma_be_bytes_order(m: u64, n: u64)
    ensures
        lex_lt(be_bytes(m), be_bytes(n)) <==> m < n,
{
    reveal_with_fuel(vstd::arithmetic::power::pow, 9);
    assert(vstd::arithmetic::power::pow(256, 8) == 0x1_0000_0000_0000_0000);
    if m < n {
        lemma_be_digits_order(m as nat, n as nat, 8);
    } else if n < m {
        lemma_be_digits_order(n as nat, m as nat, 8);
        lemma_lex_asymmetric(be_bytes(n), be_bytes(m));
    } else {
        lemma_lex_irreflexive(be_bytes(m));
    }
}

/// Concatenation begins with its first part, and what follows is the second.
pub proof fn lemma_prefix_of_concat(p: Seq<u8>, x: Seq<u8>)
    ensures
        has_prefix(p + x, p),
        (p + x).skip(p.len() as int) == x,
{
    assert((p + x).take(p.len() as int) =~= p);
    assert((p + x).skip(p.len() as int) =~= x);
}

/// A key from `prefix` on that does not begin with it lies behind every key that does.
pub proof fn lemma_prefix_segment(prefix: Seq<u8>, inside: Seq<u8>, outside: Seq<u8>)
    requires
        has_prefix(inside, prefix),
        !has_prefix(outside, prefix),
        !lex_lt(outside, prefix),
    ensures
        lex_lt(inside, outside),
{
    lemma_lex_total(outside, prefix);
    assert(outside != prefix) by {
        assert(prefix.take(prefix.len() as int) =~= prefix);
    }
    let k = choose|k: int| lex_lt_at(prefix, outside, k);
    assert(k < prefix.len()) by {
        if k == prefix.len() {
            assert(prefix.take(k) =~= prefix);
            assert(outside.take(k) == prefix);
        }
    }
    assert(inside.take(k) =~= inside.take(prefix.len() as int).take(k));
    assert(inside[k] == inside.take(prefix.len() as int)[k]);
    assert(lex_lt_at(inside, outside, k));
}

/// A key that begins with `prefix` does not precede it.
pub proof fn lemma_prefix_not_before(prefix: Seq<u8>, key: Seq<u8>)
    requires
        has_prefix(key, prefix),
    ensures
        !lex_lt(key, prefix),
{
    assert forall|k: int| !lex_lt_at(key, prefix, k) by {
        if lex_lt_at(key, prefix, k) {
            assert(key[k] == key.take(prefix.len() as int)[k]);
        }
    }
}

/// A string begins with another exactly if the other is its first bytes.
pub proof fn law_prefix_is_the_first_bytes(s: Seq<u8>, prefix: Seq<u8>)
    ensures
        has_prefix(s, prefix) <==> prefix.len() <= s.len() && forall|i: int|
            0 <= i < prefix.len() ==> #[trigger] s[i] == prefix[i],
{
    let head = s.take(prefix.len() as int);
    if has_prefix(s, prefix) {
        assert forall|i: int| 0 <= i < prefix.len() implies #[trigger] s[i] == prefix[i] by {
            assert(head[i] == s[i]);
        }
    }
    if prefix.len() <= s.len() && forall|i: int|
        0 <= i < prefix.len() ==> #[trigger] s[i] == prefix[i] {
        assert forall|i: int| 0 <= i < prefix.len() implies head[i] == prefix[i] by {
            assert(s[i] == prefix[i]);
        }
        assert(head =~= prefix);
    }
}

/// A string precedes another exactly if it is a proper beginning of it, or has the smaller
/// byte where they first differ.
pub proof fn law_order_is_that_of_words(a: Seq<u8>, b: Seq<u8>)
    ensures
        lex_lt(a, b) <==> (a.len() < b.len() && a == b.take(a.len() as int)) || exists|k: int|
            0 <= k < a.len() && k < b.len() && a.take(k) == b.take(k) && #[trigger] a[k] < b[k],
{
    if lex_lt(a, b) {
        let k = choose|k: int| lex_lt_at(a, b, k);
        if k == a.len() {
            assert(a.take(k) =~= a);
        } else {
            assert(a[k] < b[k]);
        }
    }
    if a.len() < b.len() && a == b.take(a.len() as int) {
        assert(a.take(a.len() as int) =~= a);
        assert(lex_lt_at(a, b, a.len() as int));
    }
    if exists|k: int|
        0 <= k < a.len() && k < b.len() && a.take(k) == b.take(k) && #[trigger] a[k] < b[k] {
        let k = choose|k: int|
            0 <= k < a.len() && k < b.len() && a.take(k) == b.take(k) && #[trigger] a[k] < b[k];
        assert(lex_lt_at(a, b, k));
    }
}

/// Eight bytes spell the number in which each counts 256 times as much as the next, and are
/// the stored form of that number and of no other.
pub proof fn law_bytes_spell_a_number(s: Seq<u8>, n: u64)
    requires
        s.len() == 8,
    ensures
        be_value(s) == s[7] + 256 * (s[6] + 256 * (s[5] + 256 * (s[4] + 256 * (s[3] + 256 * (s[2]
            + 256 * (s[1] + 256 * s[0])))))),
        be_bytes(n) == s <==> n == be_value(s),
{
    lemma_value_step(s);
    lemma_value_step(s.take(7));
    lemma_value_step(s.take(6));
    lemma_value_step(s.take(5));
    lemma_value_step(s.take(4));
    lemma_value_step(s.take(3));
    lemma_value_step(s.take(2));
    lemma_value_step(s.take(1));
    assert(s.take(7).take(6) =~= s.take(6));
    assert(s.take(6).take(5) =~= s.take(5));
    assert(s.take(5).take(4) =~= s.take(4));
    assert(s.take(4).take(3) =~= s.take(3));
    assert(s.take(3).take(2) =~= s.take(2));
    assert(s.take(2).take(1) =~= s.take(1));
    let m = lemma_eight_bytes_are_a_number(s);
    lemma_be_bytes_injective(m, n);
}

proof fn lemma_value_step(s: Seq<u8>)
    requires
        s.len() > 0,
    ensures
        be_value(s) == be_value(s.take(s.len() - 1)) * 256 + s[s.len() - 1],
        s.len() == 1 ==> be_value(s) == s[0],
{
    assert(s.drop_last() =~= s.take(s.len() - 1));
    if s.len() == 1 {
        assert(be_value(s.drop_last()) == 0);
    }
}

/// A number that was encoded is decoded as the same number, whatever follows its bytes.
pub proof fn law_encoded_number_is_decoded(
    n: u64,
    encoded: Vec<u8>,
    stored: &[u8],
    decoded: u64,
)
    requires
        call_ensures(encode_number, (n,), encoded),
        stored@.len() >= 8,
        stored@.take(8) == encoded@,
        call_ensures(decode_number, (stored,), decoded),
    ensures
        encoded@.len() == 8,
        decoded == n,
{
    lemma_be_round_trip(n);
}

/// Encoded numbers are ordered as the numbers.
pub proof fn law_encoded_numbers_are_ordered(m: u64, n: u64, a: &[u8], b: &[u8], before: bool)
    requires
        a@ == be_bytes(m),
        b@ == be_bytes(n),
        call_ensures(precedes, (a, b), before),
    ensures
        before == (m < n),
{
    lemma_be_bytes_order(m, n);
}

/// Whether a string begins with another is told from its first bytes.
pub proof fn law_prefix_is_told(s: &[u8], prefix: &[u8], yes: bool)
    requires
        call_ensures(starts_with, (s, prefix), yes),
    ensures
        yes == (prefix@.len() <= s@.len() && forall|i: int|
            0 <= i < prefix@.len() ==> #[trigger] s@[i] == prefix@[i]),
{
    law_prefix_is_the_first_bytes(s@, prefix@);
}

/// Which of two strings comes first is told as for words.
pub proof fn law_order_is_told(a: &[u8], b: &[u8], before: bool)
    requires
        call_ensures(precedes, (a, b), before),
    ensures
        before == ((a@.len() < b@.len() && a@ == b@.take(a@.len() as int)) || exists|k: int|
            0 <= k < a@.len() && k < b@.len() && a@.take(k) == b@.take(k) && #[trigger] a@[k]
                < b@[k]),
{
    law_order_is_that_of_words(a@, b@);
}

} // verus!
