//! Text building blocks shared by the hashing, signing and display code:
//! decimal and hexadecimal renderings, and string comparison.

use vstd::prelude::*;
use vstd::string::StringSliceAdditionalSpecFns;
use std::fmt::Write;

verus! {

broadcast use vstd::utf8::encode_utf8_decode_utf8;

/// The character of a decimal digit `d` (`d < 10`).
pub open spec fn digit_char(d: nat) -> char {
    (48 + d) as char
}

/// The decimal rendering of `n`, as `Display` writes an unsigned integer.
pub open spec fn decimal(n: nat) -> Seq<char>
    decreases n,
{
    if n < 10 {
        seq![digit_char(n)]
    } else {
        decimal(n / 10).push(digit_char(n % 10))
    }
}

/// The decimal rendering of a signed integer, as `Display` writes it.
pub open spec fn signed_decimal(n: int) -> Seq<char> {
    if n < 0 {
        seq!['-'] + decimal((-n) as nat)
    } else {
        decimal(n as nat)
    }
}

/// Appends `c` to `s` (`String::push`).
#[verifier::external_body]
pub(crate) fn push_char(s: &mut String, c: char)
    ensures
        final(s)@ == old(s)@.push(c),
{
    s.push(c);
}

/// Appends the decimal rendering of `n` to `s`.
pub fn push_decimal(s: &mut String, n: u64)
    ensures
        final(s)@ == old(s)@ + decimal(n as nat),
    decreases n,
{
    if n >= 10 {
        push_decimal(s, n / 10);
    }
    let d: u8 = (n % 10) as u8;
    let c: char = (48u8 + d) as char;
    push_char(s, c);
    proof {
        if n >= 10 {
            assert(old(s)@ + decimal(n as nat) =~= old(s)@ + decimal((n / 10) as nat) + seq![c]);
        } else {
            assert(old(s)@ + decimal(n as nat) =~= old(s)@ + seq![c]);
        }
    }
}

/// Appends the decimal rendering of the signed `n` to `s`.
pub fn push_signed_decimal(s: &mut String, n: i64)
    ensures
        final(s)@ == old(s)@ + signed_decimal(n as int),
{
    if n < 0 {
        push_char(s, '-');
        let m: u64 = (-(n as i128)) as u64;
        push_decimal(s, m);
        assert(final(s)@ =~= old(s)@ + signed_decimal(n as int));
    } else {
        push_decimal(s, n as u64);
    }
}

/// The decimal rendering of `n` as a new string.
pub fn decimal_string(n: u64) -> (res: String)
    ensures
        res@ == decimal(n as nat),
{
    let mut s = String::new();
    push_decimal(&mut s, n);
    assert(s@ =~= decimal(n as nat));
    s
}

/// Whether two strings hold the same characters, compared byte by byte.
pub fn same_text(a: &str, b: &str) -> (res: bool)
    ensures
        res == (a@ == b@),
{
    let x = a.as_bytes();
    let y = b.as_bytes();
    if x.len() != y.len() {
        return false;
    }
    let n = x.len();
    let mut i: usize = 0;
    while i < n
        invariant
            n == x@.len(),
            n == y@.len(),
            x@ == a.spec_bytes(),
            y@ == b.spec_bytes(),
            0 <= i <= n,
            forall|j: int| 0 <= j < i ==> x@[j] == y@[j],
        decreases n - i,
    {
        if x[i] != y[i] {
            return false;
        }
        i = i + 1;
    }
    assert(x@ =~= y@);
    assert(vstd::utf8::decode_utf8(a.spec_bytes()) == a@);
    true
}


/// What `Debug` writes for a string: the text between double quotes, with
/// quotes, backslashes, control and non-printable characters escaped.
pub uninterp spec fn debug_text(s: Seq<char>) -> Seq<char>;

/// Appends the `Debug` rendering of `t` to `s` (std's `<str as Debug>::fmt`).
/// The contract names the rendering and says no more of it.
#[verifier::external_body]
pub(crate) fn push_debug_text(s: &mut String, t: &str)
    ensures
        final(s)@ == old(s)@ + debug_text(t@),
{
    let _ = write!(s, "{:?}", t);
}

/// The lower-case hexadecimal digit for `d < 16`.
pub open spec fn hex_digit(d: nat) -> char {
    if d < 10 {
        (48 + d) as char
    } else {
        (87 + d) as char
    }
}

/// The lower-case hexadecimal rendering of `bytes`, two digits per byte,
/// high nibble first.
pub open spec fn lower_hex(bytes: Seq<u8>) -> Seq<char>
    decreases bytes.len(),
{
    if bytes.len() == 0 {
        Seq::empty()
    } else {
        seq![hex_digit((bytes[0] / 16) as nat), hex_digit((bytes[0] % 16) as nat)] + lower_hex(
            bytes.drop_first(),
        )
    }
}

/// Two digits per byte.
pub proof fn lemma_lower_hex_len(bytes: Seq<u8>)
    ensures
        lower_hex(bytes).len() == 2 * bytes.len(),
    decreases bytes.len(),
{
    if bytes.len() > 0 {
        lemma_lower_hex_len(bytes.drop_first());
    }
}

fn hex_digit_char(d: u8) -> (c: char)
    requires
        d < 16,
    ensures
        c == hex_digit(d as nat),
{
    if d < 10 {
        (48u8 + d) as char
    } else {
        (87u8 + d) as char
    }
}

/// Appends the lower-case hexadecimal rendering of `bytes` to `s`.
pub fn push_lower_hex(s: &mut String, bytes: &[u8])
    ensures
        final(s)@ == old(s)@ + lower_hex(bytes@),
{
    let n = bytes.len();
    assert(bytes@.skip(0) =~= bytes@);
    let mut i: usize = 0;
    while i < n
        invariant
            n == bytes@.len(),
            0 <= i <= n,
            old(s)@ + lower_hex(bytes@) =~= s@ + lower_hex(bytes@.skip(i as int)),
        decreases n - i,
    {
        let b = bytes[i];
        push_char(s, hex_digit_char(b / 16));
        push_char(s, hex_digit_char(b % 16));
        assert(bytes@.skip(i as int).drop_first() =~= bytes@.skip(i + 1));
        i = i + 1;
    }
    assert(bytes@.skip(n as int) =~= Seq::<u8>::empty());
    assert(lower_hex(bytes@.skip(n as int)) =~= Seq::<char>::empty());
}

/// Appends the bytes of `b` to `out`.
pub fn push_bytes(out: &mut Vec<u8>, b: &[u8])
    ensures
        final(out)@ == old(out)@ + b@,
{
    let n = b.len();
    let mut i: usize = 0;
    while i < n
        invariant
            n == b@.len(),
            0 <= i <= n,
            out@ == old(out)@ + b@.take(i as int),
        decreases n - i,
    {
        out.push(b[i]);
        assert(b@.take(i + 1) =~= b@.take(i as int).push(b@[i as int]));
        i = i + 1;
    }
    assert(b@.take(n as int) =~= b@);
}

/// Copies a byte slice into a new vector.
pub fn slice_to_vec(v: &[u8]) -> (res: Vec<u8>)
    ensures
        res@ == v@,
{
    let mut out: Vec<u8> = Vec::new();
    let n = v.len();
    let mut i: usize = 0;
    while i < n
        invariant
            n == v@.len(),
            0 <= i <= n,
            out@ == v@.take(i as int),
        decreases n - i,
    {
        out.push(v[i]);
        assert(v@.take(i + 1) =~= v@.take(i as int).push(v@[i as int]));
        i = i + 1;
    }
    assert(v@.take(n as int) =~= v@);
    out
}

/// Copies a 32-byte slice into an array.
pub fn bytes_to_array32(v: &[u8]) -> (res: [u8; 32])
    requires
        v@.len() == 32,
    ensures
        res@ == v@,
{
    let mut a: [u8; 32] = [0u8; 32];
    let mut i: usize = 0;
    while i < 32
        invariant
            v@.len() == 32,
            0 <= i <= 32,
            a@.len() == 32,
            forall|j: int| 0 <= j < i ==> a@[j] == v@[j],
        decreases 32 - i,
    {
        a[i] = v[i];
        i = i + 1;
    }
    assert(a@ =~= v@);
    a
}

/// The little-endian bytes of the low `k` bytes of `n`.
pub open spec fn le_bytes(n: nat, k: nat) -> Seq<u8>
    decreases k,
{
    if k == 0 {
        Seq::empty()
    } else {
        seq![(n % 256) as u8] + le_bytes(n / 256, (k - 1) as nat)
    }
}

/// The number whose little-endian bytes are `b`.
pub open spec fn le_value(b: Seq<u8>) -> nat
    decreases b.len(),
{
    if b.len() == 0 {
        0
    } else {
        b[0] as nat + 256 * le_value(b.drop_first())
    }
}

/// 256 to the power `k`.
pub open spec fn pow256(k: nat) -> nat
    decreases k,
{
    if k == 0 {
        1
    } else {
        256 * pow256((k - 1) as nat)
    }
}

/// A number written in `b.len()` little-endian bytes is below `256^len`.
pub proof fn lemma_le_value_bound(b: Seq<u8>)
    ensures
        le_value(b) < pow256(b.len()),
    decreases b.len(),
{
    if b.len() > 0 {
        lemma_le_value_bound(b.drop_first());
        let p = pow256((b.len() - 1) as nat);
        let r = le_value(b.drop_first());
        assert(b[0] as nat + 256 * r < 256 * p) by (nonlinear_arith)
            requires
                r < p,
                b[0] < 256,
        ;
    }
}

/// The little-endian bytes of a number below `256^k` give it back.
pub proof fn lemma_le_round_trip(n: nat, k: nat)
    requires
        n < pow256(k),
    ensures
        le_bytes(n, k).len() == k,
        le_value(le_bytes(n, k)) == n,
    decreases k,
{
    if k > 0 {
        let p = pow256((k - 1) as nat);
        assert(n / 256 < p) by (nonlinear_arith)
            requires
                n < 256 * p,
        ;
        lemma_le_round_trip(n / 256, (k - 1) as nat);
        let b = le_bytes(n, k);
        assert(b.drop_first() =~= le_bytes(n / 256, (k - 1) as nat));
    } else {
        assert(n == 0);
    }
}

/// Eight little-endian bytes determine a `u64`.
pub proof fn lemma_le_u64_injective(a: u64, b: u64)
    requires
        le_bytes(a as nat, 8) == le_bytes(b as nat, 8),
    ensures
        a == b,
{
    reveal_with_fuel(pow256, 9);
    assert(pow256(8) == 0x1_0000_0000_0000_0000);
    lemma_le_round_trip(a as nat, 8);
    lemma_le_round_trip(b as nat, 8);
}

/// Appends the 8 little-endian bytes of `n`.
pub fn push_le_bytes(out: &mut Vec<u8>, n: u64)
    ensures
        final(out)@ == old(out)@ + le_bytes(n as nat, 8),
{
    let mut m: u64 = n;
    let mut k: usize = 0;
    while k < 8
        invariant
            0 <= k <= 8,
            old(out)@ + le_bytes(n as nat, 8) == out@ + le_bytes(m as nat, (8 - k) as nat),
        decreases 8 - k,
    {
        let ghost before = out@;
        out.push((m % 256) as u8);
        proof {
            assert(le_bytes(m as nat, (8 - k) as nat) =~= seq![(m % 256) as u8] + le_bytes(
                (m / 256) as nat,
                (8 - k - 1) as nat,
            ));
            assert(before + le_bytes(m as nat, (8 - k) as nat) =~= out@ + le_bytes(
                (m / 256) as nat,
                (8 - k - 1) as nat,
            ));
        }
        m = m / 256;
        k = k + 1;
    }
    assert(out@ =~= out@ + le_bytes(m as nat, 0));
}

} // verus!
