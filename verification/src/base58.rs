//! Base58 with the Bitcoin alphabet, as addresses are written: what the
//! encoding and the decoding give, and the proof that decoding an encoding
//! gives the bytes back.

use vstd::prelude::*;

verus! {

/// The character of base-58 digit `d` (`d < 58`) in the Bitcoin alphabet
/// `123456789ABCDEFGHJKLMNPQRSTUVWXYZabcdefghijkmnopqrstuvwxyz`.
pub open spec fn b58_char(d: nat) -> char {
    if d < 9 {
        (49 + d) as char
    } else if d < 17 {
        (65 + (d - 9)) as char
    } else if d < 22 {
        (74 + (d - 17)) as char
    } else if d < 33 {
        (80 + (d - 22)) as char
    } else if d < 44 {
        (97 + (d - 33)) as char
    } else {
        (109 + (d - 44)) as char
    }
}

/// The digit a character stands for in the Bitcoin alphabet, if any.
pub open spec fn b58_value(c: char) -> Option<nat> {
    let u = c as int;
    if 49 <= u <= 57 {
        Some((u - 49) as nat)
    } else if 65 <= u <= 72 {
        Some((u - 65 + 9) as nat)
    } else if 74 <= u <= 78 {
        Some((u - 74 + 17) as nat)
    } else if 80 <= u <= 90 {
        Some((u - 80 + 22) as nat)
    } else if 97 <= u <= 107 {
        Some((u - 97 + 33) as nat)
    } else if 109 <= u <= 122 {
        Some((u - 109 + 44) as nat)
    } else {
        None
    }
}

/// The number that bytes stand for, most significant byte first.
pub open spec fn be_number(b: Seq<u8>) -> nat
    decreases b.len(),
{
    if b.len() == 0 {
        0
    } else {
        be_number(b.drop_last()) * 256 + b.last() as nat
    }
}

/// The number of zero bytes at the head of `b`.
pub open spec fn leading_zero_bytes(b: Seq<u8>) -> nat
    decreases b.len(),
{
    if b.len() == 0 || b[0] != 0 {
        0
    } else {
        1 + leading_zero_bytes(b.drop_first())
    }
}

/// The base-58 digits of `n`, most significant first, with no leading zero
/// digit (none at all for 0).
pub open spec fn b58_digits(n: nat) -> Seq<char>
    decreases n,
{
    if n == 0 {
        Seq::empty()
    } else {
        b58_digits(n / 58).push(b58_char(n % 58))
    }
}

/// The Base58 text of `b`: a `1` for each leading zero byte, then the
/// base-58 digits of the number the bytes stand for.
pub open spec fn bs58_encoding(b: Seq<u8>) -> Seq<char> {
    Seq::new(leading_zero_bytes(b), |i: int| '1') + b58_digits(be_number(b))
}

/// Whether every character of `t` is in the alphabet.
pub open spec fn all_b58(t: Seq<char>) -> bool {
    forall|i: int| 0 <= i < t.len() ==> #[trigger] b58_value(t[i]) is Some
}

/// The number that base-58 text stands for, most significant digit first.
pub open spec fn b58_number(t: Seq<char>) -> nat
    decreases t.len(),
{
    if t.len() == 0 {
        0
    } else {
        b58_number(t.drop_last()) * 58 + b58_value(t.last()).unwrap()
    }
}

/// The number of `1` characters at the head of `t`.
pub open spec fn leading_ones(t: Seq<char>) -> nat
    decreases t.len(),
{
    if t.len() == 0 || t[0] != '1' {
        0
    } else {
        1 + leading_ones(t.drop_first())
    }
}

/// The bytes of `n`, most significant first, with no leading zero byte
/// (none at all for 0).
pub open spec fn be_bytes(n: nat) -> Seq<u8>
    decreases n,
{
    if n == 0 {
        Seq::empty()
    } else {
        be_bytes(n / 256).push((n % 256) as u8)
    }
}

/// What decoding Base58 text gives: `None` when a character is outside
/// the alphabet, else a zero byte for each leading `1`, then the bytes of
/// the number the text stands for.
pub open spec fn bs58_decoding(t: Seq<char>) -> Option<Seq<u8>> {
    if all_b58(t) {
        Some(Seq::new(leading_ones(t), |i: int| 0u8) + be_bytes(b58_number(t)))
    } else {
        None
    }
}

proof fn lemma_char_value(d: nat)
    requires
        d < 58,
    ensures
        b58_value(b58_char(d)) == Some(d),
        (b58_char(d) == '1') <==> d == 0,
{
}

proof fn lemma_digits(n: nat)
    ensures
        all_b58(b58_digits(n)),
        b58_number(b58_digits(n)) == n,
        n > 0 ==> b58_digits(n).len() > 0 && b58_digits(n)[0] != '1',
        n == 0 ==> b58_digits(n).len() == 0,
    decreases n,
{
    if n > 0 {
        lemma_digits(n / 58);
        lemma_char_value(n % 58);
        let d = b58_digits(n);
        assert(d.drop_last() =~= b58_digits(n / 58));
        assert forall|i: int| 0 <= i < d.len() implies #[trigger] b58_value(d[i]) is Some by {
            if i < d.len() - 1 {
                assert(d[i] == b58_digits(n / 58)[i]);
            }
        }
        if n / 58 > 0 {
            assert(d[0] == b58_digits(n / 58)[0]);
        }
    }
}

proof fn lemma_ones_prefix(k: nat, d: Seq<char>)
    requires
        all_b58(d),
        d.len() == 0 || d[0] != '1',
    ensures
        ({
            let t = Seq::new(k, |i: int| '1') + d;
            &&& all_b58(t)
            &&& leading_ones(t) == k
            &&& b58_number(t) == b58_number(d)
        }),
    decreases k,
{
    let t = Seq::new(k, |i: int| '1') + d;
    lemma_char_value(0);
    assert forall|i: int| 0 <= i < t.len() implies #[trigger] b58_value(t[i]) is Some by {
        if i >= k {
            assert(t[i] == d[i - k]);
        }
    }
    if k > 0 {
        lemma_ones_prefix((k - 1) as nat, d);
        assert(t.drop_first() =~= Seq::new((k - 1) as nat, |i: int| '1') + d);
    } else {
        assert(t =~= d);
    }
    lemma_number_ignores_leading_zero_digits(k, d);
}

proof fn lemma_number_ignores_leading_zero_digits(k: nat, d: Seq<char>)
    ensures
        b58_number(Seq::new(k, |i: int| '1') + d) == b58_number(d),
    decreases d.len(),
{
    let t = Seq::new(k, |i: int| '1') + d;
    if d.len() == 0 {
        lemma_number_of_ones(k);
        assert(t =~= Seq::new(k, |i: int| '1'));
    } else {
        lemma_number_ignores_leading_zero_digits(k, d.drop_last());
        assert(t.drop_last() =~= Seq::new(k, |i: int| '1') + d.drop_last());
        assert(t.last() == d.last());
    }
}

proof fn lemma_number_of_ones(k: nat)
    ensures
        b58_number(Seq::new(k, |i: int| '1')) == 0,
    decreases k,
{
    lemma_char_value(0);
    if k > 0 {
        lemma_number_of_ones((k - 1) as nat);
        assert(Seq::new(k, |i: int| '1').drop_last() =~= Seq::new((k - 1) as nat, |i: int| '1'));
    }
}

proof fn lemma_be_number_positive(r: Seq<u8>)
    requires
        r.len() > 0,
        r[0] != 0,
    ensures
        be_number(r) > 0,
    decreases r.len(),
{
    if r.len() > 1 {
        assert(r.drop_last()[0] == r[0]);
        lemma_be_number_positive(r.drop_last());
    }
}

proof fn lemma_be_bytes_of_number(r: Seq<u8>)
    requires
        r.len() == 0 || r[0] != 0,
    ensures
        be_bytes(be_number(r)) == r,
    decreases r.len(),
{
    if r.len() > 0 {
        let p = r.drop_last();
        if p.len() > 0 {
            assert(p[0] == r[0]);
        }
        lemma_be_bytes_of_number(p);
        lemma_be_number_positive(r);
        let n = be_number(r);
        assert(n / 256 == be_number(p));
        assert(n % 256 == r.last());
        assert(r =~= p.push(r.last()));
    }
}

proof fn lemma_zero_bytes_split(b: Seq<u8>)
    ensures
        leading_zero_bytes(b) <= b.len(),
        b =~= Seq::new(leading_zero_bytes(b), |i: int| 0u8) + b.skip(leading_zero_bytes(b) as int),
        b.skip(leading_zero_bytes(b) as int).len() == 0 || b.skip(leading_zero_bytes(b) as int)[0]
            != 0,
        be_number(b) == be_number(b.skip(leading_zero_bytes(b) as int)),
    decreases b.len(),
{
    if b.len() > 0 && b[0] == 0 {
        let r = b.drop_first();
        lemma_zero_bytes_split(r);
        let z = leading_zero_bytes(r);
        assert(b.skip((z + 1) as int) =~= r.skip(z as int));
        lemma_number_ignores_zero_bytes(1, r);
        assert(b =~= Seq::new(1, |i: int| 0u8) + r);
    } else {
        assert(b.skip(0) =~= b);
    }
}

proof fn lemma_number_ignores_zero_bytes(k: nat, r: Seq<u8>)
    ensures
        be_number(Seq::new(k, |i: int| 0u8) + r) == be_number(r),
    decreases r.len(),
{
    let t = Seq::new(k, |i: int| 0u8) + r;
    if r.len() == 0 {
        lemma_number_of_zero_bytes(k);
        assert(t =~= Seq::new(k, |i: int| 0u8));
    } else {
        lemma_number_ignores_zero_bytes(k, r.drop_last());
        assert(t.drop_last() =~= Seq::new(k, |i: int| 0u8) + r.drop_last());
    }
}

proof fn lemma_number_of_zero_bytes(k: nat)
    ensures
        be_number(Seq::new(k, |i: int| 0u8)) == 0,
    decreases k,
{
    if k > 0 {
        lemma_number_of_zero_bytes((k - 1) as nat);
        assert(Seq::new(k, |i: int| 0u8).drop_last() =~= Seq::new((k - 1) as nat, |i: int| 0u8));
    }
}

/// Decoding the Base58 encoding of any bytes gives those bytes back.
pub proof fn lemma_bs58_round_trip(b: Seq<u8>)
    ensures
        bs58_decoding(bs58_encoding(b)) == Some(b),
{
    let z = leading_zero_bytes(b);
    let n = be_number(b);
    lemma_digits(n);
    lemma_ones_prefix(z, b58_digits(n));
    lemma_zero_bytes_split(b);
    lemma_be_bytes_of_number(b.skip(z as int));
    let t = bs58_encoding(b);
    assert(bs58_decoding(t) == Some(Seq::new(z, |i: int| 0u8) + be_bytes(n)));
    assert(Seq::new(z, |i: int| 0u8) + be_bytes(n) =~= b);
}

} // verus!
