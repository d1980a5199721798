use vstd::prelude::*;

verus! {

/// The two device classes; each has its own remembered index.
#[derive(Clone, Copy, PartialEq, Eq, Debug)]
pub enum DeviceClass {
    Input,
    Output,
}

pub open spec fn is_digit(b: u8) -> bool {
    0x30 <= b <= 0x39
}

pub open spec fn all_digits(s: Seq<u8>) -> bool {
    forall|i: int| 0 <= i < s.len() ==> is_digit(#[trigger] s[i])
}

/// The number that a string of ASCII decimal digits denotes.
pub open spec fn digits_value(s: Seq<u8>) -> nat
    decreases s.len(),
{
    if s.len() == 0 {
        0
    } else {
        digits_value(s.drop_last()) * 10 + (s.last() - 0x30) as nat
    }
}

/// The digits of a stored text: what follows an optional leading `+`.
pub open spec fn digits_part(s: Seq<u8>) -> Seq<u8> {
    if s.len() > 0 && s[0] == 0x2b {
        s.drop_first()
    } else {
        s
    }
}

/// The index that a stored text holds: an optional `+` and at least one
/// decimal digit, nothing else, with a value that fits in `u32`. Any other
/// content holds no index.
pub open spec fn decoded(s: Seq<u8>) -> Option<u32> {
    let d = digits_part(s);
    if d.len() > 0 && all_digits(d) && digits_value(d) <= u32::MAX {
        Some(digits_value(d) as u32)
    } else {
        None
    }
}

/// The decimal text of `n`, without sign or leading zeros.
pub open spec fn encoded(n: nat) -> Seq<u8>
    decreases n,
{
    if n < 10 {
        seq![(0x30 + n) as u8]
    } else {
        encoded(n / 10).push((0x30 + n % 10) as u8)
    }
}

proof fn lemma_digits_value_monotone(s: Seq<u8>, k: int)
    requires
        0 <= k <= s.len(),
        all_digits(s),
    ensures
        digits_value(s.subrange(0, k)) <= digits_value(s),
    decreases s.len(),
{
    if k < s.len() {
        let t = s.drop_last();
        assert(all_digits(t)) by {
            assert forall|i: int| 0 <= i < t.len() implies is_digit(#[trigger] t[i]) by {
                assert(t[i] == s[i]);
            }
        }
        lemma_digits_value_monotone(t, k);
        assert(t.subrange(0, k) =~= s.subrange(0, k));
    } else {
        assert(s.subrange(0, k) =~= s);
    }
}

proof fn lemma_encoded(n: nat)
    ensures
        encoded(n).len() > 0,
        all_digits(encoded(n)),
        digits_value(encoded(n)) == n,
    decreases n,
{
    if n >= 10 {
        lemma_encoded(n / 10);
        let e = encoded(n);
        assert(e.drop_last() =~= encoded(n / 10));
        assert(e.last() == (0x30 + n % 10) as u8);
        assert(n == (n / 10) * 10 + n % 10);
        assert(digits_value(e) == digits_value(encoded(n / 10)) * 10 + n % 10);
        assert(all_digits(e)) by {
            assert forall|i: int| 0 <= i < e.len() implies is_digit(#[trigger] e[i]) by {
                if i < e.len() - 1 {
                    assert(e[i] == encoded(n / 10)[i]);
                }
            }
        }
    } else {
        let e = encoded(n);
        assert(e.drop_last() =~= Seq::<u8>::empty());
        assert(digits_value(e.drop_last()) == 0);
        assert(digits_value(e) == n);
        assert(all_digits(e));
    }
}

/// Reading back what was written for an index yields that index.
pub proof fn lemma_round_trip(n: u32)
    ensures
        decoded(encoded(n as nat)) == Some(n),
{
    lemma_encoded(n as nat);
    let e = encoded(n as nat);
    assert(is_digit(e[0]));
    assert(digits_part(e) == e);
}

/// The index held by the stored text `bytes`, if it holds one.
pub fn read_device_index(bytes: &[u8]) -> (r: Option<u32>)
    ensures
        r == decoded(bytes@),
{
    let n = bytes.len();
    let start: usize = if n > 0 && bytes[0] == 0x2b {
        1
    } else {
        0
    };
    let ghost d = digits_part(bytes@);
    assert(d =~= bytes@.subrange(start as int, n as int));
    if start == n {
        return None;
    }
    let mut acc: u64 = 0;
    let mut i: usize = start;
    while i < n
        invariant
            n == bytes@.len(),
            start <= i <= n,
            d == bytes@.subrange(start as int, n as int),
            d == digits_part(bytes@),
            d.len() > 0,
            all_digits(d.subrange(0, i - start)),
            acc == digits_value(d.subrange(0, i - start)),
            acc <= u32::MAX,
        decreases n - i,
    {
        let b = bytes[i];
        let ghost pre = d.subrange(0, i - start);
        let ghost next = d.subrange(0, i + 1 - start);
        assert(next.drop_last() =~= pre);
        assert(next.last() == b);
        if b < 0x30 || b > 0x39 {
            assert(!is_digit(d[i - start]));
            assert(!all_digits(d));
            assert(decoded(bytes@) is None);
            return None;
        }
        assert(all_digits(next)) by {
            assert forall|j: int| 0 <= j < next.len() implies is_digit(#[trigger] next[j]) by {
                if j < pre.len() {
                    assert(next[j] == pre[j]);
                }
            }
        }
        acc = acc * 10 + (b - 0x30) as u64;
        assert(acc == digits_value(next));
        if acc > 0xffff_ffff {
            proof {
                let k = (i + 1 - start) as int;
                if all_digits(d) {
                    lemma_digits_value_monotone(d, k);
                    assert(digits_value(d) > u32::MAX);
                }
                assert(decoded(bytes@) is None);
            }
            return None;
        }
        i = i + 1;
    }
    assert(d.subrange(0, n - start) =~= d);
    Some(acc as u32)
}

/// The text to store for index `n`: its decimal digits.
pub fn write_device_index(n: u32) -> (r: Vec<u8>)
    ensures
        r@ == encoded(n as nat),
    decreases n,
{
    if n < 10 {
        let v: Vec<u8> = vec![(0x30 + n) as u8];
        assert(v@ =~= encoded(n as nat));
        v
    } else {
        let mut v = write_device_index(n / 10);
        v.push((0x30 + n % 10) as u8);
        v
    }
}

} // verus!
