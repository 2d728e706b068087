//! Byte-level text utilities: splitting on a separator byte, ASCII
//! whitespace trimming, and decimal parsing/formatting of identifiers.
//! The manifest format is line-oriented ASCII, so all parsing works on
//! byte slices.

use vstd::prelude::*;

verus! {

/// The ASCII whitespace bytes removed by trimming.
pub open spec fn is_ascii_space(b: u8) -> bool {
    b == 32 || (9 <= b && b <= 13)
}

/// Splitting a byte sequence on a separator, keeping empty fields: the
/// result always has one more field than there are separators.
pub open spec fn split_on(s: Seq<u8>, sep: u8) -> Seq<Seq<u8>>
    decreases s.len(),
{
    if s.len() == 0 {
        seq![Seq::<u8>::empty()]
    } else if s[0] == sep {
        seq![Seq::<u8>::empty()] + split_on(s.drop_first(), sep)
    } else {
        let rest = split_on(s.drop_first(), sep);
        seq![seq![s[0]] + rest[0]] + rest.drop_first()
    }
}

pub proof fn lemma_split_on_nonempty(s: Seq<u8>, sep: u8)
    ensures
        split_on(s, sep).len() >= 1,
    decreases s.len(),
{
    if s.len() > 0 {
        lemma_split_on_nonempty(s.drop_first(), sep);
    }
}

/// Splits `s` on `sep`, keeping empty fields.
pub fn split_bytes(s: &[u8], sep: u8) -> (r: Vec<Vec<u8>>)
    ensures
        r@.map_values(|f: Vec<u8>| f@) == split_on(s@, sep),
{
    let ghost whole: Seq<u8> = s@;
    let mut r: Vec<Vec<u8>> = Vec::new();
    let mut cur: Vec<u8> = Vec::new();
    let mut i: usize = 0;
    proof {
        lemma_split_on_nonempty(whole, sep);
        assert(whole.skip(0) =~= whole);
        assert(r@.map_values(|f: Vec<u8>| f@) + seq![cur@ + split_on(whole.skip(0), sep)[0]]
            + split_on(whole.skip(0), sep).drop_first() =~= split_on(whole, sep));
    }
    while i < s.len()
        invariant
            i <= whole.len(),
            s@ == whole,
            split_on(whole, sep) == r@.map_values(|f: Vec<u8>| f@) + seq![
                cur@ + split_on(whole.skip(i as int), sep)[0],
            ] + split_on(whole.skip(i as int), sep).drop_first(),
        decreases whole.len() - i,
    {
        let ghost rem = whole.skip(i as int);
        let ghost rem1 = whole.skip(i as int + 1);
        proof {
            assert(rem.len() > 0);
            assert(rem[0] == whole[i as int]);
            assert(rem.drop_first() =~= rem1);
            lemma_split_on_nonempty(rem1, sep);
        }
        let c = s[i];
        if c == sep {
            proof {
                assert(split_on(rem, sep) =~= seq![Seq::<u8>::empty()] + split_on(rem1, sep));
                assert(r@.push(cur).map_values(|f: Vec<u8>| f@) =~= r@.map_values(
                    |f: Vec<u8>| f@,
                ).push(cur@));
                assert(cur@ + split_on(rem, sep)[0] =~= cur@);
                assert(split_on(whole, sep) =~= r@.map_values(|f: Vec<u8>| f@).push(cur@) + seq![
                    Seq::<u8>::empty() + split_on(rem1, sep)[0],
                ] + split_on(rem1, sep).drop_first());
            }
            r.push(cur);
            cur = Vec::new();
            proof {
                assert(Seq::<u8>::empty() + split_on(rem1, sep)[0] =~= cur@ + split_on(
                    rem1,
                    sep,
                )[0]);
            }
        } else {
            proof {
                assert(split_on(rem, sep) =~= seq![seq![rem[0]] + split_on(rem1, sep)[0]]
                    + split_on(rem1, sep).drop_first());
                assert(cur@ + split_on(rem, sep)[0] =~= cur@.push(c) + split_on(rem1, sep)[0]);
                assert(split_on(rem, sep).drop_first() =~= split_on(rem1, sep).drop_first());
            }
            cur.push(c);
        }
        i = i + 1;
    }
    proof {
        assert(whole.skip(whole.len() as int) =~= Seq::<u8>::empty());
        assert(split_on(whole.skip(whole.len() as int), sep) =~= seq![Seq::<u8>::empty()]);
        assert(cur@ + Seq::<u8>::empty() =~= cur@);
        assert(r@.push(cur).map_values(|f: Vec<u8>| f@) =~= r@.map_values(|f: Vec<u8>| f@).push(
            cur@,
        ));
        assert(split_on(whole, sep) =~= r@.map_values(|f: Vec<u8>| f@).push(cur@));
    }
    r.push(cur);
    r
}

/// The `n`-th field of `s` split on `sep`, if there are that many fields.
pub open spec fn field_spec(s: Seq<u8>, sep: u8, n: int) -> Option<Seq<u8>> {
    let fs = split_on(s, sep);
    if 0 <= n < fs.len() {
        Some(fs[n])
    } else {
        None
    }
}

/// A sequence with leading ASCII whitespace removed.
pub open spec fn trim_start_spec(s: Seq<u8>) -> Seq<u8>
    decreases s.len(),
{
    if s.len() > 0 && is_ascii_space(s[0]) {
        trim_start_spec(s.drop_first())
    } else {
        s
    }
}

/// A sequence with trailing ASCII whitespace removed.
pub open spec fn trim_end_spec(s: Seq<u8>) -> Seq<u8>
    decreases s.len(),
{
    if s.len() > 0 && is_ascii_space(s.last()) {
        trim_end_spec(s.drop_last())
    } else {
        s
    }
}

/// A sequence with ASCII whitespace removed from both ends.
pub open spec fn trim_spec(s: Seq<u8>) -> Seq<u8> {
    trim_end_spec(trim_start_spec(s))
}

/// Removes ASCII whitespace from both ends of `s`.
pub fn trim_bytes(s: &[u8]) -> (r: &[u8])
    ensures
        r@ == trim_spec(s@),
{
    let mut i: usize = 0;
    proof {
        assert(s@.skip(0) =~= s@);
    }
    while i < s.len() && (s[i] == 32 || (9 <= s[i] && s[i] <= 13))
        invariant
            i <= s@.len(),
            trim_start_spec(s@) == trim_start_spec(s@.skip(i as int)),
        decreases s@.len() - i,
    {
        proof {
            assert(s@.skip(i as int).drop_first() =~= s@.skip(i as int + 1));
        }
        i = i + 1;
    }
    let ghost head = s@.skip(i as int);
    proof {
        assert(trim_start_spec(head) == head);
    }
    let mut j: usize = s.len();
    proof {
        assert(head.take(head.len() as int) =~= head);
    }
    while j > i && (s[j - 1] == 32 || (9 <= s[j - 1] && s[j - 1] <= 13))
        invariant
            i <= j <= s@.len(),
            head == s@.skip(i as int),
            trim_end_spec(head) == trim_end_spec(head.take(j - i as int)),
        decreases j,
    {
        proof {
            let part = head.take(j - i as int);
            assert(part.len() > 0 && part.last() == s@[j - 1]);
            assert(part.drop_last() =~= head.take(j - 1 - i as int));
        }
        j = j - 1;
    }
    proof {
        let part = head.take(j - i as int);
        assert(trim_end_spec(part) == part);
        assert(part =~= s@.subrange(i as int, j as int));
    }
    vstd::slice::slice_subrange(s, i, j)
}

/// True when `p` is a prefix of `s`.
pub open spec fn starts_with_spec(s: Seq<u8>, p: Seq<u8>) -> bool {
    p.len() <= s.len() && s.take(p.len() as int) == p
}

/// Prefix test for byte slices.
pub fn starts_with_bytes(s: &[u8], p: &[u8]) -> (r: bool)
    ensures
        r == starts_with_spec(s@, p@),
{
    if p.len() > s.len() {
        return false;
    }
    let mut i: usize = 0;
    while i < p.len()
        invariant
            i <= p@.len() <= s@.len(),
            forall|k: int| 0 <= k < i ==> s@[k] == p@[k],
        decreases p@.len() - i,
    {
        if s[i] != p[i] {
            proof {
                assert(s@.take(p@.len() as int)[i as int] != p@[i as int]);
            }
            return false;
        }
        i = i + 1;
    }
    proof {
        assert(s@.take(p@.len() as int) =~= p@);
    }
    true
}

/// Equality of byte slices.
pub fn bytes_eq(a: &[u8], b: &[u8]) -> (r: bool)
    ensures
        r == (a@ == b@),
{
    if a.len() != b.len() {
        proof {
            assert(a@ != b@);
        }
        return false;
    }
    let mut i: usize = 0;
    while i < a.len()
        invariant
            i <= a@.len() == b@.len(),
            forall|k: int| 0 <= k < i ==> a@[k] == b@[k],
        decreases a@.len() - i,
    {
        if a[i] != b[i] {
            return false;
        }
        i = i + 1;
    }
    proof {
        assert(a@ =~= b@);
    }
    true
}

/// An ASCII decimal digit.
pub open spec fn is_digit(b: u8) -> bool {
    48 <= b <= 57
}

pub open spec fn all_digits(s: Seq<u8>) -> bool {
    forall|i: int| 0 <= i < s.len() ==> is_digit(#[trigger] s[i])
}

/// The number denoted by a digit sequence, most significant digit first.
pub open spec fn digits_val(s: Seq<u8>) -> nat
    decreases s.len(),
{
    if s.len() == 0 {
        0
    } else {
        digits_val(s.drop_last()) * 10 + (s.last() - 48) as nat
    }
}

/// What `str::parse::<u32>` yields on a plain digit string: the denoted
/// number when every byte is a digit, there is at least one, and the value
/// fits; nothing otherwise.
pub open spec fn parse_u32_spec(s: Seq<u8>) -> Option<u32> {
    if s.len() > 0 && all_digits(s) && digits_val(s) <= u32::MAX {
        Some(digits_val(s) as u32)
    } else {
        None
    }
}

/// Appending digits never decreases the denoted value.
proof fn lemma_digits_val_prefix(s: Seq<u8>, j: int)
    requires
        0 <= j <= s.len(),
    ensures
        digits_val(s) >= digits_val(s.take(j)),
    decreases s.len(),
{
    if j < s.len() {
        lemma_digits_val_prefix(s.drop_last(), j);
        assert(s.drop_last().take(j) =~= s.take(j));
        assert(digits_val(s.drop_last()) * 10 >= digits_val(s.drop_last())) by (nonlinear_arith);
    } else {
        assert(s.take(j) =~= s);
    }
}

/// Parses a byte string as a decimal `u32`, as the directory and manifest
/// identifiers are written.
pub fn parse_u32_bytes(s: &[u8]) -> (r: Option<u32>)
    ensures
        r == parse_u32_spec(s@),
{
    if s.len() == 0 {
        return None;
    }
    let mut acc: u64 = 0;
    let mut i: usize = 0;
    while i < s.len()
        invariant
            0 < s@.len(),
            i <= s@.len(),
            all_digits(s@.take(i as int)),
            acc == digits_val(s@.take(i as int)),
            acc <= u32::MAX,
        decreases s@.len() - i,
    {
        let c = s[i];
        proof {
            assert(s@.take(i as int + 1).drop_last() =~= s@.take(i as int));
            assert(s@.take(i as int + 1).last() == s@[i as int]);
        }
        if c < 48 || c > 57 {
            proof {
                assert(!is_digit(s@[i as int]));
            }
            return None;
        }
        let next: u64 = acc * 10 + (c - 48) as u64;
        if next > 0xFFFF_FFFF {
            proof {
                lemma_digits_val_prefix(s@, i as int + 1);
                assert(s@.take(s@.len() as int) =~= s@);
            }
            return None;
        }
        acc = next;
        i = i + 1;
    }
    proof {
        assert(s@.take(s@.len() as int) =~= s@);
    }
    Some(acc as u32)
}

/// The decimal digit string of a number, as `u32::to_string` writes it.
pub open spec fn dec_of(n: nat) -> Seq<u8>
    decreases n,
{
    if n < 10 {
        seq![(48 + n) as u8]
    } else {
        dec_of(n / 10).push((48 + n % 10) as u8)
    }
}

/// Formats `n` in decimal.
pub fn u32_to_dec(n: u32) -> (r: Vec<u8>)
    ensures
        r@ == dec_of(n as nat),
{
    let mut rev: Vec<u8> = Vec::new();
    let mut m: u32 = n;
    proof {
        assert(Seq::<u8>::empty().reverse() =~= Seq::<u8>::empty());
        assert(dec_of(m as nat) + Seq::<u8>::empty() =~= dec_of(m as nat));
    }
    loop
        invariant_except_break
            dec_of(n as nat) == dec_of(m as nat) + rev@.reverse(),
        invariant
            m <= n,
        ensures
            dec_of(n as nat) == rev@.reverse(),
        decreases m,
    {
        let d: u8 = (48 + (m % 10)) as u8;
        proof {
            assert(rev@.push(d).reverse() =~= seq![d] + rev@.reverse());
            if m >= 10 {
                assert(dec_of(m as nat) =~= dec_of((m as nat) / 10).push(d));
                assert(dec_of((m as nat) / 10) + (seq![d] + rev@.reverse()) =~= dec_of(
                    m as nat,
                ) + rev@.reverse());
                assert((m as nat) / 10 == (m / 10) as nat);
            } else {
                assert(dec_of(m as nat) =~= seq![d]);
                assert(seq![d] + rev@.reverse() =~= dec_of(m as nat) + rev@.reverse());
            }
        }
        rev.push(d);
        m = m / 10;
        if m == 0 {
            break;
        }
    }
    let mut r: Vec<u8> = Vec::new();
    let mut i: usize = rev.len();
    while i > 0
        invariant
            i <= rev@.len(),
            r@.len() == rev@.len() - i,
            forall|k: int| 0 <= k < r@.len() ==> r@[k] == rev@[rev@.len() - 1 - k],
        decreases i,
    {
        i = i - 1;
        r.push(rev[i]);
    }
    proof {
        assert(r@ =~= rev@.reverse());
    }
    r
}

} // verus!
