//! Byte-level building blocks of the persisted record: ASCII literals and
//! unsigned decimal numbers, written and read back.
use vstd::prelude::*;

verus! {

/// The bytes of an ASCII text.
pub open spec fn ascii(s: Seq<char>) -> Seq<u8> {
    s.map_values(|c: char| c as u8)
}

pub open spec fn is_digit(c: u8) -> bool {
    48 <= c && c <= 57
}

/// What may follow a number: nothing, or a byte that is not a digit.
pub open spec fn ends_number(s: Seq<u8>) -> bool {
    s.len() == 0 || !is_digit(s[0])
}

/// The shortest decimal form of `n`, most significant digit first.
pub open spec fn decimal(n: nat) -> Seq<u8>
    decreases n,
{
    if n < 10 {
        seq![(n + 48) as u8]
    } else {
        decimal(n / 10).push((n % 10 + 48) as u8)
    }
}

/// The number that a run of digits denotes.
pub open spec fn digits_value(s: Seq<u8>) -> nat
    decreases s.len(),
{
    if s.len() == 0 {
        0
    } else {
        digits_value(s.drop_last()) * 10 + (s.last() - 48) as nat
    }
}

/// A key followed by a number and then by whatever comes after.
pub open spec fn field(key: Seq<u8>, n: nat, rest: Seq<u8>) -> Seq<u8> {
    key + (decimal(n) + rest)
}

pub proof fn lemma_decimal(n: nat)
    ensures
        decimal(n).len() >= 1,
        forall|i: int| 0 <= i < decimal(n).len() ==> is_digit(#[trigger] decimal(n)[i]),
        digits_value(decimal(n)) == n,
    decreases n,
{
    let d = decimal(n);
    if n >= 10 {
        lemma_decimal(n / 10);
        assert(d.drop_last() =~= decimal(n / 10));
        assert(d.last() - 48 == n % 10);
        assert(n == (n / 10) * 10 + n % 10);
    } else {
        assert(d.drop_last() =~= Seq::<u8>::empty());
    }
    assert(digits_value(d) == digits_value(d.drop_last()) * 10 + (d.last() - 48) as nat);
}

/// Digits followed by a non-digit can be split in one way only.
pub proof fn lemma_decimal_unique(a: nat, b: nat, x: Seq<u8>, y: Seq<u8>)
    requires
        decimal(a) + x == decimal(b) + y,
        ends_number(x),
        ends_number(y),
    ensures
        a == b,
        x == y,
{
    lemma_decimal(a);
    lemma_decimal(b);
    let da = decimal(a);
    let db = decimal(b);
    let whole = da + x;
    if da.len() < db.len() {
        assert(whole[da.len() as int] == x[0]);
        assert((db + y)[da.len() as int] == db[da.len() as int]);
    } else if db.len() < da.len() {
        assert((db + y)[db.len() as int] == y[0]);
        assert(whole[db.len() as int] == da[db.len() as int]);
    }
    assert(da =~= whole.subrange(0, da.len() as int));
    assert(db =~= (db + y).subrange(0, db.len() as int));
    assert(x =~= whole.subrange(da.len() as int, whole.len() as int));
    assert(y =~= (db + y).subrange(db.len() as int, whole.len() as int));
}

/// A field is determined by its number and what follows it.
pub proof fn lemma_field_unique(key: Seq<u8>, a: nat, b: nat, x: Seq<u8>, y: Seq<u8>)
    requires
        field(key, a, x) == field(key, b, y),
        ends_number(x),
        ends_number(y),
    ensures
        a == b,
        x == y,
{
    let fa = field(key, a, x);
    assert(decimal(a) + x =~= fa.subrange(key.len() as int, fa.len() as int));
    assert(decimal(b) + y =~= field(key, b, y).subrange(key.len() as int, fa.len() as int));
    lemma_decimal_unique(a, b, x, y);
}

/// The bytes of an ASCII string slice.
pub(crate) fn ascii_bytes(s: &str) -> (b: &[u8])
    requires
        vstd::string::is_ascii(s),
    ensures
        b@ == ascii(s@),
{
    proof {
        vstd::string::is_ascii_spec_bytes(s);
    }
    let b = s.as_bytes();
    assert(b@ =~= ascii(s@));
    b
}

pub(crate) fn bytes_equal(a: &[u8], b: &[u8]) -> (r: bool)
    ensures
        r == (a@ == b@),
{
    if a.len() != b.len() {
        return false;
    }
    let mut i: usize = 0;
    while i < a.len()
        invariant
            a@.len() == b@.len(),
            i <= a@.len(),
            forall|j: int| 0 <= j < i ==> a@[j] == b@[j],
        decreases a@.len() - i,
    {
        if a[i] != b[i] {
            return false;
        }
        i = i + 1;
    }
    assert(a@ =~= b@);
    true
}

pub(crate) fn write_bytes(out: &mut Vec<u8>, bytes: &[u8])
    ensures
        final(out)@ == old(out)@ + bytes@,
{
    let mut i: usize = 0;
    while i < bytes.len()
        invariant
            i <= bytes@.len(),
            out@ == old(out)@ + bytes@.subrange(0, i as int),
        decreases bytes@.len() - i,
    {
        out.push(bytes[i]);
        i = i + 1;
        assert(out@ =~= old(out)@ + bytes@.subrange(0, i as int));
    }
    assert(bytes@.subrange(0, i as int) =~= bytes@);
}

pub(crate) fn write_decimal(out: &mut Vec<u8>, n: u32)
    ensures
        final(out)@ == old(out)@ + decimal(n as nat),
    decreases n,
{
    if n >= 10 {
        write_decimal(out, n / 10);
    }
    let digit: u8 = (n % 10) as u8 + 48;
    out.push(digit);
    assert(out@ =~= old(out)@ + decimal(n as nat));
}

/// Where `lit` stands in `b` at `pos`, the position after it.
pub(crate) fn read_literal(b: &[u8], pos: usize, lit: &[u8]) -> (r: Option<usize>)
    requires
        pos <= b@.len(),
    ensures
        match r {
            Some(p) => p == pos + lit@.len() && p <= b@.len() && b@.subrange(pos as int, p as int)
                == lit@,
            None => !(pos + lit@.len() <= b@.len() && b@.subrange(pos as int, pos + lit@.len())
                == lit@),
        },
{
    if lit.len() > b.len() - pos {
        return None;
    }
    let len = b.len();
    let mut i: usize = 0;
    while i < lit.len()
        invariant
            len == b@.len(),
            pos + lit@.len() <= b@.len(),
            i <= lit@.len(),
            forall|j: int| 0 <= j < i ==> b@[pos + j] == lit@[j],
        decreases lit@.len() - i,
    {
        assert(pos + i < b@.len());
        if b[pos + i] != lit[i] {
            assert(b@.subrange(pos as int, pos + lit@.len())[i as int] != lit@[i as int]);
            return None;
        }
        i = i + 1;
    }
    assert(b@.subrange(pos as int, pos + lit@.len()) =~= lit@);
    Some(pos + lit.len())
}

pub proof fn lemma_prefix_value(s: Seq<u8>, k: int)
    requires
        0 <= k <= s.len(),
    ensures
        digits_value(s.subrange(0, k)) <= digits_value(s),
    decreases s.len(),
{
    if k < s.len() {
        lemma_prefix_value(s.drop_last(), k);
        assert(s.drop_last().subrange(0, k) =~= s.subrange(0, k));
    } else {
        assert(s.subrange(0, k) =~= s);
    }
}

/// Reads the run of digits at `pos` as a `u32`. Where the bytes from `pos`
/// on are the decimal form of a `u32` followed by a non-digit or by nothing,
/// that number comes back with the position after it.
pub(crate) fn read_decimal(b: &[u8], pos: usize) -> (r: Option<(u32, usize)>)
    requires
        pos <= b@.len(),
    ensures
        r matches Some((_, end)) ==> pos < end <= b@.len(),
        forall|n: nat, rest: Seq<u8>|
            #![trigger decimal(n) + rest]
            n <= u32::MAX && ends_number(rest) && b@.subrange(pos as int, b@.len() as int)
                == decimal(n) + rest ==> (r matches Some((v, end)) && v == n && end == pos
                + decimal(n).len()),
{
    let ghost tail = b@.subrange(pos as int, b@.len() as int);
    let mut i: usize = pos;
    let mut v: u64 = 0;
    while i < b.len() && b[i] >= 48 && b[i] <= 57
        invariant
            pos <= i <= b@.len(),
            tail == b@.subrange(pos as int, b@.len() as int),
            forall|j: int| pos <= j < i ==> is_digit(#[trigger] b@[j]),
            v == digits_value(b@.subrange(pos as int, i as int)),
            v <= u32::MAX,
        decreases b@.len() - i,
    {
        let ghost run = b@.subrange(pos as int, i + 1);
        assert(run.drop_last() =~= b@.subrange(pos as int, i as int));
        v = v * 10 + (b[i] - 48) as u64;
        i = i + 1;
        if v > 4294967295 {
            assert forall|n: nat, rest: Seq<u8>|
                n <= u32::MAX && ends_number(rest) && tail == #[trigger] (decimal(n) + rest)
                implies false by {
                lemma_decimal(n);
                let d = decimal(n);
                if i - pos > d.len() {
                    assert(tail[d.len() as int] == rest[0]);
                    assert(tail[d.len() as int] == b@[pos + d.len()]);
                }
                assert(run =~= d.subrange(0, i - pos));
                lemma_prefix_value(d, i - pos);
            }
            return None;
        }
    }
    assert forall|n: nat, rest: Seq<u8>|
        n <= u32::MAX && ends_number(rest) && tail == #[trigger] (decimal(n) + rest) implies i
        == pos + decimal(n).len() && v == n by {
        lemma_decimal(n);
        let d = decimal(n);
        if i - pos > d.len() {
            assert(tail[d.len() as int] == rest[0]);
            assert(tail[d.len() as int] == b@[pos + d.len()]);
        }
        if i - pos < d.len() {
            assert(tail[i - pos] == d[i - pos]);
            assert(tail[i - pos] == b@[i as int]);
        }
        assert(b@.subrange(pos as int, i as int) =~= d);
    }
    if i == pos {
        return None;
    }
    Some((v as u32, i))
}

/// Reads `key` and then a number at `pos`; where the bytes from `pos` on are
/// such a field, gives its number, the position after it, and leaves the
/// rest for the next read.
pub(crate) fn read_field(b: &[u8], pos: usize, key: &[u8]) -> (r: Option<(u32, usize)>)
    requires
        pos <= b@.len(),
    ensures
        r matches Some((_, end)) ==> pos < end <= b@.len(),
        forall|n: nat, rest: Seq<u8>|
            #![trigger field(key@, n, rest)]
            n <= u32::MAX && ends_number(rest) && b@.subrange(pos as int, b@.len() as int)
                == field(key@, n, rest) ==> {
                &&& (r matches Some((v, end)) && v == n && end == pos + key@.len() + decimal(n).len())
                &&& b@.subrange(pos + key@.len() + decimal(n).len(), b@.len() as int) == rest
            },
{
    let ghost tail = b@.subrange(pos as int, b@.len() as int);
    let after = read_literal(b, pos, key);
    proof {
        assert forall|n: nat, rest: Seq<u8>|
            n <= u32::MAX && ends_number(rest) && tail == #[trigger] field(key@, n, rest) implies {
            &&& (after matches Some(p) && p == pos + key@.len())
            &&& b@.subrange(pos + key@.len(), b@.len() as int) == decimal(n) + rest
            &&& b@.subrange(pos + key@.len() + decimal(n).len(), b@.len() as int) == rest
        } by {
            let f = field(key@, n, rest);
            assert(f.len() == b@.len() - pos);
            assert(b@.subrange(pos as int, pos + key@.len()) =~= f.subrange(0, key@.len() as int));
            assert(f.subrange(0, key@.len() as int) =~= key@);
            assert(b@.subrange(pos + key@.len(), b@.len() as int) =~= f.subrange(
                key@.len() as int,
                f.len() as int,
            ));
            assert(f.subrange(key@.len() as int, f.len() as int) =~= decimal(n) + rest);
            assert(b@.subrange(pos + key@.len() + decimal(n).len(), b@.len() as int) =~= f.subrange(
                (key@.len() + decimal(n).len()) as int,
                f.len() as int,
            ));
            assert(f.subrange((key@.len() + decimal(n).len()) as int, f.len() as int) =~= rest);
        }
    }
    match after {
        None => None,
        Some(p) => read_decimal(b, p),
    }
}

} // verus!
