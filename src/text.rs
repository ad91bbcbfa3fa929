//! Character-level helpers: appending characters, decimal rendering and
//! reading a string into a vector of characters.
use vstd::prelude::*;
use vstd::std_specs::iter::IteratorSpec;

verus! {

broadcast use vstd::string::group_string_axioms;

/// Relies on `String::push`: appends one character at the end.
#[verifier::external_body]
pub(crate) fn push_char(s: &mut String, c: char)
    ensures
        final(s)@ == old(s)@.push(c),
{
    s.push(c)
}

/// The character of the decimal digit `d`.
pub open spec fn digit_char(d: nat) -> char {
    (d + 48) as char
}

/// Decimal rendering of a natural number, most significant digit first,
/// without leading zeros.
pub open spec fn decimal(n: nat) -> Seq<char>
    decreases n,
{
    if n < 10 {
        seq![digit_char(n)]
    } else {
        decimal(n / 10).push(digit_char(n % 10))
    }
}

/// Decimal rendering of a signed integer, with a leading `-` when negative.
pub open spec fn signed_decimal(n: int) -> Seq<char> {
    if n < 0 {
        seq!['-'] + decimal((-n) as nat)
    } else {
        decimal(n as nat)
    }
}

/// Appends the decimal rendering of `n` to `out`.
pub fn push_decimal(out: &mut String, n: u64)
    ensures
        final(out)@ == old(out)@ + decimal(n as nat),
    decreases n,
{
    if n >= 10 {
        push_decimal(out, n / 10);
    }
    let d: u64 = n % 10;
    push_char(out, ((d as u8) + 48) as char);
    proof {
        assert(((d as u8) + 48) as char == digit_char(d as nat));
    }
}

/// Appends the decimal rendering of the signed `n` to `out`.
pub fn push_signed_decimal(out: &mut String, n: i32)
    ensures
        final(out)@ == old(out)@ + signed_decimal(n as int),
{
    if n < 0 {
        push_char(out, '-');
        let m: i64 = -(n as i64);
        push_decimal(out, m as u64);
        assert(final(out)@ =~= old(out)@ + signed_decimal(n as int));
    } else {
        push_decimal(out, n as u64);
    }
}

/// Appends every character of `cs` to `out`.
pub fn push_chars(out: &mut String, cs: &Vec<char>)
    ensures
        final(out)@ == old(out)@ + cs@,
{
    let ghost start = out@;
    let mut i: usize = 0;
    while i < cs.len()
        invariant
            i <= cs@.len(),
            out@ == start + cs@.take(i as int),
        decreases cs@.len() - i,
    {
        push_char(out, cs[i]);
        i += 1;
        assert(out@ =~= start + cs@.take(i as int));
    }
    assert(cs@.take(i as int) =~= cs@);
}

/// The characters of `s`, in order.
pub fn chars_of(s: &str) -> (r: Vec<char>)
    ensures
        r@ == s@,
{
    let mut out: Vec<char> = Vec::new();
    let mut it = s.chars();
    loop
        invariant
            it.remaining() == s@.skip(out@.len() as int),
            out@ == s@.take(out@.len() as int),
            out@.len() <= s@.len(),
        decreases s@.len() - out@.len(),
    {
        let ghost before = it;
        match it.next() {
            None => {
                assert(out@ =~= s@);
                return out;
            }
            Some(c) => {
                proof {
                    assert(before.remaining().len() > 0);
                    assert(s@.skip(out@.len() as int)[0] == s@[out@.len() as int]);
                }
                out.push(c);
                assert(s@.skip(out@.len() as int) =~= before.remaining().drop_first());
                assert(out@ =~= s@.take(out@.len() as int));
            }
        }
    }
}

/// Whether `s` begins with the characters of `p`.
pub fn starts_with_chars(s: &str, p: &Vec<char>) -> (r: bool)
    ensures
        r == (p@.len() <= s@.len() && s@.take(p@.len() as int) == p@),
{
    let mut it = s.chars();
    let mut i: usize = 0;
    while i < p.len()
        invariant
            i <= p@.len(),
            i <= s@.len(),
            it.remaining() == s@.skip(i as int),
            s@.take(i as int) == p@.take(i as int),
        decreases p@.len() - i,
    {
        let ghost before = it;
        match it.next() {
            None => {
                return false;
            }
            Some(c) => {
                assert(before.remaining().len() > 0);
                assert(s@.skip(i as int)[0] == s@[i as int]);
                if c != p[i] {
                    proof {
                        if p@.len() <= s@.len() {
                            assert(s@.take(p@.len() as int)[i as int] != p@[i as int]);
                        }
                    }
                    return false;
                }
                assert(s@.skip(i as int + 1) =~= before.remaining().drop_first());
                i += 1;
                assert(s@.take(i as int) =~= p@.take(i as int)) by {
                    assert(s@.take(i as int) =~= s@.take(i - 1).push(c));
                    assert(p@.take(i as int) =~= p@.take(i - 1).push(p@[i - 1]));
                }
            }
        }
    }
    assert(p@.take(i as int) =~= p@);
    true
}

} // verus!
