//! Small text helpers shared by the other modules.

use vstd::prelude::*;

verus! {

/// Builds a `String` out of a sequence of characters.
///
/// Relies on `FromIterator<&char> for String` (std): the string holds the
/// characters in order.
#[verifier::external_body]
pub(crate) fn string_from_chars(v: &Vec<char>) -> (r: String)
    ensures
        r@ == v@,
{
    v.iter().collect()
}

/// A copy of a byte vector.
pub fn copy_bytes(v: &Vec<u8>) -> (r: Vec<u8>)
    ensures
        r@ == v@,
{
    let mut out: Vec<u8> = Vec::new();
    let mut i: usize = 0;
    while i < v.len()
        invariant
            i <= v@.len(),
            out@ == v@.subrange(0, i as int),
        decreases v@.len() - i,
    {
        out.push(v[i]);
        i = i + 1;
        assert(out@ == v@.subrange(0, i as int));
    }
    assert(v@.subrange(0, v@.len() as int) == v@);
    out
}

/// Whether two byte slices hold the same bytes.
pub fn bytes_equal(a: &[u8], b: &[u8]) -> (r: bool)
    ensures
        r == (a@ == b@),
{
    if a.len() != b.len() {
        return false;
    }
    let mut i: usize = 0;
    while i < a.len()
        invariant
            a@.len() == b@.len(),
            i <= a@.len(),
            a@.subrange(0, i as int) == b@.subrange(0, i as int),
        decreases a@.len() - i,
    {
        if a[i] != b[i] {
            assert(a@[i as int] != b@[i as int]);
            return false;
        }
        i = i + 1;
        assert(a@.subrange(0, i as int) == a@.subrange(0, i - 1).push(a@[i - 1]));
        assert(b@.subrange(0, i as int) == b@.subrange(0, i - 1).push(b@[i - 1]));
    }
    assert(a@ == a@.subrange(0, a@.len() as int));
    assert(b@ == b@.subrange(0, b@.len() as int));
    true
}

/// The decimal digit for `d`, which is below ten.
pub open spec fn digit_char(d: nat) -> char {
    ((48 + d) as u32) as char
}

/// The decimal form of `n`, without leading zeros.
pub open spec fn decimal(n: nat) -> Seq<char>
    decreases n,
{
    if n < 10 {
        seq![digit_char(n)]
    } else {
        decimal(n / 10).push(digit_char(n % 10))
    }
}

fn push_decimal(n: u64, out: &mut Vec<char>)
    ensures
        final(out)@ == old(out)@ + decimal(n as nat),
    decreases n,
{
    if n >= 10 {
        push_decimal(n / 10, out);
    }
    let d = (n % 10) as u8;
    out.push((48u8 + d) as char);
    proof {
        assert(old(out)@ + decimal(n as nat) =~= out@);
    }
}

/// The decimal form of `n`.
pub fn decimal_string(n: u64) -> (r: String)
    ensures
        r@ == decimal(n as nat),
{
    let mut digits: Vec<char> = Vec::new();
    push_decimal(n, &mut digits);
    assert(digits@ =~= decimal(n as nat));
    string_from_chars(&digits)
}

/// Elapsed time, given in whole seconds, in the form `5s`, `2min 5s` or
/// `1hr 2min 5s`: the larger units appear from the first one that is not zero.
pub open spec fn elapsed_text(total_secs: nat) -> Seq<char> {
    let hours = total_secs / 3600;
    let mins = (total_secs % 3600) / 60;
    let secs = total_secs % 60;
    let s_part = decimal(secs) + seq!['s'];
    if hours == 0 && mins == 0 {
        s_part
    } else if hours == 0 {
        decimal(mins) + seq!['m', 'i', 'n', ' '] + s_part
    } else {
        decimal(hours) + seq!['h', 'r', ' '] + decimal(mins) + seq!['m', 'i', 'n', ' '] + s_part
    }
}

/// Renders an elapsed time given in whole seconds: see `elapsed_text`.
pub fn format_elapsed(total_secs: u64) -> (r: String)
    ensures
        r@ == elapsed_text(total_secs as nat),
{
    let hours = total_secs / 3600;
    let mins = (total_secs % 3600) / 60;
    let secs = total_secs % 60;
    let mut out = String::new();
    if hours != 0 {
        out.append(decimal_string(hours).as_str());
        out.append("hr ");
    }
    if hours != 0 || mins != 0 {
        out.append(decimal_string(mins).as_str());
        out.append("min ");
    }
    out.append(decimal_string(secs).as_str());
    out.append("s");
    proof {
        reveal_strlit("hr ");
        reveal_strlit("min ");
        reveal_strlit("s");
        assert(out@ =~= elapsed_text(total_secs as nat));
    }
    out
}

} // verus!
