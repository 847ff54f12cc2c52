//! Decimal numerals and message assembly.

use vstd::prelude::*;

verus! {

/// The decimal digit `d` as a character.
pub open spec fn digit_char(d: int) -> char {
    if d == 0 {
        '0'
    } else if d == 1 {
        '1'
    } else if d == 2 {
        '2'
    } else if d == 3 {
        '3'
    } else if d == 4 {
        '4'
    } else if d == 5 {
        '5'
    } else if d == 6 {
        '6'
    } else if d == 7 {
        '7'
    } else if d == 8 {
        '8'
    } else {
        '9'
    }
}

/// The decimal numeral of `n`, without leading zeros.
pub open spec fn numeral(n: nat) -> Seq<char>
    decreases n,
{
    if n < 10 {
        seq![digit_char(n as int)]
    } else {
        numeral(n / 10).push(digit_char((n % 10) as int))
    }
}

fn digit_str(d: u64) -> (r: &'static str)
    requires
        d < 10,
    ensures
        r@ == seq![digit_char(d as int)],
{
    proof {
        reveal_strlit("0");
        reveal_strlit("1");
        reveal_strlit("2");
        reveal_strlit("3");
        reveal_strlit("4");
        reveal_strlit("5");
        reveal_strlit("6");
        reveal_strlit("7");
        reveal_strlit("8");
        reveal_strlit("9");
    }
    if d == 0 {
        "0"
    } else if d == 1 {
        "1"
    } else if d == 2 {
        "2"
    } else if d == 3 {
        "3"
    } else if d == 4 {
        "4"
    } else if d == 5 {
        "5"
    } else if d == 6 {
        "6"
    } else if d == 7 {
        "7"
    } else if d == 8 {
        "8"
    } else {
        "9"
    }
}

/// Appends the decimal numeral of `n`.
pub fn push_numeral(out: &mut String, n: u64)
    ensures
        final(out)@ == old(out)@ + numeral(n as nat),
    decreases n,
{
    if n >= 10 {
        push_numeral(out, n / 10);
    }
    out.append(digit_str(n % 10));
}

/// Appends the decimal numeral of a wide `n`.
pub fn push_wide_numeral(out: &mut String, n: u128)
    ensures
        final(out)@ == old(out)@ + numeral(n as nat),
    decreases n,
{
    if n >= 10 {
        push_wide_numeral(out, n / 10);
    }
    out.append(digit_str((n % 10) as u64));
}

/// An ASCII capital letter in lower case, any other character as it is.
pub open spec fn ascii_lower(c: char) -> char {
    if 'A' <= c <= 'Z' {
        ((c as u32) + 32) as char
    } else {
        c
    }
}

/// `str::to_ascii_lowercase` of the standard library: the letters `A` to `Z`
/// become `a` to `z`, and every other character stays.
#[verifier::external_body]
pub(crate) fn to_ascii_lowercase(s: &str) -> (r: String)
    ensures
        r@ == s@.map_values(|c: char| ascii_lower(c)),
{
    s.to_ascii_lowercase()
}

/// What `str::to_lowercase` of the standard library makes of a text.
pub uninterp spec fn lowercased(s: Seq<char>) -> Seq<char>;

/// `str::to_lowercase` of the standard library: the lower case of a text by the
/// Unicode mappings, which the contract names and does not spell out.
#[verifier::external_body]
pub(crate) fn to_lowercase(s: &str) -> (r: String)
    ensures
        r@ == lowercased(s@),
{
    s.to_lowercase()
}

/// Whether two strings hold the same characters.
pub fn is_text(a: &str, b: &str) -> (r: bool)
    ensures
        r == (a@ == b@),
{
    a.to_owned() == b.to_owned()
}

/// What a row of decimal digits says as a number.
pub open spec fn number_read(s: Seq<char>) -> int
    decreases s.len(),
{
    if s.len() == 0 {
        0
    } else {
        10 * number_read(s.drop_last()) + (s.last() as int - '0' as int)
    }
}

/// A numeral is made of digits, reads as the number it was made from, and has no
/// zero in front.
pub proof fn numerals_read_back(n: nat)
    ensures
        number_read(numeral(n)) == n,
        forall|k: int| 0 <= k < numeral(n).len() ==> '0' <= #[trigger] numeral(n)[k] <= '9',
        n > 0 ==> numeral(n)[0] != '0',
        numeral(n).len() >= 1,
    decreases n,
{
    if n < 10 {
        assert(numeral(n).drop_last() =~= Seq::empty());
        assert(number_read(Seq::empty()) == 0);
    } else {
        numerals_read_back(n / 10);
        assert(numeral(n).drop_last() =~= numeral(n / 10));
        let rest = numeral(n / 10);
        assert forall|k: int| 0 <= k < numeral(n).len() implies '0' <= #[trigger] numeral(n)[k]
            <= '9' by {
            if k < rest.len() {
                assert(numeral(n)[k] == rest[k]);
            }
        }
        assert(numeral(n)[0] == rest[0]);
    }
}

/// Different numbers have different numerals.
pub proof fn numerals_differ(a: nat, b: nat)
    requires
        numeral(a) == numeral(b),
    ensures
        a == b,
{
    numerals_read_back(a);
    numerals_read_back(b);
}

/// A text that starts with a numeral tells where the numeral ends: what follows
/// it does not start with a digit.
pub proof fn numerals_end(a: nat, b: nat, s: Seq<char>, t: Seq<char>)
    requires
        numeral(a) + s == numeral(b) + t,
        s.len() > 0 ==> !('0' <= s[0] <= '9'),
        t.len() > 0 ==> !('0' <= t[0] <= '9'),
    ensures
        a == b,
        s == t,
{
    numerals_read_back(a);
    numerals_read_back(b);
    let whole = numeral(a) + s;
    let m = numeral(a).len() as int;
    let n = numeral(b).len() as int;
    if m < n {
        assert(whole.len() == n + t.len());
        assert(s.len() > 0);
        assert(whole[m] == s[0]);
        assert(whole[m] == numeral(b)[m]);
    } else if n < m {
        assert(t.len() > 0);
        assert(whole[n] == t[0]);
        assert(whole[n] == numeral(a)[n]);
    }
    assert(whole.take(m) =~= numeral(a));
    assert(whole.take(n) =~= numeral(b));
    numerals_differ(a, b);
    assert(whole.skip(m) =~= s);
    assert(whole.skip(n) =~= t);
}

/// Texts that start alike and are equal go on alike.
pub proof fn equal_texts_go_on_alike(start: Seq<char>, s: Seq<char>, t: Seq<char>)
    requires
        start + s == start + t,
    ensures
        s == t,
{
    assert((start + s).skip(start.len() as int) =~= s);
    assert((start + t).skip(start.len() as int) =~= t);
}

} // verus!
