//! Character-level helpers on strings, with contracts over `Seq<char>`.

use vstd::prelude::*;

verus! {

/// The characters of a string slice, in order.
pub fn chars_of(s: &str) -> (res: Vec<char>)
    ensures
        res@ == s@,
{
    let mut v: Vec<char> = Vec::new();
    for c in it: s.chars()
        invariant
            v@ == it.seq().take(it.index() as int),
    {
        v.push(c);
    }
    v
}

/// The string made of the given characters, in order. It calls std's
/// `String: FromIterator<&char>`, which this contract takes on trust.
#[verifier::external_body]
pub(crate) fn string_from_chars(v: &[char]) -> (res: String)
    ensures
        res@ == v@,
{
    v.iter().collect::<String>()
}

/// The characters `v[from..to]`, as a vector.
pub fn slice_chars(v: &Vec<char>, from: usize, to: usize) -> (res: Vec<char>)
    requires
        from <= to <= v@.len(),
    ensures
        res@ == v@.subrange(from as int, to as int),
{
    let mut r: Vec<char> = Vec::new();
    let mut i = from;
    while i < to
        invariant
            from <= i <= to <= v@.len(),
            r@ == v@.subrange(from as int, i as int),
        decreases to - i,
    {
        r.push(v[i]);
        i += 1;
        assert(r@ =~= v@.subrange(from as int, i as int));
    }
    r
}

/// The string `v[from..to]`.
pub fn substring(v: &Vec<char>, from: usize, to: usize) -> (res: String)
    requires
        from <= to <= v@.len(),
    ensures
        res@ == v@.subrange(from as int, to as int),
{
    let r = slice_chars(v, from, to);
    string_from_chars(r.as_slice())
}

/// Whether two string slices hold the same characters.
pub fn str_eq(a: &str, b: &str) -> (r: bool)
    ensures
        r == (a@ == b@),
{
    let x: String = a.to_owned();
    let y: String = b.to_owned();
    x == y
}

/// Whether the characters `v[at..]` start with `pat`.
pub fn starts_with_at(v: &Vec<char>, at: usize, pat: &Vec<char>) -> (r: bool)
    requires
        at <= v@.len(),
    ensures
        r == (at + pat@.len() <= v@.len() && v@.subrange(at as int, at + pat@.len()) == pat@),
{
    if pat.len() > v.len() - at {
        return false;
    }
    let mut k: usize = 0;
    while k < pat.len()
        invariant
            at + pat@.len() <= v@.len() <= usize::MAX,
            k <= pat@.len(),
            forall|j: int| 0 <= j < k ==> v@[at + j] == pat@[j],
        decreases pat.len() - k,
    {
        if v[at + k] != pat[k] {
            assert(v@.subrange(at as int, at + pat@.len())[k as int] != pat@[k as int]);
            return false;
        }
        k += 1;
    }
    assert(v@.subrange(at as int, at + pat@.len()) =~= pat@);
    true
}

/// The decimal digits of a natural number, most significant first.
pub open spec fn digits(n: nat) -> Seq<char>
    decreases n,
{
    if n < 10 {
        seq![digit_char(n)]
    } else {
        digits(n / 10).push(digit_char(n % 10))
    }
}

/// The character of a single decimal digit.
pub open spec fn digit_char(d: nat) -> char {
    if d == 0 {
        '0'
    } else if d == 1 {
        '1'
    } else if d == 2 {
        '2'
    } else if d == 3 {
        '3'
    } else if d == 4 {
        '4'
    } else if d == 5 {
        '5'
    } else if d == 6 {
        '6'
    } else if d == 7 {
        '7'
    } else if d == 8 {
        '8'
    } else {
        '9'
    }
}

/// The decimal text of an integer, with a leading `-` when it is negative.
pub open spec fn int_text(i: int) -> Seq<char> {
    if i < 0 {
        seq!['-'] + digits((-i) as nat)
    } else {
        digits(i as nat)
    }
}

fn digit_of(d: u64) -> (c: char)
    requires
        d < 10,
    ensures
        c == digit_char(d as nat),
{
    if d == 0 {
        '0'
    } else if d == 1 {
        '1'
    } else if d == 2 {
        '2'
    } else if d == 3 {
        '3'
    } else if d == 4 {
        '4'
    } else if d == 5 {
        '5'
    } else if d == 6 {
        '6'
    } else if d == 7 {
        '7'
    } else if d == 8 {
        '8'
    } else {
        '9'
    }
}

fn push_digits(n: u64, out: &mut Vec<char>)
    ensures
        final(out)@ == old(out)@ + digits(n as nat),
    decreases n,
{
    if n < 10 {
        out.push(digit_of(n));
        assert(digits(n as nat) =~= seq![digit_char(n as nat)]);
    } else {
        push_digits(n / 10, out);
        out.push(digit_of(n % 10));
        assert(digits(n as nat) == digits((n / 10) as nat).push(digit_char((n % 10) as nat)));
    }
}

/// The decimal text of an integer.
pub fn int_to_text(i: i64) -> (res: Vec<char>)
    ensures
        res@ == int_text(i as int),
{
    let mut out: Vec<char> = Vec::new();
    if i < 0 {
        out.push('-');
        let m: u64 = if i == i64::MIN {
            9223372036854775808u64
        } else {
            (-i) as u64
        };
        push_digits(m, &mut out);
    } else {
        push_digits(i as u64, &mut out);
        assert(out@ =~= int_text(i as int));
    }
    out
}


/// The decimal text of a natural number reads back as that number: every
/// character is a digit, the first is `0` only for zero itself, and the
/// digits' decimal value is the number.
pub proof fn law_digits_read_back(n: nat)
    ensures
        forall|k: int| 0 <= k < digits(n).len() ==> crate::grammar::is_digit(#[trigger] digits(n)[k]),
        digits(n).len() > 0,
        n > 0 ==> digits(n)[0] != '0',
        crate::grammar::digits_value(digits(n)) == n,
    decreases n,
{
    if n < 10 {
        assert(crate::grammar::digits_value(digits(n).drop_last()) == 0);
    } else {
        law_digits_read_back(n / 10);
        let d = digits(n);
        assert(d.drop_last() =~= digits(n / 10));
        assert(d[0] == digits(n / 10)[0]);
        assert forall|k: int| 0 <= k < d.len() implies crate::grammar::is_digit(#[trigger] d[k]) by {
            if k < d.len() - 1 {
                assert(d[k] == digits(n / 10)[k]);
            }
        }
    }
}

/// The text of an integer: its digits, after a `-` when it is negative.
pub proof fn law_int_text(i: int)
    ensures
        i >= 0 ==> int_text(i) == digits(i as nat),
        i < 0 ==> int_text(i)[0] == '-' && int_text(i).drop_first() == digits((-i) as nat),
        crate::grammar::digits_value(if i < 0 { int_text(i).drop_first() } else { int_text(i) }) == if i < 0 { -i } else { i },
{
    if i < 0 {
        assert(int_text(i).drop_first() =~= digits((-i) as nat));
        law_digits_read_back((-i) as nat);
    } else {
        law_digits_read_back(i as nat);
    }
}

} // verus!
