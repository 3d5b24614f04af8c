//! Small operations on text, stated over its characters.

use vstd::prelude::*;
use vstd::std_specs::iter::IteratorSpec;

verus! {

/// `String::push` appends one character.
pub assume_specification[ String::push ](s: &mut String, c: char)
    ensures
        final(s)@ == old(s)@.push(c),
;

/// The characters of a text.
pub fn to_chars(s: &str) -> (chars: Vec<char>)
    ensures
        chars@ == s@,
{
    let iter = s.chars();
    let ghost all = iter.remaining();
    let mut chars: Vec<char> = Vec::new();
    for c in it: iter
        invariant
            it.seq() == all,
            chars@ =~= all.take(it.index() as int),
    {
        chars.push(c);
    }
    assert(all.take(all.len() as int) =~= all);
    chars
}

/// The text made of some of the characters.
pub fn from_chars(chars: &Vec<char>, from: usize, to: usize) -> (s: String)
    requires
        from <= to <= chars@.len(),
    ensures
        s@ == chars@.subrange(from as int, to as int),
{
    let mut s = String::new();
    let mut n: usize = from;
    while n < to
        invariant
            from <= n <= to <= chars@.len(),
            s@ =~= chars@.subrange(from as int, n as int),
        decreases to - n,
    {
        s.push(chars[n]);
        n += 1;
    }
    s
}

/// Whether two texts are the same.
pub fn same_text(a: &str, b: &str) -> (same: bool)
    ensures
        same == (a@ == b@),
{
    let x = to_chars(a);
    let y = to_chars(b);
    if x.len() != y.len() {
        return false;
    }
    let mut n: usize = 0;
    while n < x.len()
        invariant
            n <= x@.len(),
            x@.len() == y@.len(),
            x@ == a@,
            y@ == b@,
            forall|m: int| 0 <= m < n ==> x@[m] == y@[m],
        decreases x@.len() - n,
    {
        if x[n] != y[n] {
            return false;
        }
        n += 1;
    }
    assert(x@ =~= y@);
    true
}

/// A decimal digit as a character.
pub open spec fn digit(d: int) -> char {
    (48 + d) as u8 as char
}

/// A number in decimal notation.
pub open spec fn decimal_of(n: int) -> Seq<char>
    decreases n,
{
    if n < 10 {
        seq![digit(n)]
    } else {
        decimal_of(n / 10).push(digit(n % 10))
    }
}

/// A number in decimal notation.
pub fn decimal(n: u64) -> (s: String)
    ensures
        s@ == decimal_of(n as int),
    decreases n,
{
    if n < 10 {
        let mut s = String::new();
        s.push((48 + n as u8) as char);
        assert(s@ =~= seq![digit(n as int)]);
        s
    } else {
        let mut s = decimal(n / 10);
        s.push((48 + (n % 10) as u8) as char);
        s
    }
}

/// A name with spaces in place of underscores.
pub open spec fn spaced_name(name: Seq<char>) -> Seq<char> {
    name.map_values(
        |c: char|
            if c == '_' {
                ' '
            } else {
                c
            },
    )
}

/// A name with spaces in place of underscores.
pub fn spaced(name: &str) -> (s: String)
    ensures
        s@ == spaced_name(name@),
{
    let chars = to_chars(name);
    let mut s = String::new();
    let mut n: usize = 0;
    while n < chars.len()
        invariant
            n <= chars@.len(),
            s@ =~= spaced_name(chars@.take(n as int)),
        decreases chars@.len() - n,
    {
        s.push(if chars[n] == '_' { ' ' } else { chars[n] });
        n += 1;
    }
    assert(chars@.take(n as int) =~= chars@);
    s
}

/// Two texts one after the other.
pub fn joined(a: &str, b: &str) -> (s: String)
    ensures
        s@ == a@ + b@,
{
    let mut s = a.to_owned();
    s.append(b);
    s
}

/// A number in decimal notation, with a sign where it is negative.
pub open spec fn signed_decimal_of(n: int) -> Seq<char> {
    if n < 0 {
        seq!['-'] + decimal_of(-n)
    } else {
        decimal_of(n)
    }
}

/// A number in decimal notation, with a sign where it is negative.
pub fn signed_decimal(n: i32) -> (s: String)
    ensures
        s@ == signed_decimal_of(n as int),
{
    if n < 0 {
        let digits = decimal((-(n as i64)) as u64);
        let mut s = String::new();
        s.push('-');
        s.append(digits.as_str());
        assert(s@ =~= seq!['-'] + digits@);
        s
    } else {
        decimal(n as u64)
    }
}

/// Decimal notation has digits alone, no zero in front but that of zero
/// itself, and a number ten times as large with a digit more is the same
/// digits and that one.
pub proof fn law_decimal_notation(n: int, d: int)
    requires
        0 <= n,
        0 <= d < 10,
    ensures
        n > 0 ==> decimal_of(10 * n + d) == decimal_of(n).push((48 + d) as u8 as char),
        decimal_of(d) == seq![(48 + d) as u8 as char],
        decimal_of(n)[0] == '0' ==> n == 0,
        n > 0 ==> signed_decimal_of(-n) == seq!['-'] + decimal_of(n),
        signed_decimal_of(n) == decimal_of(n),
{
    lemma_first_digit(n);
    if n > 0 {
        assert((10 * n + d) / 10 == n && (10 * n + d) % 10 == d);
    }
}

proof fn lemma_first_digit(n: int)
    requires
        0 <= n,
    ensures
        decimal_of(n).len() > 0,
        decimal_of(n)[0] == '0' ==> n == 0,
    decreases n,
{
    if n >= 10 {
        lemma_first_digit(n / 10);
    }
}

/// A name is as long as before; its underscores have become spaces, and every
/// other character stands where it stood.
pub proof fn law_underscores_become_spaces(name: Seq<char>, i: int)
    requires
        0 <= i < name.len(),
    ensures
        spaced_name(name).len() == name.len(),
        name[i] == '_' ==> spaced_name(name)[i] == ' ',
        name[i] != '_' ==> spaced_name(name)[i] == name[i],
{
}

} // verus!
