//! Names that players type: of worlds and of themselves.

use crate::text::{from_chars, to_chars};
use vstd::prelude::*;

verus! {

/// Longest accepted world name, in characters.
pub const MAX_WORLD_NAME_CHARS: usize = 32;

/// Whether a character is white space, in the sense of Unicode's property
/// `White_Space`.
pub open spec fn whitespace(c: char) -> bool {
    let code = c as u32;
    ||| 0x09 <= code <= 0x0d
    ||| code == 0x20 || code == 0x85 || code == 0xa0 || code == 0x1680
    ||| 0x2000 <= code <= 0x200a
    ||| code == 0x2028 || code == 0x2029 || code == 0x202f || code == 0x205f || code == 0x3000
}

/// Whether a character is white space.
pub fn is_whitespace(c: char) -> (b: bool)
    ensures
        b == whitespace(c),
{
    let code: u32 = c as u32;
    (0x09 <= code && code <= 0x0d) || code == 0x20 || code == 0x85 || code == 0xa0 || code == 0x1680
        || (0x2000 <= code && code <= 0x200a) || code == 0x2028 || code == 0x2029 || code == 0x202f
        || code == 0x205f || code == 0x3000
}

/// Whether a character is a control code: the first 32 code points and those
/// from 127 to 159.
pub open spec fn control(c: char) -> bool {
    c as u32 <= 0x1f || 0x7f <= c as u32 <= 0x9f
}

/// Whether a character is a control code.
pub fn is_control(c: char) -> (b: bool)
    ensures
        b == control(c),
{
    let code: u32 = c as u32;
    code <= 0x1f || (0x7f <= code && code <= 0x9f)
}

/// A text without the whitespace at its start.
pub open spec fn trimmed_start(s: Seq<char>) -> Seq<char>
    decreases s.len(),
{
    if s.len() > 0 && whitespace(s[0]) {
        trimmed_start(s.drop_first())
    } else {
        s
    }
}

/// A text without the whitespace at its end.
pub open spec fn trimmed_end(s: Seq<char>) -> Seq<char>
    decreases s.len(),
{
    if s.len() > 0 && whitespace(s.last()) {
        trimmed_end(s.drop_last())
    } else {
        s
    }
}

/// A text without the whitespace around it.
pub open spec fn trimmed(s: Seq<char>) -> Seq<char> {
    trimmed_end(trimmed_start(s))
}

proof fn lemma_trimmed_end_keeps_start(s: Seq<char>)
    requires
        s.len() == 0 || !whitespace(s[0]),
    ensures
        trimmed_end(s).len() == 0 || !whitespace(trimmed_end(s)[0]),
        trimmed_end(trimmed_end(s)) == trimmed_end(s),
    decreases s.len(),
{
    if s.len() > 0 && whitespace(s.last()) {
        lemma_trimmed_end_keeps_start(s.drop_last());
    }
}

proof fn lemma_trimmed_start(s: Seq<char>)
    ensures
        trimmed_start(s).len() == 0 || !whitespace(trimmed_start(s)[0]),
    decreases s.len(),
{
    if s.len() > 0 && whitespace(s[0]) {
        lemma_trimmed_start(s.drop_first());
    }
}

/// A text that was trimmed has nothing left to trim.
pub proof fn law_trimming_settles(s: Seq<char>)
    ensures
        trimmed(trimmed(s)) == trimmed(s),
{
    lemma_trimmed_start(s);
    lemma_trimmed_end_keeps_start(trimmed_start(s));
}

/// The characters of a text without the whitespace around it.
pub fn trim(s: &str) -> (chars: Vec<char>)
    ensures
        chars@ == trimmed(s@),
{
    let all = to_chars(s);
    let mut from: usize = 0;
    assert(all@.skip(0) =~= all@);
    while from < all.len() && is_whitespace(all[from])
        invariant
            from <= all@.len(),
            trimmed_start(all@) == trimmed_start(all@.skip(from as int)),
        decreases all@.len() - from,
    {
        assert(all@.skip(from as int).drop_first() =~= all@.skip(from + 1));
        from += 1;
    }
    let ghost start = all@.skip(from as int);
    assert(trimmed_start(all@) == start);
    let mut to: usize = all.len();
    assert(all@.subrange(from as int, to as int) =~= start);
    while to > from && is_whitespace(all[to - 1])
        invariant
            from <= to <= all@.len(),
            trimmed_end(start) == trimmed_end(all@.subrange(from as int, to as int)),
        decreases to,
    {
        assert(all@.subrange(from as int, to as int).drop_last() =~= all@.subrange(
            from as int,
            to - 1,
        ));
        to -= 1;
    }
    let ghost kept = all@.subrange(from as int, to as int);
    assert(trimmed_end(kept) == kept);
    let mut chars: Vec<char> = Vec::new();
    let mut n: usize = from;
    while n < to
        invariant
            from <= n <= to <= all@.len(),
            chars@ =~= all@.subrange(from as int, n as int),
        decreases to - n,
    {
        chars.push(all[n]);
        n += 1;
    }
    chars
}

/// Whether a character may not occur in a world name.
pub open spec fn forbidden(c: char) -> bool {
    control(c) || c == '/' || c == '\\' || c == ':' || c == '*' || c == '?' || c == '"' || c == '<'
        || c == '>' || c == '|'
}

/// Whether a world may have a name: not blank, not too long, no path that
/// stands for a directory itself, and nothing that a path gives a meaning to.
/// Whitespace around the name does not count.
pub open spec fn valid_world_name(name: Seq<char>) -> bool {
    let t = trimmed(name);
    &&& 0 < t.len() <= MAX_WORLD_NAME_CHARS
    &&& t != seq!['.']
    &&& t != seq!['.', '.']
    &&& forall|i: int| 0 <= i < t.len() ==> !forbidden(#[trigger] t[i])
}

/// Whether a world may have a name.
pub fn world_name_is_valid(name: &str) -> (b: bool)
    ensures
        b == valid_world_name(name@),
{
    let t = trim(name);
    if t.len() == 0 || t.len() > MAX_WORLD_NAME_CHARS {
        return false;
    }
    if t.len() == 1 && t[0] == '.' {
        assert(t@ =~= seq!['.']);
        return false;
    }
    if t.len() == 2 && t[0] == '.' && t[1] == '.' {
        assert(t@ =~= seq!['.', '.']);
        return false;
    }
    let mut n: usize = 0;
    while n < t.len()
        invariant
            n <= t@.len(),
            t@ == trimmed(name@),
            forall|i: int| 0 <= i < n ==> !forbidden(#[trigger] t@[i]),
        decreases t@.len() - n,
    {
        let c = t[n];
        let bad = is_control(c) || c == '/' || c == '\\' || c == ':' || c == '*' || c == '?' || c
            == '"' || c == '<' || c == '>' || c == '|';
        if bad {
            assert(forbidden(t@[n as int]));
            return false;
        }
        n += 1;
    }
    true
}

/// A text without its control characters.
pub open spec fn printable(s: Seq<char>) -> Seq<char> {
    s.filter(|c: char| !control(c))
}

/// The content of a text field after a key: Backspace removes the last
/// character; any other key appends the printable part of its text.
pub open spec fn field_after(buffer: Seq<char>, backspace: bool, text: Option<Seq<char>>) -> Seq<
    char,
> {
    if backspace {
        if buffer.len() == 0 {
            buffer
        } else {
            buffer.drop_last()
        }
    } else {
        match text {
            Some(t) => buffer + printable(t),
            None => buffer,
        }
    }
}

/// The content of a text field after a key.
pub fn apply_key_to_field(buffer: &str, backspace: bool, text: Option<&str>) -> (next: String)
    ensures
        next@ == field_after(
            buffer@,
            backspace,
            match text {
                Some(t) => Some(t@),
                None => None,
            },
        ),
{
    if backspace {
        let chars = to_chars(buffer);
        let n: usize = chars.len();
        if n == 0 {
            return buffer.to_owned();
        }
        let next = from_chars(&chars, 0, n - 1);
        assert(next@ =~= buffer@.drop_last());
        return next;
    }
    let mut next = buffer.to_owned();
    match text {
        None => {},
        Some(t) => {
            let chars = to_chars(t);
            let ghost pred = |c: char| !control(c);
            let mut n: usize = 0;
            proof {
                crate::lists::lemma_filter_empty(chars@.take(0), pred);
                assert(next@ =~= buffer@ + chars@.take(0).filter(pred));
            }
            while n < chars.len()
                invariant
                    n <= chars@.len(),
                    pred == (|c: char| !control(c)),
                    next@ == buffer@ + chars@.take(n as int).filter(pred),
                decreases chars@.len() - n,
            {
                let c = chars[n];
                let ghost before = next@;
                proof {
                    let seen = chars@.take(n as int);
                    assert(chars@.take(n + 1) =~= seen.push(c));
                    crate::lists::lemma_filter_push(seen, c, pred);
                }
                if !is_control(c) {
                    next.push(c);
                }
                assert(next@ =~= buffer@ + chars@.take(n + 1).filter(pred));
                n += 1;
            }
            assert(chars@.take(n as int) =~= chars@);
        },
    }
    next
}

proof fn lemma_start_is_cut(s: Seq<char>) -> (a: int)
    ensures
        0 <= a <= s.len(),
        trimmed_start(s) == s.skip(a),
        forall|i: int| 0 <= i < a ==> whitespace(#[trigger] s[i]),
        a < s.len() ==> !whitespace(s[a]),
    decreases s.len(),
{
    if s.len() > 0 && whitespace(s[0]) {
        let rest = s.drop_first();
        let a: int = lemma_start_is_cut(rest);
        assert(rest.skip(a) =~= s.skip(a + 1));
        assert forall|i: int| 0 <= i < a + 1 implies whitespace(#[trigger] s[i]) by {
            if i > 0 {
                assert(rest[i - 1] == s[i]);
            }
        }
        if a + 1 < s.len() {
            assert(rest[a] == s[a + 1]);
        }
        a + 1
    } else {
        assert(s.skip(0) =~= s);
        0
    }
}

proof fn lemma_end_is_cut(s: Seq<char>) -> (b: int)
    ensures
        0 <= b <= s.len(),
        trimmed_end(s) == s.take(b),
        forall|i: int| b <= i < s.len() ==> whitespace(#[trigger] s[i]),
        0 < b ==> !whitespace(s[b - 1]),
    decreases s.len(),
{
    if s.len() > 0 && whitespace(s.last()) {
        let rest = s.drop_last();
        let b: int = lemma_end_is_cut(rest);
        assert(rest.take(b) =~= s.take(b));
        assert forall|i: int| b <= i < s.len() implies whitespace(#[trigger] s[i]) by {
            if i < rest.len() {
                assert(rest[i] == s[i]);
            }
        }
        b
    } else {
        assert(s.take(s.len() as int) =~= s);
        s.len() as int
    }
}

/// Trimming cuts whitespace off both ends and nothing else: what is left is
/// one piece of the text, all that lies outside it is whitespace, and it
/// neither begins nor ends with any.
pub proof fn law_trimming_keeps_the_inside(s: Seq<char>)
    ensures
        exists|a: int, b: int|
            {
                &&& 0 <= a <= b <= s.len()
                &&& trimmed(s) == #[trigger] s.subrange(a, b)
                &&& forall|i: int| 0 <= i < a || b <= i < s.len() ==> whitespace(#[trigger] s[i])
                &&& a < b ==> !whitespace(s[a]) && !whitespace(s[b - 1])
            },
{
    let a: int = lemma_start_is_cut(s);
    let t = trimmed_start(s);
    let n: int = lemma_end_is_cut(t);
    let b: int = a + n;
    assert(t.take(n) =~= s.subrange(a, b));
    assert forall|i: int| 0 <= i < a || b <= i < s.len() implies whitespace(#[trigger] s[i]) by {
        if b <= i {
            assert(t[i - a] == s[i]);
        }
    }
    if a < b {
        assert(t[n - 1] == s[b - 1]);
    }
}

/// These are the code points that Unicode calls white space, and the control
/// codes.
pub proof fn law_blank_and_control_characters(c: char)
    ensures
        whitespace(c) <==> {
            let code = c as u32;
            ||| code == 9 || code == 10 || code == 11 || code == 12 || code == 13 || code == 32
            ||| code == 133 || code == 160 || code == 5760
            ||| code == 8192 || code == 8193 || code == 8194 || code == 8195 || code == 8196
            ||| code == 8197 || code == 8198 || code == 8199 || code == 8200 || code == 8201
            ||| code == 8202 || code == 8232 || code == 8233 || code == 8239 || code == 8287
            ||| code == 12288
        },
        control(c) <==> (c as u32) < 32 || (126 < (c as u32) && (c as u32) < 160),
{
}

/// A world may have a name of one to 32 characters, the whitespace around it
/// not counted, that is not one or two dots alone and holds neither a control
/// code nor a character that paths give a meaning to.
pub proof fn law_world_names(name: Seq<char>)
    ensures
        valid_world_name(name) <==> {
            let t = trimmed(name);
            &&& 1 <= t.len() <= 32
            &&& !(t.len() <= 2 && forall|i: int| 0 <= i < t.len() ==> #[trigger] t[i] == '.')
            &&& forall|i: int|
                0 <= i < t.len() ==> (#[trigger] t[i]) as u32 >= 32 && !(127 <= t[i] as u32 <= 159)
                    && !seq!['/', '\\', ':', '*', '?', '"', '<', '>', '|'].contains(t[i])
        },
{
    let t = trimmed(name);
    let bad = seq!['/', '\\', ':', '*', '?', '"', '<', '>', '|'];
    assert forall|c: char| #[trigger] bad.contains(c) <==> c == '/' || c == '\\' || c == ':' || c
        == '*' || c == '?' || c == '"' || c == '<' || c == '>' || c == '|' by {
        assert(bad[0] == '/' && bad[1] == '\\' && bad[2] == ':' && bad[3] == '*' && bad[4] == '?'
            && bad[5] == '"' && bad[6] == '<' && bad[7] == '>' && bad[8] == '|');
    }
    let dots = t.len() <= 2 && forall|i: int| 0 <= i < t.len() ==> #[trigger] t[i] == '.';
    if t.len() == 1 {
        assert(t == seq!['.'] <==> t[0] == '.') by {
            if t[0] == '.' {
                assert(t =~= seq!['.']);
            }
        }
        assert(dots <==> t[0] == '.');
    } else if t.len() == 2 {
        assert(t == seq!['.', '.'] <==> t[0] == '.' && t[1] == '.') by {
            if t[0] == '.' && t[1] == '.' {
                assert(t =~= seq!['.', '.']);
            }
        }
        assert(dots <==> t[0] == '.' && t[1] == '.');
    }
    assert forall|i: int| 0 <= i < t.len() implies (forbidden(#[trigger] t[i]) <==> !(t[i] as u32
        >= 32 && !(127 <= t[i] as u32 <= 159) && !bad.contains(t[i]))) by {}
}

/// Typing goes on at the end of a text field. A character that can be seen is
/// appended, a control code is not; text that comes at once does what its
/// parts do one after the other; and Backspace takes away what was typed
/// last.
pub proof fn law_typing_goes_on_at_the_end(
    buffer: Seq<char>,
    c: char,
    a: Seq<char>,
    b: Seq<char>,
    text: Option<Seq<char>>,
)
    ensures
        c as u32 >= 32 && !(127 <= c as u32 <= 159) ==> field_after(buffer, false, Some(seq![c]))
            == buffer.push(c),
        (c as u32) < 32 || 127 <= c as u32 <= 159 ==> field_after(buffer, false, Some(seq![c]))
            == buffer,
        field_after(buffer, false, Some(a + b)) == field_after(
            field_after(buffer, false, Some(a)),
            false,
            Some(b),
        ),
        field_after(buffer, false, None) == buffer,
        field_after(buffer.push(c), true, text) == buffer,
        field_after(Seq::empty(), true, text) == Seq::<char>::empty(),
{
    let pred = |c: char| !control(c);
    reveal_with_fuel(Seq::filter, 2);
    let one = seq![c];
    assert(one.drop_last() =~= Seq::<char>::empty());
    assert(one.last() == c);
    assert(Seq::<char>::empty().filter(pred) =~= Seq::<char>::empty());
    if control(c) {
        assert(one.filter(pred) =~= Seq::<char>::empty());
        assert(buffer + one.filter(pred) =~= buffer);
    } else {
        assert(one.filter(pred) =~= seq![c]);
        assert(buffer + one.filter(pred) =~= buffer.push(c));
    }
    Seq::filter_distributes_over_add(a, b, pred);
    assert(buffer + (a.filter(pred) + b.filter(pred)) =~= (buffer + a.filter(pred)) + b.filter(
        pred,
    ));
    assert(buffer.push(c).drop_last() =~= buffer);
}

} // verus!
