//! Small string utilities shared by the other modules.

use vstd::prelude::*;

verus! {

/// Appends one character to a string.
///
/// Trusted: wraps `String::push`, which the standard library documents as
/// appending the given character to the end of the string.
#[verifier::external_body]
pub(crate) fn push_char(s: &mut String, c: char)
    ensures
        final(s)@ == old(s)@.push(c),
{
    s.push(c);
}

/// Compares two string slices character by character.
///
/// Trusted: wraps `==` on `str`, which holds exactly when both slices hold the
/// same characters.
#[verifier::external_body]
pub(crate) fn str_eq(a: &str, b: &str) -> (same: bool)
    ensures
        same == (a@ == b@),
{
    a == b
}

/// The character sequences of a list of strings.
pub open spec fn views(v: Seq<String>) -> Seq<Seq<char>> {
    v.map_values(|s: String| s@)
}

/// Copies a list of strings.
pub fn clone_strings(v: &Vec<String>) -> (out: Vec<String>)
    ensures
        views(out@) == views(v@),
{
    let mut out: Vec<String> = Vec::new();
    let mut i: usize = 0;
    while i < v.len()
        invariant
            i <= v.len(),
            out.len() == i,
            forall|j: int| 0 <= j < i ==> out[j]@ == v[j]@,
        decreases v.len() - i,
    {
        out.push(v[i].clone());
        i += 1;
    }
    assert(views(out@) =~= views(v@));
    out
}

/// The characters of a string, one by one.
pub fn to_chars(s: &str) -> (out: Vec<char>)
    ensures
        out@ == s@,
{
    let mut out: Vec<char> = Vec::new();
    for c in it: s.chars()
        invariant
            it.seq() == s@,
            out@ == s@.take(it.index() as int),
    {
        out.push(c);
        assert(s@.take(it.index() + 1) == s@.take(it.index() as int).push(s@[it.index() as int]));
    }
    assert(s@.take(s@.len() as int) == s@);
    out
}

/// The string made of the given characters.
pub fn from_chars(chars: &Vec<char>) -> (out: String)
    ensures
        out@ == chars@,
{
    let mut out = String::new();
    let mut i: usize = 0;
    while i < chars.len()
        invariant
            i <= chars.len(),
            out@ == chars@.take(i as int),
        decreases chars.len() - i,
    {
        push_char(&mut out, chars[i]);
        assert(chars@.take(i + 1) == chars@.take(i as int).push(chars@[i as int]));
        i += 1;
    }
    assert(chars@.take(chars@.len() as int) == chars@);
    out
}

/// Whether a character is white space.
pub uninterp spec fn white_space(c: char) -> bool;

/// Tells whether a character is white space.
///
/// Trusted: wraps `char::is_whitespace`, which decides by the Unicode
/// property `White_Space`; the answer depends on the character alone.
#[verifier::external_body]
pub(crate) fn is_white_space(c: char) -> (yes: bool)
    ensures
        yes == white_space(c),
{
    c.is_whitespace()
}

/// The number of white-space characters at the start of `s`.
pub open spec fn leading_space(s: Seq<char>) -> nat
    decreases s.len(),
{
    if s.len() > 0 && white_space(s[0]) {
        1 + leading_space(s.skip(1))
    } else {
        0
    }
}

/// The number of white-space characters at the end of `s`.
pub open spec fn trailing_space(s: Seq<char>) -> nat
    decreases s.len(),
{
    if s.len() > 0 && white_space(s.last()) {
        1 + trailing_space(s.drop_last())
    } else {
        0
    }
}

/// `s` without the white space at its start and at its end.
pub open spec fn trimmed(s: Seq<char>) -> Seq<char> {
    let front = s.skip(leading_space(s) as int);
    front.take(front.len() - trailing_space(front))
}

/// Removes the white space at the start and at the end of a string.
pub fn trim(s: &str) -> (out: String)
    ensures
        out@ == trimmed(s@),
{
    let chars = to_chars(s);
    let mut start: usize = 0;
    assert(chars@.skip(0) == chars@);
    while start < chars.len() && is_white_space(chars[start])
        invariant
            start <= chars.len(),
            start + leading_space(chars@.skip(start as int)) == leading_space(chars@),
        decreases chars.len() - start,
    {
        assert(chars@.skip(start as int).skip(1) == chars@.skip(start + 1));
        start += 1;
    }
    let ghost front = chars@.skip(start as int);
    assert(leading_space(front) == 0);
    let mut end: usize = chars.len();
    assert(front.take(front.len() as int) == front);
    while end > start && is_white_space(chars[end - 1])
        invariant
            start <= end <= chars.len(),
            front == chars@.skip(start as int),
            (chars.len() - end) + trailing_space(front.take(end - start)) == trailing_space(
                front,
            ),
        decreases end,
    {
        assert(front.take(end - start).drop_last() == front.take(end - start - 1));
        end -= 1;
    }
    assert(trailing_space(front.take(end - start)) == 0);
    let mut out: Vec<char> = Vec::new();
    let mut i: usize = start;
    while i < end
        invariant
            start <= i <= end <= chars.len(),
            out@ == chars@.subrange(start as int, i as int),
        decreases end - i,
    {
        out.push(chars[i]);
        assert(chars@.subrange(start as int, i + 1) == chars@.subrange(
            start as int,
            i as int,
        ).push(chars@[i as int]));
        i += 1;
    }
    assert(chars@.subrange(start as int, end as int) == front.take(end - start));
    from_chars(&out)
}

/// A number that is the code point of a character.
pub open spec fn is_scalar(n: int) -> bool {
    0 <= n <= 0xD7FF || 0xE000 <= n <= 0x10FFFF
}

/// The character with the given code point, if there is one.
///
/// Trusted: wraps `char::from_u32`, which returns the character for every
/// Unicode scalar value, that is every number up to 0x10FFFF outside the
/// surrogate range 0xD800 to 0xDFFF, and `None` for every other number.
#[verifier::external_body]
pub(crate) fn char_from_u32(n: u32) -> (out: Option<char>)
    ensures
        out == if is_scalar(n as int) {
            Some(n as char)
        } else {
            None
        },
{
    char::from_u32(n)
}

/// The text of a boolean: `true` or `false`.
pub open spec fn bool_text(b: bool) -> Seq<char> {
    if b {
        "true"@
    } else {
        "false"@
    }
}

/// Renders a boolean as `true` or `false`.
pub fn bool_string(b: bool) -> (out: String)
    ensures
        out@ == bool_text(b),
{
    if b {
        "true".to_owned()
    } else {
        "false".to_owned()
    }
}

/// The character of a decimal digit.
pub open spec fn digit_char(d: nat) -> char {
    if d == 0 {
        '0'
    } else if d == 1 {
        '1'
    } else if d == 2 {
        '2'
    } else if d == 3 {
        '3'
    } else if d == 4 {
        '4'
    } else if d == 5 {
        '5'
    } else if d == 6 {
        '6'
    } else if d == 7 {
        '7'
    } else if d == 8 {
        '8'
    } else {
        '9'
    }
}

/// The decimal numeral of a natural number, without leading zeros.
pub open spec fn decimal_text(n: nat) -> Seq<char>
    decreases n,
{
    if n < 10 {
        seq![digit_char(n)]
    } else {
        decimal_text(n / 10).push(digit_char(n % 10))
    }
}

fn digit(d: u64) -> (c: char)
    requires
        d < 10,
    ensures
        c == digit_char(d as nat),
{
    if d == 0 {
        '0'
    } else if d == 1 {
        '1'
    } else if d == 2 {
        '2'
    } else if d == 3 {
        '3'
    } else if d == 4 {
        '4'
    } else if d == 5 {
        '5'
    } else if d == 6 {
        '6'
    } else if d == 7 {
        '7'
    } else if d == 8 {
        '8'
    } else {
        '9'
    }
}

/// Renders a number in decimal.
pub fn decimal_string(n: u64) -> (out: String)
    ensures
        out@ == decimal_text(n as nat),
    decreases n,
{
    if n < 10 {
        let mut out = String::new();
        push_char(&mut out, digit(n));
        out
    } else {
        let mut out = decimal_string(n / 10);
        push_char(&mut out, digit(n % 10));
        out
    }
}

/// The parts of a text between its separators.  Read from the left, every
/// separator ends a part and begins the next, so there is always at least
/// one part.
pub open spec fn split_on(s: Seq<char>, sep: char) -> Seq<Seq<char>>
    decreases s.len(),
{
    if s.len() == 0 {
        seq![Seq::empty()]
    } else {
        let front = split_on(s.drop_last(), sep);
        if s.last() == sep {
            front.push(Seq::empty())
        } else {
            front.update(front.len() - 1, front.last().push(s.last()))
        }
    }
}

/// The text made of the given parts, with a separator between each two.
pub open spec fn join_with(entries: Seq<Seq<char>>, sep: char) -> Seq<char>
    decreases entries.len(),
{
    if entries.len() == 0 {
        Seq::empty()
    } else if entries.len() == 1 {
        entries[0]
    } else {
        join_with(entries.drop_last(), sep) + seq![sep] + entries.last()
    }
}

/// A part that does not hold the separator.
pub open spec fn free_of(entry: Seq<char>, sep: char) -> bool {
    forall|i: int| 0 <= i < entry.len() ==> #[trigger] entry[i] != sep
}

/// No part holds the separator.
pub open spec fn all_free_of(entries: Seq<Seq<char>>, sep: char) -> bool {
    forall|i: int| 0 <= i < entries.len() ==> free_of(#[trigger] entries[i], sep)
}

pub proof fn lemma_split_on_nonempty(s: Seq<char>, sep: char)
    ensures
        split_on(s, sep).len() >= 1,
    decreases s.len(),
{
    if s.len() > 0 {
        lemma_split_on_nonempty(s.drop_last(), sep);
    }
}

/// The parts of a text are free of the separator.
pub proof fn lemma_split_on_free(s: Seq<char>, sep: char)
    ensures
        all_free_of(split_on(s, sep), sep),
    decreases s.len(),
{
    if s.len() > 0 {
        lemma_split_on_free(s.drop_last(), sep);
        lemma_split_on_nonempty(s.drop_last(), sep);
        let front = split_on(s.drop_last(), sep);
        assert forall|i: int| 0 <= i < split_on(s, sep).len() implies free_of(
            #[trigger] split_on(s, sep)[i],
            sep,
        ) by {
            if i < front.len() - 1 {
                assert(split_on(s, sep)[i] == front[i]);
            } else if s.last() != sep {
                assert(free_of(front[i], sep));
            }
        }
    }
}

/// Text without a separator, put behind a text, lengthens its last part.
pub proof fn lemma_split_on_append(s: Seq<char>, t: Seq<char>, sep: char)
    requires
        free_of(t, sep),
    ensures
        split_on(s, sep).len() >= 1,
        split_on(s + t, sep) == split_on(s, sep).update(
            split_on(s, sep).len() - 1,
            split_on(s, sep).last() + t,
        ),
    decreases t.len(),
{
    lemma_split_on_nonempty(s, sep);
    let front = split_on(s, sep);
    if t.len() == 0 {
        assert(s + t == s);
        assert(front.last() + t == front.last());
        assert(front.update(front.len() - 1, front.last()) == front);
    } else {
        let shorter = t.drop_last();
        assert(free_of(shorter, sep)) by {
            assert forall|i: int| 0 <= i < shorter.len() implies #[trigger] shorter[i] != sep by {
                assert(shorter[i] == t[i]);
            }
        }
        lemma_split_on_append(s, shorter, sep);
        assert((s + t).drop_last() == s + shorter);
        assert((s + t).last() == t.last());
        assert(t.last() == t[t.len() - 1]);
        assert((front.last() + shorter).push(t.last()) == front.last() + t);
        assert(split_on(s + t, sep) =~= front.update(front.len() - 1, front.last() + t));
    }
}

/// Splitting undoes joining, for parts that are free of the separator.
pub proof fn lemma_split_on_join(entries: Seq<Seq<char>>, sep: char)
    requires
        entries.len() > 0,
        all_free_of(entries, sep),
    ensures
        split_on(join_with(entries, sep), sep) == entries,
    decreases entries.len(),
{
    let empty = Seq::<char>::empty();
    if entries.len() == 1 {
        lemma_split_on_append(empty, entries[0], sep);
        assert(empty + entries[0] == entries[0]);
        assert(split_on(empty, sep) == seq![empty]);
        assert(split_on(entries[0], sep) =~= entries);
    } else {
        let front = entries.drop_last();
        assert(all_free_of(front, sep)) by {
            assert forall|i: int| 0 <= i < front.len() implies free_of(#[trigger] front[i], sep) by {
                assert(front[i] == entries[i]);
            }
        }
        lemma_split_on_join(front, sep);
        let head = join_with(front, sep) + seq![sep];
        assert(head.drop_last() == join_with(front, sep));
        assert(split_on(head, sep) == front.push(empty));
        assert(free_of(entries.last(), sep));
        lemma_split_on_append(head, entries.last(), sep);
        assert(empty + entries.last() == entries.last());
        assert(split_on(join_with(entries, sep), sep) =~= entries);
    }
}

/// Joining undoes splitting.
pub proof fn lemma_join_split(s: Seq<char>, sep: char)
    ensures
        join_with(split_on(s, sep), sep) == s,
    decreases s.len(),
{
    if s.len() == 0 {
        assert(s =~= Seq::<char>::empty());
        assert(split_on(s, sep) == seq![Seq::<char>::empty()]);
    } else {
        let shorter = s.drop_last();
        lemma_join_split(shorter, sep);
        lemma_split_on_nonempty(shorter, sep);
        let front = split_on(shorter, sep);
        let all = split_on(s, sep);
        if s.last() == sep {
            assert(all.drop_last() == front);
            assert(join_with(all, sep) =~= shorter.push(sep));
        } else {
            let last = front.last().push(s.last());
            if front.len() == 1 {
                assert(join_with(front, sep) == front[0]);
                assert(join_with(all, sep) == all[0]);
            } else {
                assert(all.drop_last() == front.drop_last());
                assert(join_with(all, sep) =~= (join_with(front.drop_last(), sep) + seq![sep]
                    + front.last()).push(s.last()));
            }
        }
        assert(shorter.push(s.last()) == s);
    }
}

/// Tells whether a text holds a character.
pub fn holds_char(s: &str, sep: char) -> (yes: bool)
    ensures
        yes == !free_of(s@, sep),
{
    let chars = to_chars(s);
    let mut i: usize = 0;
    while i < chars.len()
        invariant
            i <= chars.len(),
            chars@ == s@,
            forall|j: int| 0 <= j < i ==> chars@[j] != sep,
        decreases chars.len() - i,
    {
        if chars[i] == sep {
            return true;
        }
        i += 1;
    }
    false
}

/// Splits a text at its separators.
pub fn split_text(s: &str, sep: char) -> (out: Vec<String>)
    ensures
        views(out@) == split_on(s@, sep),
{
    let chars = to_chars(s);
    let mut done: Vec<String> = Vec::new();
    let mut current = String::new();
    let mut i: usize = 0;
    assert(chars@.take(0) == Seq::<char>::empty());
    assert(views(done@).push(current@) =~= split_on(chars@.take(0), sep));
    while i < chars.len()
        invariant
            i <= chars.len(),
            views(done@).push(current@) == split_on(chars@.take(i as int), sep),
        decreases chars.len() - i,
    {
        let ghost before = views(done@);
        let ghost entry = current@;
        assert(chars@.take(i + 1).drop_last() == chars@.take(i as int));
        if chars[i] == sep {
            done.push(current);
            current = String::new();
            assert(views(done@) =~= before.push(entry));
        } else {
            push_char(&mut current, chars[i]);
            assert(views(done@).push(current@) =~= before.push(entry).update(
                before.len() as int,
                entry.push(chars@[i as int]),
            ));
        }
        i += 1;
    }
    assert(chars@.take(chars.len() as int) == chars@);
    let ghost before = views(done@);
    done.push(current);
    assert(views(done@) =~= before.push(current@));
    done
}

/// Writes parts as one text, with a separator between each two.
pub fn join_text(entries: &Vec<String>, sep: char) -> (out: String)
    ensures
        out@ == join_with(views(entries@), sep),
{
    let mut out = String::new();
    let mut i: usize = 0;
    assert(views(entries@).take(0) =~= Seq::<Seq<char>>::empty());
    while i < entries.len()
        invariant
            i <= entries.len(),
            out@ == join_with(views(entries@).take(i as int), sep),
        decreases entries.len() - i,
    {
        let ghost so_far = views(entries@).take(i as int);
        let ghost next = views(entries@).take(i + 1);
        assert(next.drop_last() == so_far);
        assert(next.last() == entries[i as int]@);
        if i > 0 {
            push_char(&mut out, sep);
        }
        out.append(entries[i].as_str());
        assert(out@ =~= join_with(next, sep)) by {
            if i == 0 {
                assert(so_far.len() == 0);
                assert(join_with(so_far, sep) == Seq::<char>::empty());
            }
        }
        i += 1;
    }
    assert(views(entries@).take(entries.len() as int) == views(entries@));
    out
}


} // verus!
