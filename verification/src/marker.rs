//! The hook's record of its last patch, written so that it passes through a
//! shell's environment unchanged.
//!
//! A record is made of items.  In an item, letters, digits and `-_/.` stand
//! for themselves; any other character is written as `+` and the six
//! hexadecimal digits of its code point.  Every item ends with a comma.  The
//! directories come first, then `=`, then the variables, a name and a value
//! in turn.

use crate::env::{EnvironmentPatch, PatchView, MARKER, PATH};
use crate::ordered_map::{
    entries, get, has_key, insert, len, new_map, pair_at, unique_keys, Pair,
};
use crate::path::{colon_free, holds_colon};
use crate::shell::elvish::{lemma_no_backslash, with_line_breaks};
use crate::shell::{all_plain, escaped, is_plain};
use crate::text::{char_from_u32, is_scalar, push_char, str_eq, to_chars, views};
use vstd::prelude::*;

verus! {

/// Characters that stand for themselves in a record.
pub open spec fn is_literal(c: char) -> bool {
    ||| 'a' <= c <= 'z'
    ||| 'A' <= c <= 'Z'
    ||| '0' <= c <= '9'
    ||| c == '-'
    ||| c == '_'
    ||| c == '/'
    ||| c == '.'
}

/// The hexadecimal digit of a value below sixteen.
pub open spec fn hex_char(d: int) -> char {
    if d == 0 {
        '0'
    } else if d == 1 {
        '1'
    } else if d == 2 {
        '2'
    } else if d == 3 {
        '3'
    } else if d == 4 {
        '4'
    } else if d == 5 {
        '5'
    } else if d == 6 {
        '6'
    } else if d == 7 {
        '7'
    } else if d == 8 {
        '8'
    } else if d == 9 {
        '9'
    } else if d == 10 {
        'a'
    } else if d == 11 {
        'b'
    } else if d == 12 {
        'c'
    } else if d == 13 {
        'd'
    } else if d == 14 {
        'e'
    } else {
        'f'
    }
}

/// The value of a hexadecimal digit.
pub open spec fn hex_value(c: char) -> Option<int> {
    if '0' <= c <= '9' {
        Some(c as int - 48)
    } else if 'a' <= c <= 'f' {
        Some(c as int - 87)
    } else {
        None
    }
}

/// The six hexadecimal digits of a number below 16^6, highest first.
pub open spec fn hex6(n: int) -> Seq<char> {
    seq![
        hex_char(n / 0x100000 % 16),
        hex_char(n / 0x10000 % 16),
        hex_char(n / 0x1000 % 16),
        hex_char(n / 0x100 % 16),
        hex_char(n / 0x10 % 16),
        hex_char(n % 16),
    ]
}

/// One character as it is written in a record.
pub open spec fn enc_char(c: char) -> Seq<char> {
    if is_literal(c) {
        seq![c]
    } else {
        seq!['+'] + hex6(c as int)
    }
}

/// A text as it is written in a record.
pub open spec fn enc_text(s: Seq<char>) -> Seq<char>
    decreases s.len(),
{
    if s.len() == 0 {
        Seq::empty()
    } else {
        enc_text(s.drop_last()) + enc_char(s.last())
    }
}

/// A list of items as it is written in a record.
pub open spec fn enc_items(items: Seq<Seq<char>>) -> Seq<char>
    decreases items.len(),
{
    if items.len() == 0 {
        Seq::empty()
    } else {
        enc_items(items.drop_last()) + enc_text(items.last()) + seq![',']
    }
}

/// Names and values, in turn.
pub open spec fn flatten(vars: Seq<Pair>) -> Seq<Seq<char>>
    decreases vars.len(),
{
    if vars.len() == 0 {
        Seq::empty()
    } else {
        flatten(vars.drop_last()).push(vars.last().0).push(vars.last().1)
    }
}

/// The pairs made of each two neighbours of a list of even length.
pub open spec fn pairs(fields: Seq<Seq<char>>) -> Seq<Pair> {
    Seq::new(fields.len() / 2, |i: int| (fields[2 * i], fields[2 * i + 1]))
}

/// The record of a patch.
pub open spec fn encoded(patch: PatchView) -> Seq<char> {
    enc_items(patch.paths) + seq!['='] + enc_items(flatten(patch.vars))
}

/// Two texts of plain characters make a text of plain characters.
pub proof fn lemma_all_plain_concat(a: Seq<char>, b: Seq<char>)
    requires
        all_plain(a),
        all_plain(b),
    ensures
        all_plain(a + b),
{
    assert forall|i: int| 0 <= i < (a + b).len() implies is_plain(#[trigger] (a + b)[i]) by {
        if i < a.len() {
            assert((a + b)[i] == a[i]);
        } else {
            assert((a + b)[i] == b[i - a.len()]);
        }
    }
}

/// A character is written in plain characters.
pub proof fn lemma_enc_char_plain(c: char)
    ensures
        all_plain(enc_char(c)),
{
    if !is_literal(c) {
        let n = c as int;
        let digits = hex6(n);
        assert forall|i: int| 0 <= i < digits.len() implies is_plain(#[trigger] digits[i]) by {}
        assert(all_plain(seq!['+']));
        lemma_all_plain_concat(seq!['+'], digits);
    }
}

/// A text is written in plain characters.
pub proof fn lemma_enc_text_plain(s: Seq<char>)
    ensures
        all_plain(enc_text(s)),
    decreases s.len(),
{
    if s.len() > 0 {
        lemma_enc_text_plain(s.drop_last());
        lemma_enc_char_plain(s.last());
        lemma_all_plain_concat(enc_text(s.drop_last()), enc_char(s.last()));
    }
}

/// A list of items is written in plain characters.
pub proof fn lemma_enc_items_plain(items: Seq<Seq<char>>)
    ensures
        all_plain(enc_items(items)),
    decreases items.len(),
{
    if items.len() > 0 {
        lemma_enc_items_plain(items.drop_last());
        lemma_enc_text_plain(items.last());
        lemma_all_plain_concat(enc_items(items.drop_last()), enc_text(items.last()));
        assert(all_plain(seq![',']));
        lemma_all_plain_concat(enc_items(items.drop_last()) + enc_text(items.last()), seq![',']);
    }
}

/// A record passes through a shell as it is: it is not empty and made of
/// plain characters only, so that escaping it changes nothing and no
/// backslash in it is taken for a line break.
pub proof fn lemma_record_is_plain(patch: PatchView)
    ensures
        encoded(patch).len() > 0,
        all_plain(encoded(patch)),
        escaped(encoded(patch)) == encoded(patch),
        with_line_breaks(encoded(patch)) == encoded(patch),
{
    lemma_enc_items_plain(patch.paths);
    lemma_enc_items_plain(flatten(patch.vars));
    assert(all_plain(seq!['=']));
    lemma_all_plain_concat(enc_items(patch.paths), seq!['=']);
    lemma_all_plain_concat(enc_items(patch.paths) + seq!['='], enc_items(flatten(patch.vars)));
    lemma_no_backslash(encoded(patch));
}

/// How far a record has been read.
pub struct Scan {
    /// Nothing read so far was out of place.
    pub ok: bool,
    /// The `=` has been read.
    pub in_vars: bool,
    /// The directories read in full.
    pub paths: Seq<Seq<char>>,
    /// The names and values read in full.
    pub fields: Seq<Seq<char>>,
    /// The item being read.
    pub item: Seq<char>,
    /// The hexadecimal digits still to come of a character being read.
    pub pending: int,
    /// The value of the digits read of it.
    pub acc: int,
}

impl Scan {
    /// All is well and no character is half read.
    pub open spec fn between_characters(self) -> bool {
        self.ok && self.pending == 0 && self.acc == 0
    }

    /// All is well and no item is half read.
    pub open spec fn between_items(self) -> bool {
        self.between_characters() && self.item.len() == 0
    }
}

/// Before the first character.
pub open spec fn start() -> Scan {
    Scan {
        ok: true,
        in_vars: false,
        paths: Seq::empty(),
        fields: Seq::empty(),
        item: Seq::empty(),
        pending: 0,
        acc: 0,
    }
}

/// Reading one more character.
pub open spec fn step(st: Scan, c: char) -> Scan {
    if !st.ok {
        st
    } else if st.pending > 0 {
        match hex_value(c) {
            Some(d) => {
                let acc = st.acc * 16 + d;
                if st.pending > 1 {
                    Scan { pending: st.pending - 1, acc, ..st }
                } else if is_scalar(acc) {
                    Scan { pending: 0, acc: 0, item: st.item.push(acc as char), ..st }
                } else {
                    Scan { ok: false, ..st }
                }
            },
            None => Scan { ok: false, ..st },
        }
    } else if c == '+' {
        Scan { pending: 6, acc: 0, ..st }
    } else if c == ',' {
        if st.in_vars {
            Scan { fields: st.fields.push(st.item), item: Seq::empty(), ..st }
        } else {
            Scan { paths: st.paths.push(st.item), item: Seq::empty(), ..st }
        }
    } else if c == '=' {
        if !st.in_vars && st.item.len() == 0 {
            Scan { in_vars: true, ..st }
        } else {
            Scan { ok: false, ..st }
        }
    } else if is_literal(c) {
        Scan { item: st.item.push(c), ..st }
    } else {
        Scan { ok: false, ..st }
    }
}

/// Reading a text, character by character.
pub open spec fn run(st: Scan, s: Seq<char>) -> Scan
    decreases s.len(),
{
    if s.len() == 0 {
        st
    } else {
        step(run(st, s.drop_last()), s.last())
    }
}

/// The patch that a record holds, if it is the record of one.
pub open spec fn decoded(text: Seq<char>) -> Option<PatchView> {
    let st = run(start(), text);
    let patch = PatchView { paths: st.paths, vars: pairs(st.fields) };
    if st.ok && st.in_vars && st.pending == 0 && st.item.len() == 0 && st.fields.len() % 2 == 0
        && patch.well_formed() {
        Some(patch)
    } else {
        None
    }
}

/// Every hexadecimal digit is read back as its value.
pub proof fn lemma_hex_digit(d: int)
    requires
        0 <= d < 16,
    ensures
        hex_value(hex_char(d)) == Some(d),
{
}

/// Reading two texts in a row is reading them as one.
pub proof fn lemma_run_concat(st: Scan, a: Seq<char>, b: Seq<char>)
    ensures
        run(st, a + b) == run(run(st, a), b),
    decreases b.len(),
{
    if b.len() == 0 {
        assert(a + b == a);
    } else {
        lemma_run_concat(st, a, b.drop_last());
        assert((a + b).drop_last() == a + b.drop_last());
        assert((a + b).last() == b.last());
    }
}

/// Reading one character is one step.
pub proof fn lemma_run_one(st: Scan, c: char)
    ensures
        run(st, seq![c]) == step(st, c),
{
    let s = seq![c];
    assert(s.drop_last() == Seq::<char>::empty());
    assert(run(st, s.drop_last()) == st);
}

/// What went wrong stays wrong.
pub proof fn lemma_run_failed(st: Scan, s: Seq<char>)
    requires
        !st.ok,
    ensures
        !run(st, s).ok,
    decreases s.len(),
{
    if s.len() > 0 {
        lemma_run_failed(st, s.drop_last());
    }
}

/// A character's six digits are read back as the character.
proof fn lemma_run_hex6(st: Scan, c: char)
    requires
        st.ok,
        st.pending == 6,
        st.acc == 0,
    ensures
        run(st, hex6(c as int)) == (Scan { pending: 0, acc: 0, item: st.item.push(c), ..st }),
{
    let n = c as int;
    let h = hex6(n);
    let d0 = n / 0x100000 % 16;
    let d1 = n / 0x10000 % 16;
    let d2 = n / 0x1000 % 16;
    let d3 = n / 0x100 % 16;
    let d4 = n / 0x10 % 16;
    let d5 = n % 16;
    lemma_hex_digit(d0);
    lemma_hex_digit(d1);
    lemma_hex_digit(d2);
    lemma_hex_digit(d3);
    lemma_hex_digit(d4);
    lemma_hex_digit(d5);
    let s0 = run(st, h.take(0));
    assert(h.take(0) == Seq::<char>::empty());
    assert(s0 == st);
    let s1 = run(st, h.take(1));
    assert(h.take(1).drop_last() == h.take(0));
    assert(s1 == step(s0, h[0]));
    let s2 = run(st, h.take(2));
    assert(h.take(2).drop_last() == h.take(1));
    assert(s2 == step(s1, h[1]));
    let s3 = run(st, h.take(3));
    assert(h.take(3).drop_last() == h.take(2));
    assert(s3 == step(s2, h[2]));
    let s4 = run(st, h.take(4));
    assert(h.take(4).drop_last() == h.take(3));
    assert(s4 == step(s3, h[3]));
    let s5 = run(st, h.take(5));
    assert(h.take(5).drop_last() == h.take(4));
    assert(s5 == step(s4, h[4]));
    let s6 = run(st, h.take(6));
    assert(h.take(6).drop_last() == h.take(5));
    assert(s6 == step(s5, h[5]));
    assert(h.take(6) == h);
    assert(s1.acc == d0);
    assert(s2.acc == d0 * 16 + d1);
    assert(s3.acc == (d0 * 16 + d1) * 16 + d2);
    assert(s4.acc == ((d0 * 16 + d1) * 16 + d2) * 16 + d3);
    assert(s5.acc == (((d0 * 16 + d1) * 16 + d2) * 16 + d3) * 16 + d4);
    assert(s5.pending == 1);
    assert(s5.acc * 16 + d5 == n);
    assert(is_scalar(n));
    assert(n as char == c);
}

/// A character is read back from the way it is written.
pub proof fn lemma_run_char(st: Scan, c: char)
    requires
        st.between_characters(),
    ensures
        run(st, enc_char(c)) == (Scan { item: st.item.push(c), ..st }),
{
    if is_literal(c) {
        lemma_run_one(st, c);
    } else {
        lemma_run_concat(st, seq!['+'], hex6(c as int));
        lemma_run_one(st, '+');
        let opened = Scan { pending: 6, acc: 0, ..st };
        assert(step(st, '+') == opened);
        lemma_run_hex6(opened, c);
    }
}

/// A text is read back from the way it is written.
pub proof fn lemma_run_text(st: Scan, s: Seq<char>)
    requires
        st.between_characters(),
    ensures
        run(st, enc_text(s)) == (Scan { item: st.item + s, ..st }),
    decreases s.len(),
{
    if s.len() == 0 {
        assert(st.item + s == st.item);
    } else {
        let front = s.drop_last();
        lemma_run_text(st, front);
        lemma_run_concat(st, enc_text(front), enc_char(s.last()));
        let mid = Scan { item: st.item + front, ..st };
        lemma_run_char(mid, s.last());
        assert((st.item + front).push(s.last()) == st.item + s);
    }
}

/// The scan after reading whole items on top of `st`.
pub open spec fn with_items(st: Scan, items: Seq<Seq<char>>) -> Scan {
    if st.in_vars {
        Scan { fields: st.fields + items, ..st }
    } else {
        Scan { paths: st.paths + items, ..st }
    }
}

/// A list of items is read back from the way it is written.
pub proof fn lemma_run_items(st: Scan, items: Seq<Seq<char>>)
    requires
        st.between_items(),
    ensures
        run(st, enc_items(items)) == with_items(st, items),
    decreases items.len(),
{
    if items.len() == 0 {
        assert(st.fields + items == st.fields);
        assert(st.paths + items == st.paths);
    } else {
        let front = items.drop_last();
        let last = items.last();
        assert(st.item =~= Seq::<char>::empty());
        lemma_run_items(st, front);
        let mid = with_items(st, front);
        assert(enc_items(items) == (enc_items(front) + enc_text(last)) + seq![',']);
        lemma_run_concat(st, enc_items(front) + enc_text(last), seq![',']);
        lemma_run_concat(st, enc_items(front), enc_text(last));
        lemma_run_text(mid, last);
        let full = Scan { item: mid.item + last, ..mid };
        assert(mid.item + last == last);
        lemma_run_one(full, ',');
        assert((st.fields + front).push(last) == st.fields + items);
        assert((st.paths + front).push(last) == st.paths + items);
    }
}

/// Names and values in turn, taken two by two, are the pairs again.
pub proof fn lemma_pairs_flatten(vars: Seq<Pair>)
    ensures
        flatten(vars).len() == 2 * vars.len(),
        pairs(flatten(vars)) == vars,
    decreases vars.len(),
{
    if vars.len() == 0 {
        assert(pairs(flatten(vars)) =~= vars);
    } else {
        let front = vars.drop_last();
        lemma_pairs_flatten(front);
        let flat = flatten(vars);
        assert forall|i: int| 0 <= i < vars.len() implies pairs(flat)[i] == vars[i] by {
            if i < front.len() {
                assert(pairs(flatten(front))[i] == front[i]);
                assert(flat[2 * i] == flatten(front)[2 * i]);
                assert(flat[2 * i + 1] == flatten(front)[2 * i + 1]);
            }
        }
        assert(pairs(flat) =~= vars);
    }
}

/// The patch is read back from its record.
pub proof fn lemma_decode_encoded(patch: PatchView)
    requires
        patch.well_formed(),
    ensures
        decoded(encoded(patch)) == Some(patch),
{
    let flat = flatten(patch.vars);
    let first = enc_items(patch.paths);
    let second = enc_items(flat);
    lemma_run_items(start(), patch.paths);
    let after_paths = with_items(start(), patch.paths);
    assert(Seq::<Seq<char>>::empty() + patch.paths == patch.paths);
    lemma_run_concat(start(), first + seq!['='], second);
    lemma_run_concat(start(), first, seq!['=']);
    lemma_run_one(after_paths, '=');
    let in_vars = Scan { in_vars: true, ..after_paths };
    lemma_run_items(in_vars, flat);
    assert(Seq::<Seq<char>>::empty() + flat == flat);
    lemma_pairs_flatten(patch.vars);
    let end = run(start(), encoded(patch));
    assert(end.paths == patch.paths);
    assert(end.fields == flat);
}

fn literal(c: char) -> (yes: bool)
    ensures
        yes == is_literal(c),
{
    let n: u32 = c as u32;
    (97 <= n && n <= 122) || (65 <= n && n <= 90) || (48 <= n && n <= 57) || c == '-' || c == '_'
        || c == '/' || c == '.'
}

fn hex_digit(d: u32) -> (c: char)
    requires
        d < 16,
    ensures
        c == hex_char(d as int),
{
    if d == 0 {
        '0'
    } else if d == 1 {
        '1'
    } else if d == 2 {
        '2'
    } else if d == 3 {
        '3'
    } else if d == 4 {
        '4'
    } else if d == 5 {
        '5'
    } else if d == 6 {
        '6'
    } else if d == 7 {
        '7'
    } else if d == 8 {
        '8'
    } else if d == 9 {
        '9'
    } else if d == 10 {
        'a'
    } else if d == 11 {
        'b'
    } else if d == 12 {
        'c'
    } else if d == 13 {
        'd'
    } else if d == 14 {
        'e'
    } else {
        'f'
    }
}

fn hex_digit_value(c: char) -> (out: Option<u32>)
    ensures
        match out {
            Some(d) => hex_value(c) == Some(d as int) && d < 16,
            None => hex_value(c) is None,
        },
{
    let n: u32 = c as u32;
    if 48 <= n && n <= 57 {
        Some(n - 48)
    } else if 97 <= n && n <= 102 {
        Some(n - 87)
    } else {
        None
    }
}

/// Writes one character.
fn write_char(out: &mut String, c: char)
    ensures
        final(out)@ == old(out)@ + enc_char(c),
{
    let ghost before = out@;
    if literal(c) {
        push_char(out, c);
        assert(out@ =~= before + seq![c]);
    } else {
        let n: u32 = c as u32;
        let d0 = hex_digit(n / 0x100000 % 16);
        let d1 = hex_digit(n / 0x10000 % 16);
        let d2 = hex_digit(n / 0x1000 % 16);
        let d3 = hex_digit(n / 0x100 % 16);
        let d4 = hex_digit(n / 0x10 % 16);
        let d5 = hex_digit(n % 16);
        assert(hex6(c as int) == seq![d0, d1, d2, d3, d4, d5]);
        push_char(out, '+');
        push_char(out, d0);
        push_char(out, d1);
        push_char(out, d2);
        push_char(out, d3);
        push_char(out, d4);
        push_char(out, d5);
        assert(out@ =~= before + (seq!['+'] + seq![d0, d1, d2, d3, d4, d5]));
    }
}

/// Writes one item, with the comma that ends it.
fn write_item(out: &mut String, item: &str)
    ensures
        final(out)@ == old(out)@ + enc_text(item@) + seq![','],
{
    let chars = to_chars(item);
    let ghost before = out@;
    let mut i: usize = 0;
    assert(chars@.take(0) == Seq::<char>::empty());
    assert(before + enc_text(chars@.take(0)) == before);
    while i < chars.len()
        invariant
            i <= chars.len(),
            out@ == before + enc_text(chars@.take(i as int)),
        decreases chars.len() - i,
    {
        let c = chars[i];
        let ghost so_far = out@;
        assert(chars@.take(i + 1).drop_last() == chars@.take(i as int));
        write_char(out, c);
        assert(so_far + enc_char(c) == before + (enc_text(chars@.take(i as int)) + enc_char(c)));
        i += 1;
    }
    assert(chars@.take(chars.len() as int) == chars@);
    push_char(out, ',');
}

/// Writes the record of a patch.
pub fn encode(patch: &EnvironmentPatch) -> (out: String)
    ensures
        out@ == encoded(patch@),
{
    let mut out = String::new();
    let ghost paths = views(patch.path_prepend@);
    let ghost vars = entries(patch.vars);
    let mut i: usize = 0;
    assert(paths.take(0) == Seq::<Seq<char>>::empty());
    while i < patch.path_prepend.len()
        invariant
            i <= patch.path_prepend.len(),
            paths == views(patch.path_prepend@),
            out@ == enc_items(paths.take(i as int)),
        decreases patch.path_prepend.len() - i,
    {
        assert(paths.take(i + 1).drop_last() == paths.take(i as int));
        assert(paths.take(i + 1).last() == patch.path_prepend[i as int]@);
        write_item(&mut out, patch.path_prepend[i].as_str());
        i += 1;
    }
    assert(paths.take(paths.len() as int) == paths);
    push_char(&mut out, '=');
    let ghost head = enc_items(paths) + seq!['='];
    let count = len(&patch.vars);
    let mut k: usize = 0;
    assert(vars.take(0) == Seq::<Pair>::empty());
    assert(head + enc_items(flatten(vars.take(0))) == head);
    while k < count
        invariant
            k <= count,
            count == vars.len(),
            vars == entries(patch.vars),
            out@ == head + enc_items(flatten(vars.take(k as int))),
        decreases count - k,
    {
        let (name, value) = pair_at(&patch.vars, k);
        let ghost so_far = flatten(vars.take(k as int));
        let ghost written = out@;
        assert(vars.take(k + 1).drop_last() == vars.take(k as int));
        assert(vars.take(k + 1).last() == (name@, value@));
        write_item(&mut out, name.as_str());
        write_item(&mut out, value.as_str());
        proof {
            let with_name = so_far.push(name@);
            let with_both = with_name.push(value@);
            assert(flatten(vars.take(k + 1)) == with_both);
            assert(with_both.drop_last() == with_name);
            assert(with_name.drop_last() == so_far);
            assert(enc_items(with_name) == enc_items(so_far) + enc_text(name@) + seq![',']);
            assert(enc_items(with_both) == enc_items(with_name) + enc_text(value@) + seq![',']);
            assert(out@ == written + enc_text(name@) + seq![','] + enc_text(value@) + seq![',']);
            assert(out@ =~= head + enc_items(with_both));
        }
        k += 1;
    }
    assert(vars.take(vars.len() as int) == vars);
    out
}

/// A bound above the value of the digits read of a character, by the number
/// of digits still to come.
pub open spec fn acc_bound(pending: int) -> int {
    if pending >= 6 {
        1
    } else if pending == 5 {
        0x10
    } else if pending == 4 {
        0x100
    } else if pending == 3 {
        0x1000
    } else if pending == 2 {
        0x10000
    } else if pending == 1 {
        0x100000
    } else {
        1
    }
}

/// Reads the items of a record.  Returns the directories and the names and
/// values, or nothing where the text is no record.
fn scan(text: &str) -> (out: Option<(Vec<String>, Vec<String>)>)
    ensures
        match out {
            Some((paths, fields)) => {
                let st = run(start(), text@);
                &&& st.between_items()
                &&& st.in_vars
                &&& st.paths == views(paths@)
                &&& st.fields == views(fields@)
            },
            None => {
                let st = run(start(), text@);
                !(st.ok && st.in_vars && st.pending == 0 && st.item.len() == 0)
            },
        },
{
    let chars = to_chars(text);
    let mut in_vars = false;
    let mut paths: Vec<String> = Vec::new();
    let mut fields: Vec<String> = Vec::new();
    let mut item = String::new();
    let mut pending: u8 = 0;
    let mut acc: u32 = 0;
    let mut i: usize = 0;
    let ghost mut st = start();
    assert(chars@.take(0) == Seq::<char>::empty());
    assert(views(paths@) =~= st.paths);
    assert(views(fields@) =~= st.fields);
    while i < chars.len()
        invariant
            i <= chars.len(),
            chars@ == text@,
            st == run(start(), chars@.take(i as int)),
            st.ok,
            st.in_vars == in_vars,
            st.paths == views(paths@),
            st.fields == views(fields@),
            st.item == item@,
            st.pending == pending,
            st.acc == acc,
            pending <= 6,
            acc < acc_bound(pending as int),
        decreases chars.len() - i,
    {
        let c = chars[i];
        let ghost next = step(st, c);
        proof {
            assert(chars@.take(i + 1).drop_last() == chars@.take(i as int));
            assert(run(start(), chars@.take(i + 1)) == next);
            if !next.ok {
                lemma_run_concat(start(), chars@.take(i + 1), chars@.skip(i + 1));
                assert(chars@.take(i + 1) + chars@.skip(i + 1) == chars@);
                lemma_run_failed(next, chars@.skip(i + 1));
            }
        }
        if pending > 0 {
            match hex_digit_value(c) {
                Some(d) => {
                    let sum: u32 = acc * 16 + d;
                    if pending > 1 {
                        pending -= 1;
                        acc = sum;
                    } else {
                        match char_from_u32(sum) {
                            Some(decoded) => {
                                push_char(&mut item, decoded);
                                pending = 0;
                                acc = 0;
                            },
                            None => {
                                return None;
                            },
                        }
                    }
                },
                None => {
                    return None;
                },
            }
        } else if c == '+' {
            pending = 6;
            acc = 0;
        } else if c == ',' {
            let ghost before_paths = views(paths@);
            let ghost before_fields = views(fields@);
            if in_vars {
                fields.push(item);
                assert(views(fields@) =~= before_fields.push(st.item));
            } else {
                paths.push(item);
                assert(views(paths@) =~= before_paths.push(st.item));
            }
            item = String::new();
        } else if c == '=' {
            if !in_vars && item.as_str().unicode_len() == 0 {
                in_vars = true;
            } else {
                return None;
            }
        } else if literal(c) {
            push_char(&mut item, c);
        } else {
            return None;
        }
        proof {
            st = next;
        }
        i += 1;
    }
    assert(chars@.take(chars.len() as int) == chars@);
    if in_vars && pending == 0 && item.as_str().unicode_len() == 0 {
        Some((paths, fields))
    } else {
        None
    }
}

/// Reads a record back into the patch it holds.  A text that is no record
/// of a well-formed patch gives nothing.
pub fn decode(text: &str) -> (out: Option<EnvironmentPatch>)
    ensures
        match out {
            Some(patch) => decoded(text@) == Some(patch@),
            None => decoded(text@) is None,
        },
{
    let (paths, fields) = match scan(text) {
        Some(read) => read,
        None => {
            return None;
        },
    };
    let ghost all = pairs(views(fields@));
    let ghost read = PatchView { paths: views(paths@), vars: all };
    if fields.len() % 2 != 0 {
        return None;
    }
    assert(decoded(text@) is Some <==> read.well_formed());
    assert(decoded(text@) is Some ==> decoded(text@) == Some(read));
    let mut i: usize = 0;
    while i < paths.len()
        invariant
            i <= paths.len(),
            read.paths == views(paths@),
            decoded(text@) is Some <==> read.well_formed(),
            forall|j: int| 0 <= j < i ==> colon_free(#[trigger] views(paths@)[j]),
        decreases paths.len() - i,
    {
        if holds_colon(paths[i].as_str()) {
            assert(!colon_free(views(paths@)[i as int]));
            assert(!read.well_formed());
            return None;
        }
        i += 1;
    }
    let count: usize = fields.len() / 2;
    let mut vars = new_map();
    let mut k: usize = 0;
    assert(all.take(0) =~= entries(vars));
    while k < count
        invariant
            k <= count,
            count == all.len(),
            2 * count == fields.len(),
            all == pairs(views(fields@)),
            read.vars == all,
            decoded(text@) is Some <==> read.well_formed(),
            entries(vars) == all.take(k as int),
            unique_keys(all.take(k as int)),
            !has_key(all.take(k as int), PATH@),
            !has_key(all.take(k as int), MARKER@),
        decreases count - k,
    {
        let name = &fields[2 * k];
        let value = &fields[2 * k + 1];
        let ghost so_far = all.take(k as int);
        let ghost longer = all.take(k + 1);
        assert(all[k as int] == (name@, value@));
        assert(longer == so_far.push((name@, value@)));
        if str_eq(name.as_str(), PATH) || str_eq(name.as_str(), MARKER) {
            assert(has_key(all, name@));
            assert(!read.well_formed());
            return None;
        }
        if get(&vars, name.as_str()).is_some() {
            proof {
                let j = choose|j: int| 0 <= j < so_far.len() && (#[trigger] so_far[j]).0 == name@;
                assert(so_far[j] == all[j]);
                assert(all[j].0 == all[k as int].0);
                assert(!unique_keys(all));
                assert(!read.well_formed());
            }
            return None;
        }
        insert(&mut vars, name.clone(), value.clone());
        proof {
            assert(unique_keys(longer)) by {
                assert forall|a: int, b: int|
                    0 <= a < longer.len() && 0 <= b < longer.len() && (#[trigger] longer[a]).0
                        == (#[trigger] longer[b]).0 implies a == b by {
                    if a < so_far.len() {
                        assert(so_far[a] == longer[a]);
                    }
                    if b < so_far.len() {
                        assert(so_far[b] == longer[b]);
                    }
                }
            }
            assert forall|key: Seq<char>| key != name@ && !has_key(so_far, key) implies !has_key(
                longer,
                key,
            ) by {
                if has_key(longer, key) {
                    let j = choose|j: int| 0 <= j < longer.len() && (#[trigger] longer[j]).0 == key;
                    assert(so_far[j] == longer[j]);
                }
            }
        }
        k += 1;
    }
    assert(all.take(all.len() as int) == all);
    Some(EnvironmentPatch { path_prepend: paths, vars })
}

} // verus!
