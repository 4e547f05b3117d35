//! The on-disk document format.
//!
//! A list is stored as one JSON object,
//! `{"name":<string>,"todo_list":[{"done":<bool>,"title":<string>},...]}`.
//! [`sp_doc`] is the mathematical definition of the accepted texts: the
//! object above with insignificant whitespace allowed between tokens and
//! at both ends, and the standard JSON string escapes (`\"`, `\\`, `\/`,
//! `\b`, `\f`, `\n`, `\r`, `\t`, and `\uXXXX` for plane-0 scalar values).
//! Two shape choices are fixed rather than free: members come in the
//! order shown and no unknown members are accepted; characters outside
//! plane 0 stand raw, since a `\u` escape names one code unit only.
//!
//! [`serialize_todos`] writes the canonical text [`ser_todos`]: compact,
//! members in the fixed order, `"` and `\` and every control character
//! escaped. [`parse_todos`] accepts exactly [`sp_doc`]'s language, which
//! contains every canonical text: parsing inverts serialization.

use crate::todo::{Todo, TodoView, Todos, TodosView};
use vstd::prelude::*;

verus! {

/// Insignificant whitespace: space, tab, line feed, carriage return.
pub open spec fn is_ws_char(c: char) -> bool {
    c == ' ' || c == '\t' || c == '\n' || c == '\r'
}

/// A hexadecimal digit, either case.
pub open spec fn is_hex_digit(c: char) -> bool {
    let u = c as u32;
    (48 <= u && u <= 57) || (97 <= u && u <= 102) || (65 <= u && u <= 70)
}

/// The value of a hexadecimal digit.
pub open spec fn hex_val(c: char) -> nat {
    let u = c as u32;
    if 48 <= u && u <= 57 {
        (u - 48) as nat
    } else if 97 <= u && u <= 102 {
        (u - 87) as nat
    } else {
        (u - 55) as nat
    }
}

/// The value of four hexadecimal digits.
pub open spec fn hex4(a: char, b: char, c: char, d: char) -> nat {
    hex_val(a) * 4096 + hex_val(b) * 256 + hex_val(c) * 16 + hex_val(d)
}

/// The lower-case digit of one hexadecimal place.
pub open spec fn hex_digit(n: nat) -> char {
    if n == 0 {
        '0'
    } else if n == 1 {
        '1'
    } else if n == 2 {
        '2'
    } else if n == 3 {
        '3'
    } else if n == 4 {
        '4'
    } else if n == 5 {
        '5'
    } else if n == 6 {
        '6'
    } else if n == 7 {
        '7'
    } else if n == 8 {
        '8'
    } else if n == 9 {
        '9'
    } else if n == 10 {
        'a'
    } else if n == 11 {
        'b'
    } else if n == 12 {
        'c'
    } else if n == 13 {
        'd'
    } else if n == 14 {
        'e'
    } else {
        'f'
    }
}

/// Whether a code point is a Unicode scalar value, hence a `char`.
pub open spec fn is_scalar_code(n: nat) -> bool {
    n < 0xD800 || (0xE000 <= n && n <= 0x10FFFF)
}

/// The character with the given scalar value.
pub open spec fn char_of(n: nat) -> char {
    choose|c: char| (#[trigger] (c as u32)) == n
}

/// What a named escape character stands for: the two JSON-mandatory
/// escapes, the solidus, and the four control-character shorthands.
pub open spec fn esc_code(c: char) -> Option<char> {
    if c == '"' {
        Some('"')
    } else if c == '\\' {
        Some('\\')
    } else if c == '/' {
        Some('/')
    } else if c == 'b' {
        Some('\u{0008}')
    } else if c == 'f' {
        Some('\u{000C}')
    } else if c == 'n' {
        Some('\n')
    } else if c == 'r' {
        Some('\r')
    } else if c == 't' {
        Some('\t')
    } else {
        None
    }
}

/// How one character is written inside a canonical quoted string: `"`
/// and `\` escaped by name, control characters as `\u00XX`.
pub open spec fn esc_char(c: char) -> Seq<char> {
    if c == '"' {
        seq!['\\', '"']
    } else if c == '\\' {
        seq!['\\', '\\']
    } else if (c as u32) < 32 {
        seq![
            '\\',
            'u',
            '0',
            '0',
            hex_digit(((c as u32) / 16) as nat),
            hex_digit(((c as u32) % 16) as nat),
        ]
    } else {
        seq![c]
    }
}

/// How a whole string's characters are canonically written inside its
/// quotes.
pub open spec fn esc_str(s: Seq<char>) -> Seq<char>
    decreases s.len(),
{
    if s.len() == 0 {
        Seq::empty()
    } else {
        esc_char(s[0]) + esc_str(s.skip(1))
    }
}

/// The two boolean literals.
pub open spec fn ser_bool(b: bool) -> Seq<char> {
    if b {
        "true"@
    } else {
        "false"@
    }
}

/// The canonical text of one item object.
pub open spec fn ser_todo(t: TodoView) -> Seq<char> {
    "{\"done\":"@ + ser_bool(t.done) + ",\"title\":\""@ + esc_str(t.title) + "\"}"@
}

/// The canonical text of the item array's inside: item objects joined by
/// commas.
pub open spec fn ser_items(ts: Seq<TodoView>) -> Seq<char>
    decreases ts.len(),
{
    if ts.len() == 0 {
        Seq::empty()
    } else if ts.len() == 1 {
        ser_todo(ts[0])
    } else {
        ser_todo(ts[0]) + ","@ + ser_items(ts.skip(1))
    }
}

/// The canonical text of one whole list document.
pub open spec fn ser_todos(v: TodosView) -> Seq<char> {
    "{\"name\":\""@ + esc_str(v.name) + "\",\"todo_list\":["@ + ser_items(v.items) + "]}"@
}

/// The text after any leading insignificant whitespace.
pub open spec fn sp_ws(s: Seq<char>) -> Seq<char>
    decreases s.len(),
{
    if s.len() > 0 && is_ws_char(s[0]) {
        sp_ws(s.skip(1))
    } else {
        s
    }
}

/// What a quoted string's inside parses to: the unescaped characters up
/// to the closing quote, and the text after that quote. `None` when the
/// text has no closing quote, a bad escape, or a raw control character.
pub open spec fn sp_string(s: Seq<char>) -> Option<(Seq<char>, Seq<char>)>
    decreases s.len(),
{
    if s.len() == 0 {
        None
    } else if s[0] == '"' {
        Some((Seq::empty(), s.skip(1)))
    } else if s[0] == '\\' {
        if s.len() >= 2 && esc_code(s[1]) is Some {
            match sp_string(s.skip(2)) {
                Some((x, r)) => Some((seq![esc_code(s[1])->Some_0] + x, r)),
                None => None,
            }
        } else if s.len() >= 6 && s[1] == 'u' && is_hex_digit(s[2]) && is_hex_digit(s[3])
            && is_hex_digit(s[4]) && is_hex_digit(s[5]) && is_scalar_code(
            hex4(s[2], s[3], s[4], s[5]),
        ) {
            match sp_string(s.skip(6)) {
                Some((x, r)) => Some((seq![char_of(hex4(s[2], s[3], s[4], s[5]))] + x, r)),
                None => None,
            }
        } else {
            None
        }
    } else if (s[0] as u32) < 32 {
        None
    } else {
        match sp_string(s.skip(1)) {
            Some((x, r)) => Some((seq![s[0]] + x, r)),
            None => None,
        }
    }
}

/// What a fixed piece of text parses to: the rest, when `s` starts with
/// `lit`.
pub open spec fn sp_lit(s: Seq<char>, lit: Seq<char>) -> Option<Seq<char>> {
    if s.len() >= lit.len() && s.take(lit.len() as int) == lit {
        Some(s.skip(lit.len() as int))
    } else {
        None
    }
}

/// What a fixed token parses to: leading whitespace, then the text.
pub open spec fn sp_tok(s: Seq<char>, lit: Seq<char>) -> Option<Seq<char>> {
    sp_lit(sp_ws(s), lit)
}

/// What a boolean literal parses to.
pub open spec fn sp_bool(s: Seq<char>) -> Option<(bool, Seq<char>)> {
    match sp_lit(s, "true"@) {
        Some(r) => Some((true, r)),
        None => match sp_lit(s, "false"@) {
            Some(r) => Some((false, r)),
            None => None,
        },
    }
}

/// What one item object parses to.
pub open spec fn sp_todo(s: Seq<char>) -> Option<(TodoView, Seq<char>)> {
    match sp_tok(s, "{"@) {
        None => None,
        Some(r1) => match sp_tok(r1, "\"done\""@) {
            None => None,
            Some(r2) => match sp_tok(r2, ":"@) {
                None => None,
                Some(r3) => match sp_bool(sp_ws(r3)) {
                    None => None,
                    Some((b, r4)) => match sp_tok(r4, ","@) {
                        None => None,
                        Some(r5) => match sp_tok(r5, "\"title\""@) {
                            None => None,
                            Some(r6) => match sp_tok(r6, ":"@) {
                                None => None,
                                Some(r7) => match sp_tok(r7, "\""@) {
                                    None => None,
                                    Some(r8) => match sp_string(r8) {
                                        None => None,
                                        Some((ttl, r9)) => match sp_tok(r9, "}"@) {
                                            None => None,
                                            Some(r10) => Some(
                                                (TodoView { done: b, title: ttl }, r10),
                                            ),
                                        },
                                    },
                                },
                            },
                        },
                    },
                },
            },
        },
    }
}

/// What a non-empty item array's inside parses to: one or more item
/// objects joined by commas, then the closing bracket.
pub open spec fn sp_items_ne(s: Seq<char>) -> Option<(Seq<TodoView>, Seq<char>)>
    decreases s.len(),
{
    match sp_todo(s) {
        None => None,
        Some((t, r)) => {
            let w = sp_ws(r);
            if w.len() > 0 && w[0] == ']' {
                Some((seq![t], w.skip(1)))
            } else if w.len() < s.len() && w.len() > 0 && w[0] == ',' {
                match sp_items_ne(w.skip(1)) {
                    None => None,
                    Some((ts, r2)) => Some((seq![t] + ts, r2)),
                }
            } else {
                None
            }
        },
    }
}

/// What an item array's inside parses to, the empty array included.
pub open spec fn sp_items(s: Seq<char>) -> Option<(Seq<TodoView>, Seq<char>)> {
    let w = sp_ws(s);
    if w.len() > 0 && w[0] == ']' {
        Some((Seq::empty(), w.skip(1)))
    } else {
        sp_items_ne(s)
    }
}

/// What one whole list object parses to, with the text after it.
pub open spec fn sp_todos(s: Seq<char>) -> Option<(TodosView, Seq<char>)> {
    match sp_tok(s, "{"@) {
        None => None,
        Some(r1) => match sp_tok(r1, "\"name\""@) {
            None => None,
            Some(r2) => match sp_tok(r2, ":"@) {
                None => None,
                Some(r3) => match sp_tok(r3, "\""@) {
                    None => None,
                    Some(r4) => match sp_string(r4) {
                        None => None,
                        Some((nm, r5)) => match sp_tok(r5, ","@) {
                            None => None,
                            Some(r6) => match sp_tok(r6, "\"todo_list\""@) {
                                None => None,
                                Some(r7) => match sp_tok(r7, ":"@) {
                                    None => None,
                                    Some(r8) => match sp_tok(r8, "["@) {
                                        None => None,
                                        Some(r9) => match sp_items(r9) {
                                            None => None,
                                            Some((its, r10)) => match sp_tok(r10, "}"@) {
                                                None => None,
                                                Some(r11) => Some(
                                                    (TodosView { name: nm, items: its }, r11),
                                                ),
                                            },
                                        },
                                    },
                                },
                            },
                        },
                    },
                },
            },
        },
    }
}

/// What one whole file parses to: one list object with only whitespace
/// around it. This is the accepted language of the format.
pub open spec fn sp_doc(s: Seq<char>) -> Option<TodosView> {
    match sp_todos(s) {
        Some((v, r)) => if sp_ws(r).len() == 0 {
            Some(v)
        } else {
            None
        },
        None => None,
    }
}

/// Relies on `String::push`: appends one character at the end.
#[verifier::external_body]
fn push_char(out: &mut String, c: char)
    ensures
        final(out)@ == old(out)@ + seq![c],
{
    out.push(c);
}

/// Relies on `char::from_u32`: yields the character with the given code
/// point, or `None` exactly when the value is a surrogate or above the
/// character range.
#[verifier::external_body]
fn char_from_code(code: u32) -> (r: Option<char>)
    ensures
        match r {
            Some(c) => c as u32 == code,
            None => !is_scalar_code(code as nat),
        },
{
    char::from_u32(code)
}

/// A hexadecimal place's digit, and that it decodes back to its value.
proof fn lemma_hex_digit(n: nat)
    requires
        n < 16,
    ensures
        is_hex_digit(hex_digit(n)),
        hex_val(hex_digit(n)) == n,
{
}

/// Each scalar value names one character: taking the character of a
/// character's own code gives that character back.
proof fn lemma_char_of_code(c: char)
    ensures
        char_of((c as u32) as nat) == c,
{
    let n = (c as u32) as nat;
    assert(c as u32 == n);
    let d = char_of(n);
    assert(d as u32 == n);
    vstd::utf8::char_u32_cast(c, c as u32);
    vstd::utf8::char_u32_cast(d, c as u32);
}

/// Escaping one more character extends the escaped text.
proof fn lemma_esc_str_push(s: Seq<char>, c: char)
    ensures
        esc_str(s.push(c)) == esc_str(s) + esc_char(c),
    decreases s.len(),
{
    if s.len() == 0 {
        assert(s.push(c)[0] == c);
        assert(s.push(c).skip(1) =~= Seq::<char>::empty());
        assert(esc_str(Seq::<char>::empty()) == Seq::<char>::empty());
        assert(esc_str(s.push(c)) == esc_char(c) + esc_str(Seq::<char>::empty()));
        assert(esc_str(s.push(c)) =~= esc_str(s) + esc_char(c));
    } else {
        assert(s.push(c).skip(1) =~= s.skip(1).push(c));
        lemma_esc_str_push(s.skip(1), c);
        assert(esc_str(s.push(c)) =~= esc_str(s) + esc_char(c));
    }
}

/// The lower-case digit of one place, executably.
fn hex_char(n: u32) -> (r: char)
    requires
        n < 16,
    ensures
        r == hex_digit(n as nat),
{
    if n == 0 {
        '0'
    } else if n == 1 {
        '1'
    } else if n == 2 {
        '2'
    } else if n == 3 {
        '3'
    } else if n == 4 {
        '4'
    } else if n == 5 {
        '5'
    } else if n == 6 {
        '6'
    } else if n == 7 {
        '7'
    } else if n == 8 {
        '8'
    } else if n == 9 {
        '9'
    } else if n == 10 {
        'a'
    } else if n == 11 {
        'b'
    } else if n == 12 {
        'c'
    } else if n == 13 {
        'd'
    } else if n == 14 {
        'e'
    } else {
        'f'
    }
}

/// Appends `esc_str(s@)` to `out`.
fn append_escaped(out: &mut String, s: &str)
    ensures
        final(out)@ == old(out)@ + esc_str(s@),
{
    let n = s.unicode_len();
    let mut k: usize = 0;
    while k < n
        invariant
            n == s@.len(),
            k <= n,
            out@ == old(out)@ + esc_str(s@.take(k as int)),
        decreases n - k,
    {
        let c = s.get_char(k);
        proof {
            lemma_esc_str_push(s@.take(k as int), c);
            assert(s@.take(k as int + 1) =~= s@.take(k as int).push(c));
        }
        if c == '"' || c == '\\' {
            push_char(out, '\\');
            push_char(out, c);
            proof {
                assert(seq!['\\'] + seq![c] =~= esc_char(c));
                assert(out@ =~= old(out)@ + esc_str(s@.take(k as int + 1)));
            }
        } else if (c as u32) < 32 {
            let code: u32 = c as u32;
            push_char(out, '\\');
            push_char(out, 'u');
            push_char(out, '0');
            push_char(out, '0');
            push_char(out, hex_char(code / 16));
            push_char(out, hex_char(code % 16));
            proof {
                assert(seq!['\\'] + seq!['u'] + seq!['0'] + seq!['0'] + seq![
                    hex_digit((code / 16) as nat),
                ] + seq![hex_digit((code % 16) as nat)] =~= esc_char(c));
                assert(out@ =~= old(out)@ + esc_str(s@.take(k as int + 1)));
            }
        } else {
            push_char(out, c);
            proof {
                assert(seq![c] =~= esc_char(c));
                assert(out@ =~= old(out)@ + esc_str(s@.take(k as int + 1)));
            }
        }
        k = k + 1;
    }
    proof {
        assert(s@.take(n as int) =~= s@);
    }
}

/// Appends `ser_todo(t@)` to `out`.
fn append_todo(out: &mut String, t: &Todo)
    ensures
        final(out)@ == old(out)@ + ser_todo(t@),
{
    out.append("{\"done\":");
    if t.done {
        out.append("true");
    } else {
        out.append("false");
    }
    out.append(",\"title\":\"");
    append_escaped(out, t.title.as_str());
    out.append("\"}");
    proof {
        assert(out@ =~= old(out)@ + ser_todo(t@));
    }
}

/// Adding one more item to a non-empty array adds a comma and its text.
proof fn lemma_ser_items_push(ts: Seq<TodoView>, t: TodoView)
    ensures
        ts.len() == 0 ==> ser_items(ts.push(t)) == ser_todo(t),
        ts.len() > 0 ==> ser_items(ts.push(t)) == ser_items(ts) + ","@ + ser_todo(t),
    decreases ts.len(),
{
    if ts.len() == 0 {
        assert(ts.push(t)[0] == t);
        assert(ser_items(ts.push(t)) == ser_todo(t));
    } else if ts.len() == 1 {
        assert(ts.push(t).skip(1) =~= ts.skip(1).push(t));
        assert(ts.skip(1).len() == 0);
        lemma_ser_items_push(ts.skip(1), t);
        assert(ser_items(ts.push(t)) == ser_todo(ts[0]) + ","@ + ser_todo(t));
        assert(ser_items(ts) + ","@ + ser_todo(t) == ser_todo(ts[0]) + ","@ + ser_todo(t));
    } else {
        assert(ts.push(t).skip(1) =~= ts.skip(1).push(t));
        lemma_ser_items_push(ts.skip(1), t);
        assert(ser_items(ts.push(t)) == ser_todo(ts[0]) + ","@ + ser_items(ts.skip(1).push(t)));
        assert(ser_items(ts.push(t)) =~= ser_items(ts) + ","@ + ser_todo(t));
    }
}

/// Appends `ser_items` of the items' views to `out`.
fn append_items(out: &mut String, items: &Vec<Todo>)
    ensures
        final(out)@ == old(out)@ + ser_items(items@.map_values(|t: Todo| t@)),
{
    let ghost tsv = items@.map_values(|t: Todo| t@);
    let mut k: usize = 0;
    while k < items.len()
        invariant
            tsv == items@.map_values(|t: Todo| t@),
            k <= items@.len(),
            out@ == old(out)@ + ser_items(tsv.take(k as int)),
        decreases items@.len() - k,
    {
        if k > 0 {
            out.append(",");
        }
        append_todo(out, &items[k]);
        proof {
            lemma_ser_items_push(tsv.take(k as int), tsv[k as int]);
            assert(tsv.take(k as int + 1) =~= tsv.take(k as int).push(tsv[k as int]));
            assert(tsv[k as int] == items@[k as int]@);
            assert(out@ =~= old(out)@ + ser_items(tsv.take(k as int + 1)));
        }
        k = k + 1;
    }
    proof {
        assert(tsv.take(items@.len() as int) =~= tsv);
    }
}

/// Writes a list as its canonical document text: exactly [`ser_todos`]
/// of its view.
pub fn serialize_todos(ts: &Todos) -> (r: String)
    ensures
        r@ == ser_todos(ts@),
{
    let mut out = String::from_str("{\"name\":\"");
    append_escaped(&mut out, ts.name.as_str());
    out.append("\",\"todo_list\":[");
    append_items(&mut out, &ts.todo_list);
    out.append("]}");
    proof {
        assert(out@ =~= ser_todos(ts@));
    }
    out
}

/// Whitespace skipping leaves a text alone when it does not start with
/// whitespace.
proof fn lemma_sp_ws_noop(s: Seq<char>)
    requires
        s.len() == 0 || !is_ws_char(s[0]),
    ensures
        sp_ws(s) == s,
{
}

/// A fixed piece of text parses off the front of what it prefixes.
proof fn lemma_sp_lit_complete(lit: Seq<char>, rest: Seq<char>)
    ensures
        sp_lit(lit + rest, lit) == Some(rest),
{
    let s = lit + rest;
    assert(s.take(lit.len() as int) =~= lit);
    assert(s.skip(lit.len() as int) =~= rest);
}

/// A token parses off the front of what it prefixes when it does not
/// start with whitespace.
proof fn lemma_sp_tok_complete(lit: Seq<char>, rest: Seq<char>)
    requires
        lit.len() > 0,
        !is_ws_char(lit[0]),
    ensures
        sp_tok(lit + rest, lit) == Some(rest),
{
    assert((lit + rest)[0] == lit[0]);
    lemma_sp_ws_noop(lit + rest);
    lemma_sp_lit_complete(lit, rest);
}

/// A string's canonical escape, closing quote, and tail parse back to
/// the string.
proof fn lemma_sp_string_complete(x: Seq<char>, rest: Seq<char>)
    ensures
        sp_string(esc_str(x) + seq!['"'] + rest) == Some((x, rest)),
    decreases x.len(),
{
    let s = esc_str(x) + seq!['"'] + rest;
    if x.len() == 0 {
        assert(esc_str(x) == Seq::<char>::empty());
        assert(s[0] == '"');
        assert(s.skip(1) =~= rest);
        assert(x =~= Seq::<char>::empty());
    } else {
        let c = x[0];
        assert(esc_str(x) == esc_char(c) + esc_str(x.skip(1)));
        let s2 = esc_str(x.skip(1)) + seq!['"'] + rest;
        lemma_sp_string_complete(x.skip(1), rest);
        assert(seq![c] + x.skip(1) =~= x);
        if c == '"' || c == '\\' {
            assert(esc_char(c) == seq!['\\', c]);
            assert(s.len() >= 2);
            assert(s[0] == '\\');
            assert(s[1] == c);
            assert(esc_code(c) == Some(c));
            assert(s.skip(2) =~= s2);
            assert(sp_string(s) == Some((x, rest)));
        } else if (c as u32) < 32 {
            let code = (c as u32) as nat;
            let h1 = hex_digit(((c as u32) / 16) as nat);
            let h0 = hex_digit(((c as u32) % 16) as nat);
            assert(esc_char(c) == seq!['\\', 'u', '0', '0', h1, h0]);
            assert(s.len() >= 6);
            assert(s[0] == '\\' && s[1] == 'u' && s[2] == '0' && s[3] == '0' && s[4] == h1 && s[5]
                == h0);
            assert(esc_code('u') is None);
            lemma_hex_digit(((c as u32) / 16) as nat);
            lemma_hex_digit(((c as u32) % 16) as nat);
            assert(is_hex_digit('0') && hex_val('0') == 0);
            assert(hex4('0', '0', h1, h0) == code) by {
                vstd::arithmetic::div_mod::lemma_fundamental_div_mod(code as int, 16);
            }
            assert(is_scalar_code(hex4(s[2], s[3], s[4], s[5])));
            lemma_char_of_code(c);
            assert(char_of(hex4(s[2], s[3], s[4], s[5])) == c);
            assert(s.skip(6) =~= s2);
            assert(sp_string(s) == Some((x, rest)));
        } else {
            assert(esc_char(c) == seq![c]);
            assert(s[0] == c);
            assert(c != '"' && c != '\\' && (c as u32) >= 32);
            assert(s.skip(1) =~= s2);
            assert(sp_string(s) == Some((x, rest)));
        }
    }
}

/// A boolean literal and a tail parse back to the boolean.
proof fn lemma_sp_bool_complete(b: bool, rest: Seq<char>)
    ensures
        sp_bool(ser_bool(b) + rest) == Some((b, rest)),
{
    reveal_strlit("true");
    reveal_strlit("false");
    let s = ser_bool(b) + rest;
    if b {
        lemma_sp_lit_complete("true"@, rest);
    } else {
        if sp_lit(s, "true"@) is Some {
            assert(s.take(4)[0] == "true"@[0]);
            assert(s[0] == 'f');
            assert(false);
        }
        lemma_sp_lit_complete("false"@, rest);
    }
}

/// An item object's canonical text and a tail parse back to the item.
proof fn lemma_sp_todo_complete(t: TodoView, rest: Seq<char>)
    ensures
        sp_todo(ser_todo(t) + rest) == Some((t, rest)),
{
    reveal_strlit("{\"done\":");
    reveal_strlit("{");
    reveal_strlit("\"done\"");
    reveal_strlit(":");
    reveal_strlit(",\"title\":\"");
    reveal_strlit(",");
    reveal_strlit("\"title\"");
    reveal_strlit("\"");
    reveal_strlit("\"}");
    reveal_strlit("}");
    reveal_strlit("true");
    reveal_strlit("false");
    let s = ser_todo(t) + rest;
    assert("\""@ =~= seq!['"']);
    let r9 = "}"@ + rest;
    let r8 = esc_str(t.title) + seq!['"'] + r9;
    let r7 = "\""@ + r8;
    let r6 = ":"@ + r7;
    let r5 = "\"title\""@ + r6;
    let r4 = ","@ + r5;
    let r3 = ser_bool(t.done) + r4;
    let r2 = ":"@ + r3;
    let r1 = "\"done\""@ + r2;
    assert("{\"done\":"@ =~= "{"@ + "\"done\""@ + ":"@);
    assert(",\"title\":\""@ =~= ","@ + "\"title\""@ + ":"@ + "\""@);
    assert("\"}"@ =~= "\""@ + "}"@);
    assert(s =~= "{"@ + r1);
    lemma_sp_tok_complete("{"@, r1);
    lemma_sp_tok_complete("\"done\""@, r2);
    lemma_sp_tok_complete(":"@, r3);
    assert(r3[0] == (if t.done { 't' } else { 'f' }));
    lemma_sp_ws_noop(r3);
    lemma_sp_bool_complete(t.done, r4);
    lemma_sp_tok_complete(","@, r5);
    lemma_sp_tok_complete("\"title\""@, r6);
    lemma_sp_tok_complete(":"@, r7);
    lemma_sp_tok_complete("\""@, r8);
    lemma_sp_string_complete(t.title, r9);
    lemma_sp_tok_complete("}"@, rest);
    assert(sp_todo(s) == Some((t, rest)));
}

/// A non-empty item array's canonical text, closing bracket, and tail
/// parse back to the items.
proof fn lemma_sp_items_ne_complete(ts: Seq<TodoView>, rest: Seq<char>)
    requires
        ts.len() >= 1,
    ensures
        sp_items_ne(ser_items(ts) + seq![']'] + rest) == Some((ts, rest)),
    decreases ts.len(),
{
    reveal_strlit(",");
    reveal_strlit("{\"done\":");
    let s = ser_items(ts) + seq![']'] + rest;
    if ts.len() == 1 {
        assert(ser_items(ts) == ser_todo(ts[0]));
        let r = seq![']'] + rest;
        assert(s =~= ser_todo(ts[0]) + r);
        lemma_sp_todo_complete(ts[0], r);
        assert(r[0] == ']');
        lemma_sp_ws_noop(r);
        assert(r.skip(1) =~= rest);
        assert(seq![ts[0]] =~= ts);
    } else {
        let inner = ser_items(ts.skip(1)) + seq![']'] + rest;
        let r = ","@ + inner;
        assert(s =~= ser_todo(ts[0]) + r);
        lemma_sp_todo_complete(ts[0], r);
        assert(r[0] == ',');
        assert(r[0] != ']');
        lemma_sp_ws_noop(r);
        assert(ser_todo(ts[0]).len() > 0);
        assert(r.len() < s.len());
        assert(r.skip(1) =~= inner);
        lemma_sp_items_ne_complete(ts.skip(1), rest);
        assert(seq![ts[0]] + ts.skip(1) =~= ts);
    }
}

/// An item array's canonical inside and a tail parse back to the items,
/// the empty array included.
proof fn lemma_sp_items_complete(ts: Seq<TodoView>, rest: Seq<char>)
    ensures
        sp_items(ser_items(ts) + seq![']'] + rest) == Some((ts, rest)),
{
    reveal_strlit("{\"done\":");
    let s = ser_items(ts) + seq![']'] + rest;
    if ts.len() == 0 {
        assert(ser_items(ts) == Seq::<char>::empty());
        assert(s[0] == ']');
        lemma_sp_ws_noop(s);
        assert(s.skip(1) =~= rest);
        assert(ts =~= Seq::<TodoView>::empty());
    } else {
        assert(ser_items(ts).len() > 0 ==> ser_items(ts)[0] == ser_todo(ts[0])[0]);
        assert(ser_todo(ts[0])[0] == '{');
        assert(s[0] == '{');
        lemma_sp_ws_noop(s);
        assert(s[0] != ']');
        lemma_sp_items_ne_complete(ts, rest);
    }
}

/// A document's canonical text and a tail parse back to the list.
proof fn lemma_sp_todos_complete(v: TodosView, rest: Seq<char>)
    ensures
        sp_todos(ser_todos(v) + rest) == Some((v, rest)),
{
    reveal_strlit("{\"name\":\"");
    reveal_strlit("{");
    reveal_strlit("\"name\"");
    reveal_strlit(":");
    reveal_strlit("\"");
    reveal_strlit("\",\"todo_list\":[");
    reveal_strlit(",");
    reveal_strlit("\"todo_list\"");
    reveal_strlit("[");
    reveal_strlit("]}");
    reveal_strlit("}");
    let s = ser_todos(v) + rest;
    assert("\""@ =~= seq!['"']);
    let r10 = "}"@ + rest;
    let r9 = ser_items(v.items) + seq![']'] + r10;
    let r8 = "["@ + r9;
    let r7 = ":"@ + r8;
    let r6 = "\"todo_list\""@ + r7;
    let r5 = ","@ + r6;
    let r4 = esc_str(v.name) + seq!['"'] + r5;
    let r3 = "\""@ + r4;
    let r2 = ":"@ + r3;
    let r1 = "\"name\""@ + r2;
    assert("{\"name\":\""@ =~= "{"@ + "\"name\""@ + ":"@ + "\""@);
    assert("\",\"todo_list\":["@ =~= "\""@ + ","@ + "\"todo_list\""@ + ":"@ + "["@);
    assert("]}"@ =~= seq![']'] + "}"@);
    assert(s =~= "{"@ + r1);
    lemma_sp_tok_complete("{"@, r1);
    lemma_sp_tok_complete("\"name\""@, r2);
    lemma_sp_tok_complete(":"@, r3);
    lemma_sp_tok_complete("\""@, r4);
    lemma_sp_string_complete(v.name, r5);
    lemma_sp_tok_complete(","@, r6);
    lemma_sp_tok_complete("\"todo_list\""@, r7);
    lemma_sp_tok_complete(":"@, r8);
    lemma_sp_tok_complete("["@, r9);
    lemma_sp_items_complete(v.items, r10);
    lemma_sp_tok_complete("}"@, rest);
    assert(sp_todos(s) == Some((v, rest)));
}

/// Law: parsing inverts serialization. The canonical text written for a
/// list view is an accepted document, and it reads back to exactly that
/// view.
pub proof fn lemma_round_trip(v: TodosView)
    ensures
        sp_doc(ser_todos(v)) == Some(v),
{
    lemma_sp_todos_complete(v, Seq::empty());
    assert(ser_todos(v) + Seq::<char>::empty() =~= ser_todos(v));
    assert(sp_ws(Seq::<char>::empty()).len() == 0);
}

/// Law: two lists with the same canonical text are the same list.
pub proof fn lemma_ser_injective(v1: TodosView, v2: TodosView)
    ensures
        ser_todos(v1) == ser_todos(v2) ==> v1 == v2,
{
    lemma_round_trip(v1);
    lemma_round_trip(v2);
}

/// Moves position `i` past any insignificant whitespace.
fn skip_ws(s: &str, i: usize) -> (j: usize)
    requires
        i <= s@.len(),
    ensures
        i <= j <= s@.len(),
        sp_ws(s@.skip(i as int)) == s@.skip(j as int),
{
    let n = s.unicode_len();
    let mut j: usize = i;
    loop
        invariant
            n == s@.len(),
            i <= j <= n,
            sp_ws(s@.skip(i as int)) == sp_ws(s@.skip(j as int)),
        decreases n - j,
    {
        if j >= n {
            proof {
                assert(s@.skip(j as int).len() == 0);
            }
            return j;
        }
        let c = s.get_char(j);
        proof {
            assert(s@.skip(j as int)[0] == s@[j as int]);
        }
        if c == ' ' || c == '\t' || c == '\n' || c == '\r' {
            proof {
                assert(s@.skip(j as int).skip(1) =~= s@.skip(j as int + 1));
            }
            j = j + 1;
        } else {
            return j;
        }
    }
}

/// Parses a fixed piece of text at position `i`; `Some` holds the
/// position just after it.
fn parse_lit(s: &str, i: usize, lit: &str) -> (r: Option<usize>)
    requires
        i <= s@.len(),
    ensures
        match r {
            Some(j) => {
                &&& i <= j <= s@.len()
                &&& j - i == lit@.len()
                &&& sp_lit(s@.skip(i as int), lit@) == Some(s@.skip(j as int))
            },
            None => sp_lit(s@.skip(i as int), lit@) is None,
        },
{
    let n = s.unicode_len();
    let m = lit.unicode_len();
    if m > n - i {
        return None;
    }
    let mut k: usize = 0;
    while k < m
        invariant
            n == s@.len(),
            m == lit@.len(),
            i + m <= n,
            k <= m,
            forall|q: int| 0 <= q < k ==> s@[i + q] == lit@[q],
        decreases m - k,
    {
        if s.get_char(i + k) != lit.get_char(k) {
            proof {
                assert(s@.skip(i as int).take(m as int)[k as int] != lit@[k as int]);
            }
            return None;
        }
        k = k + 1;
    }
    proof {
        assert(s@.skip(i as int).take(m as int) =~= lit@);
        assert(s@.skip(i as int).skip(m as int) =~= s@.skip(i as int + m as int));
    }
    Some(i + m)
}

/// Parses a fixed token at position `i`: whitespace, then the text.
fn parse_tok(s: &str, i: usize, lit: &str) -> (r: Option<usize>)
    requires
        i <= s@.len(),
    ensures
        match r {
            Some(j) => {
                &&& i <= j <= s@.len()
                &&& j - i >= lit@.len()
                &&& sp_tok(s@.skip(i as int), lit@) == Some(s@.skip(j as int))
            },
            None => sp_tok(s@.skip(i as int), lit@) is None,
        },
{
    let j = skip_ws(s, i);
    parse_lit(s, j, lit)
}

/// Parses a boolean literal at position `i`.
fn parse_bool(s: &str, i: usize) -> (r: Option<(bool, usize)>)
    requires
        i <= s@.len(),
    ensures
        match r {
            Some((b, j)) => i <= j <= s@.len() && sp_bool(s@.skip(i as int)) == Some((
                b,
                s@.skip(j as int),
            )),
            None => sp_bool(s@.skip(i as int)) is None,
        },
{
    match parse_lit(s, i, "true") {
        Some(j) => Some((true, j)),
        None => match parse_lit(s, i, "false") {
            Some(j) => Some((false, j)),
            None => None,
        },
    }
}

/// What a named escape stands for, executably.
fn esc_lookup(c: char) -> (r: Option<char>)
    ensures
        r == esc_code(c),
{
    if c == '"' {
        Some('"')
    } else if c == '\\' {
        Some('\\')
    } else if c == '/' {
        Some('/')
    } else if c == 'b' {
        Some('\u{0008}')
    } else if c == 'f' {
        Some('\u{000C}')
    } else if c == 'n' {
        Some('\n')
    } else if c == 'r' {
        Some('\r')
    } else if c == 't' {
        Some('\t')
    } else {
        None
    }
}

/// The value of a hexadecimal digit, executably.
fn hex_value(c: char) -> (r: Option<u32>)
    ensures
        match r {
            Some(v) => is_hex_digit(c) && v == hex_val(c) && v < 16,
            None => !is_hex_digit(c),
        },
{
    let u = c as u32;
    if 48 <= u && u <= 57 {
        Some(u - 48)
    } else if 97 <= u && u <= 102 {
        Some(u - 87)
    } else if 65 <= u && u <= 70 {
        Some(u - 55)
    } else {
        None
    }
}

/// Parses a quoted string's inside at position `i`, up to and over the
/// closing quote.
fn parse_string(s: &str, i: usize) -> (r: Option<(String, usize)>)
    requires
        i <= s@.len(),
    ensures
        match r {
            Some((x, j)) => i <= j <= s@.len() && sp_string(s@.skip(i as int)) == Some((
                x@,
                s@.skip(j as int),
            )),
            None => sp_string(s@.skip(i as int)) is None,
        },
{
    let n = s.unicode_len();
    let mut acc = String::new();
    let mut j: usize = i;
    loop
        invariant
            n == s@.len(),
            i <= j <= n,
            ({
                match sp_string(s@.skip(j as int)) {
                    Some((x, r)) => sp_string(s@.skip(i as int)) == Some((acc@ + x, r)),
                    None => sp_string(s@.skip(i as int)) is None,
                }
            }),
        decreases n - j,
    {
        if j >= n {
            return None;
        }
        let c = s.get_char(j);
        proof {
            assert(s@.skip(j as int)[0] == s@[j as int]);
        }
        if c == '"' {
            proof {
                assert(s@.skip(j as int).skip(1) =~= s@.skip(j as int + 1));
                assert(acc@ + Seq::<char>::empty() =~= acc@);
            }
            return Some((acc, j + 1));
        } else if c == '\\' {
            if j + 1 >= n {
                proof {
                    assert(s@.skip(j as int).len() == n - j);
                }
                return None;
            }
            let c2 = s.get_char(j + 1);
            proof {
                assert(s@.skip(j as int)[1] == s@[j as int + 1]);
                assert(s@.skip(j as int).len() >= 2);
            }
            match esc_lookup(c2) {
                Some(ch) => {
                    let ghost acc0 = acc@;
                    push_char(&mut acc, ch);
                    proof {
                        assert(s@.skip(j as int).skip(2) =~= s@.skip(j as int + 2));
                        if let Some((x2, r2)) = sp_string(s@.skip(j as int + 2)) {
                            assert((acc0 + seq![ch]) + x2 =~= acc0 + (seq![ch] + x2));
                        }
                    }
                    j = j + 2;
                },
                None => {
                    if c2 != 'u' {
                        return None;
                    }
                    if n - j < 6 {
                        proof {
                            assert(s@.skip(j as int).len() == n - j);
                        }
                        return None;
                    }
                    let d0 = s.get_char(j + 2);
                    let d1 = s.get_char(j + 3);
                    let d2 = s.get_char(j + 4);
                    let d3 = s.get_char(j + 5);
                    proof {
                        assert(s@.skip(j as int)[2] == s@[j as int + 2]);
                        assert(s@.skip(j as int)[3] == s@[j as int + 3]);
                        assert(s@.skip(j as int)[4] == s@[j as int + 4]);
                        assert(s@.skip(j as int)[5] == s@[j as int + 5]);
                    }
                    let v0 = match hex_value(d0) {
                        None => {
                            return None;
                        },
                        Some(v) => v,
                    };
                    let v1 = match hex_value(d1) {
                        None => {
                            return None;
                        },
                        Some(v) => v,
                    };
                    let v2 = match hex_value(d2) {
                        None => {
                            return None;
                        },
                        Some(v) => v,
                    };
                    let v3 = match hex_value(d3) {
                        None => {
                            return None;
                        },
                        Some(v) => v,
                    };
                    let code: u32 = ((v0 * 16 + v1) * 16 + v2) * 16 + v3;
                    proof {
                        assert(code as nat == hex4(d0, d1, d2, d3));
                    }
                    if !(code < 0xD800 || code >= 0xE000) {
                        return None;
                    }
                    match char_from_code(code) {
                        Some(ch) => {
                            proof {
                                lemma_char_of_code(ch);
                                assert(char_of(hex4(d0, d1, d2, d3)) == ch);
                            }
                            let ghost acc0 = acc@;
                            push_char(&mut acc, ch);
                            proof {
                                assert(s@.skip(j as int).skip(6) =~= s@.skip(j as int + 6));
                                if let Some((x2, r2)) = sp_string(s@.skip(j as int + 6)) {
                                    assert((acc0 + seq![ch]) + x2 =~= acc0 + (seq![ch] + x2));
                                }
                            }
                            j = j + 6;
                        },
                        None => {
                            proof {
                                assert(false);
                            }
                            return None;
                        },
                    }
                },
            }
        } else if (c as u32) < 32 {
            return None;
        } else {
            let ghost acc0 = acc@;
            push_char(&mut acc, c);
            proof {
                assert(s@.skip(j as int).skip(1) =~= s@.skip(j as int + 1));
                if let Some((x2, r2)) = sp_string(s@.skip(j as int + 1)) {
                    assert((acc0 + seq![c]) + x2 =~= acc0 + (seq![c] + x2));
                }
            }
            j = j + 1;
        }
    }
}

/// Parses one item object at position `i`.
fn parse_todo(s: &str, i: usize) -> (r: Option<(Todo, usize)>)
    requires
        i <= s@.len(),
    ensures
        match r {
            Some((t, j)) => i < j <= s@.len() && sp_todo(s@.skip(i as int)) == Some((
                t@,
                s@.skip(j as int),
            )),
            None => sp_todo(s@.skip(i as int)) is None,
        },
{
    let j1 = match parse_tok(s, i, "{") {
        None => {
            return None;
        },
        Some(j) => j,
    };
    let j2 = match parse_tok(s, j1, "\"done\"") {
        None => {
            return None;
        },
        Some(j) => j,
    };
    let j3 = match parse_tok(s, j2, ":") {
        None => {
            return None;
        },
        Some(j) => j,
    };
    let jb = skip_ws(s, j3);
    let (b, j4) = match parse_bool(s, jb) {
        None => {
            return None;
        },
        Some(p) => p,
    };
    let j5 = match parse_tok(s, j4, ",") {
        None => {
            return None;
        },
        Some(j) => j,
    };
    let j6 = match parse_tok(s, j5, "\"title\"") {
        None => {
            return None;
        },
        Some(j) => j,
    };
    let j7 = match parse_tok(s, j6, ":") {
        None => {
            return None;
        },
        Some(j) => j,
    };
    let j8 = match parse_tok(s, j7, "\"") {
        None => {
            return None;
        },
        Some(j) => j,
    };
    let (ttl, j9) = match parse_string(s, j8) {
        None => {
            return None;
        },
        Some(p) => p,
    };
    let j10 = match parse_tok(s, j9, "}") {
        None => {
            return None;
        },
        Some(j) => j,
    };
    proof {
        assert("{"@.len() == 1) by {
            reveal_strlit("{");
        }
    }
    Some((Todo { done: b, title: ttl }, j10))
}

/// Parses an item array's inside at position `i`, up to and over the
/// closing bracket.
fn parse_items(s: &str, i: usize) -> (r: Option<(Vec<Todo>, usize)>)
    requires
        i <= s@.len(),
    ensures
        match r {
            Some((v, j)) => i <= j <= s@.len() && sp_items(s@.skip(i as int)) == Some((
                v@.map_values(|t: Todo| t@),
                s@.skip(j as int),
            )),
            None => sp_items(s@.skip(i as int)) is None,
        },
{
    let n = s.unicode_len();
    let j0 = skip_ws(s, i);
    if j0 < n {
        let c0 = s.get_char(j0);
        if c0 == ']' {
            let v: Vec<Todo> = Vec::new();
            proof {
                assert(s@.skip(j0 as int)[0] == s@[j0 as int]);
                assert(s@.skip(j0 as int).skip(1) =~= s@.skip(j0 as int + 1));
                assert(v@.map_values(|t: Todo| t@) =~= Seq::<TodoView>::empty());
            }
            return Some((v, j0 + 1));
        }
    }
    let mut out: Vec<Todo> = Vec::new();
    let mut j: usize = i;
    proof {
        if j0 < n {
            assert(s@.skip(j0 as int)[0] == s@[j0 as int]);
        } else {
            assert(s@.skip(j0 as int).len() == 0);
        }
        assert(sp_items(s@.skip(i as int)) == sp_items_ne(s@.skip(i as int)));
        if let Some((ts, r)) = sp_items_ne(s@.skip(i as int)) {
            assert(out@.map_values(|t: Todo| t@) + ts =~= ts);
        }
    }
    loop
        invariant
            n == s@.len(),
            i <= j <= n,
            ({
                match sp_items_ne(s@.skip(j as int)) {
                    Some((ts, r)) => sp_items(s@.skip(i as int)) == Some((
                        out@.map_values(|t: Todo| t@) + ts,
                        r,
                    )),
                    None => sp_items(s@.skip(i as int)) is None,
                }
            }),
        decreases n - j,
    {
        let (t, j2) = match parse_todo(s, j) {
            None => {
                return None;
            },
            Some(p) => p,
        };
        let ghost out0 = out@;
        out.push(t);
        proof {
            assert(out@ =~= out0.push(t));
            assert(out@.map_values(|q: Todo| q@) =~= out0.map_values(|q: Todo| q@).push(t@));
        }
        let j3 = skip_ws(s, j2);
        if j3 < n {
            let c = s.get_char(j3);
            proof {
                assert(s@.skip(j3 as int)[0] == s@[j3 as int]);
                assert(s@.skip(j3 as int).skip(1) =~= s@.skip(j3 as int + 1));
            }
            if c == ']' {
                proof {
                    assert(out0.map_values(|q: Todo| q@) + seq![t@] =~= out@.map_values(
                        |q: Todo| q@,
                    ));
                }
                return Some((out, j3 + 1));
            } else if c == ',' {
                proof {
                    if let Some((ts2, r2)) = sp_items_ne(s@.skip(j3 as int + 1)) {
                        assert(sp_items_ne(s@.skip(j as int)) == Some((seq![t@] + ts2, r2)));
                        assert(out0.map_values(|q: Todo| q@) + (seq![t@] + ts2) =~= out@.map_values(
                            |q: Todo| q@,
                        ) + ts2);
                    }
                }
                j = j3 + 1;
            } else {
                return None;
            }
        } else {
            proof {
                assert(s@.skip(j3 as int).len() == 0);
            }
            return None;
        }
    }
}

/// Parses the list object at the front of a text, with the position
/// after it.
fn parse_obj(s: &str) -> (r: Option<(Todos, usize)>)
    ensures
        match r {
            Some((t, j)) => j <= s@.len() && sp_todos(s@) == Some((t@, s@.skip(j as int))),
            None => sp_todos(s@) is None,
        },
{
    proof {
        assert(s@.skip(0) =~= s@);
    }
    let j1 = match parse_tok(s, 0, "{") {
        None => {
            return None;
        },
        Some(j) => j,
    };
    let j2 = match parse_tok(s, j1, "\"name\"") {
        None => {
            return None;
        },
        Some(j) => j,
    };
    let j3 = match parse_tok(s, j2, ":") {
        None => {
            return None;
        },
        Some(j) => j,
    };
    let j4 = match parse_tok(s, j3, "\"") {
        None => {
            return None;
        },
        Some(j) => j,
    };
    let (nm, j5) = match parse_string(s, j4) {
        None => {
            return None;
        },
        Some(p) => p,
    };
    let j6 = match parse_tok(s, j5, ",") {
        None => {
            return None;
        },
        Some(j) => j,
    };
    let j7 = match parse_tok(s, j6, "\"todo_list\"") {
        None => {
            return None;
        },
        Some(j) => j,
    };
    let j8 = match parse_tok(s, j7, ":") {
        None => {
            return None;
        },
        Some(j) => j,
    };
    let j9 = match parse_tok(s, j8, "[") {
        None => {
            return None;
        },
        Some(j) => j,
    };
    let (its, j10) = match parse_items(s, j9) {
        None => {
            return None;
        },
        Some(p) => p,
    };
    let j11 = match parse_tok(s, j10, "}") {
        None => {
            return None;
        },
        Some(j) => j,
    };
    Some((Todos { name: nm, todo_list: its }, j11))
}

/// Reads a list back from a document text.
///
/// Succeeds exactly on the accepted language [`sp_doc`], returning the
/// list it defines; in particular every canonical text parses back to
/// the list it was written from.
pub fn parse_todos(s: &str) -> (r: Option<Todos>)
    ensures
        r matches Some(t) ==> sp_doc(s@) == Some(t@),
        r is None ==> sp_doc(s@) is None,
        forall|v: TodosView| s@ == ser_todos(v) ==> (r matches Some(t) && t@ == v),
{
    let n = s.unicode_len();
    match parse_obj(s) {
        None => {
            proof {
                assert forall|v: TodosView| s@ != ser_todos(v) by {
                    lemma_round_trip(v);
                    if s@ == ser_todos(v) {
                        assert(sp_doc(s@) == Some(v));
                        assert(false);
                    }
                }
            }
            None
        },
        Some((t, j)) => {
            let j2 = skip_ws(s, j);
            if j2 == n {
                proof {
                    assert(s@.skip(j2 as int).len() == 0);
                    assert(sp_doc(s@) == Some(t@));
                    assert forall|v: TodosView| s@ == ser_todos(v) implies t@ == v by {
                        lemma_round_trip(v);
                    }
                }
                Some(t)
            } else {
                proof {
                    assert(s@.skip(j2 as int).len() == n - j2);
                    assert(sp_doc(s@) is None);
                    assert forall|v: TodosView| s@ != ser_todos(v) by {
                        lemma_round_trip(v);
                        if s@ == ser_todos(v) {
                            assert(sp_doc(s@) == Some(v));
                            assert(false);
                        }
                    }
                }
                None
            }
        },
    }
}

} // verus!
