//! The persistence codec: the whole document to and from its JSON text.
//!
//! The encoder emits the fixed document shape — the `notes` array, the
//! `todos` array, then `last_daily_reset_date` — with every string quoted
//! and escaped. The parser reads exactly that shape back; any text it
//! cannot read yields no document, and the loading entry points fall back
//! to the empty document, so corrupt or missing state is never an error.
//! Both directions are verified, and parsing is proved to invert encoding
//! for every document.

use vstd::prelude::*;
use crate::data::{Document, DocumentV, Note, NoteV, Todo, TodoV, empty_document};

verus! {

// ---------------------------------------------------------------------
// Escaping of one character / one string
// ---------------------------------------------------------------------

/// The hexadecimal digit for a value below 16, lowercase.
pub open spec fn hex_lo_char(v: int) -> char {
    if v == 0 { '0' } else if v == 1 { '1' } else if v == 2 { '2' } else if v == 3 { '3' }
    else if v == 4 { '4' } else if v == 5 { '5' } else if v == 6 { '6' } else if v == 7 { '7' }
    else if v == 8 { '8' } else if v == 9 { '9' } else if v == 10 { 'a' } else if v == 11 { 'b' }
    else if v == 12 { 'c' } else if v == 13 { 'd' } else if v == 14 { 'e' } else { 'f' }
}

/// The value of a hexadecimal digit as the escape decoder reads it, or -1.
pub open spec fn hex_val(c: char) -> int {
    if c == '0' { 0 } else if c == '1' { 1 } else if c == '2' { 2 } else if c == '3' { 3 }
    else if c == '4' { 4 } else if c == '5' { 5 } else if c == '6' { 6 } else if c == '7' { 7 }
    else if c == '8' { 8 } else if c == '9' { 9 } else if c == 'a' { 10 } else if c == 'b' { 11 }
    else if c == 'c' { 12 } else if c == 'd' { 13 } else if c == 'e' { 14 } else if c == 'f' { 15 }
    else { -1 }
}

/// The control character with the given scalar value below 32.
pub open spec fn ctl_char(v: int) -> char {
    if v == 0 { '\u{0}' } else if v == 1 { '\u{1}' } else if v == 2 { '\u{2}' }
    else if v == 3 { '\u{3}' } else if v == 4 { '\u{4}' } else if v == 5 { '\u{5}' }
    else if v == 6 { '\u{6}' } else if v == 7 { '\u{7}' } else if v == 8 { '\u{8}' }
    else if v == 9 { '\u{9}' } else if v == 10 { '\u{a}' } else if v == 11 { '\u{b}' }
    else if v == 12 { '\u{c}' } else if v == 13 { '\u{d}' } else if v == 14 { '\u{e}' }
    else if v == 15 { '\u{f}' } else if v == 16 { '\u{10}' } else if v == 17 { '\u{11}' }
    else if v == 18 { '\u{12}' } else if v == 19 { '\u{13}' } else if v == 20 { '\u{14}' }
    else if v == 21 { '\u{15}' } else if v == 22 { '\u{16}' } else if v == 23 { '\u{17}' }
    else if v == 24 { '\u{18}' } else if v == 25 { '\u{19}' } else if v == 26 { '\u{1a}' }
    else if v == 27 { '\u{1b}' } else if v == 28 { '\u{1c}' } else if v == 29 { '\u{1d}' }
    else if v == 30 { '\u{1e}' } else { '\u{1f}' }
}

/// How one character appears inside a JSON string: quote and backslash get
/// a backslash escape, control characters a `\u00XY` escape, and everything
/// else stands for itself.
pub open spec fn esc_char(c: char) -> Seq<char> {
    if c == '"' {
        seq!['\\', '"']
    } else if c == '\\' {
        seq!['\\', '\\']
    } else if (c as u32) < 32 {
        let v: int = (c as u32) as int;
        seq!['\\', 'u', '0', '0', if v < 16 { '0' } else { '1' }, hex_lo_char(v % 16)]
    } else {
        seq![c]
    }
}

/// A whole string body, escaped character by character.
pub open spec fn esc_str(s: Seq<char>) -> Seq<char>
    decreases s.len(),
{
    if s.len() == 0 {
        Seq::empty()
    } else {
        esc_char(s[0]) + esc_str(s.skip(1))
    }
}

/// A JSON string: the escaped body between quotes.
pub open spec fn enc_string(s: Seq<char>) -> Seq<char> {
    seq!['"'] + esc_str(s) + seq!['"']
}

/// A JSON boolean literal.
pub open spec fn enc_bool(b: bool) -> Seq<char> {
    if b { "true"@ } else { "false"@ }
}

/// An optional string: `null` when absent.
pub open spec fn enc_opt_string(o: Option<Seq<char>>) -> Seq<char> {
    match o {
        None => "null"@,
        Some(s) => enc_string(s),
    }
}

/// The items of a string array after the first, each behind a separator.
pub open spec fn enc_strings_rest(ts: Seq<Seq<char>>) -> Seq<char>
    decreases ts.len(),
{
    if ts.len() == 0 {
        Seq::empty()
    } else {
        ", "@ + enc_string(ts[0]) + enc_strings_rest(ts.skip(1))
    }
}

/// A tag list: `null` when absent, else a JSON array of strings.
pub open spec fn enc_tags(o: Option<Seq<Seq<char>>>) -> Seq<char> {
    match o {
        None => "null"@,
        Some(ts) => if ts.len() == 0 {
            "["@ + "]"@
        } else {
            "["@ + enc_string(ts[0]) + enc_strings_rest(ts.skip(1)) + "]"@
        },
    }
}

/// One note as a JSON object.
#[verifier::opaque]
pub open spec fn enc_note(n: NoteV) -> Seq<char> {
    "{\"id\": "@ + enc_string(n.id) + ", \"title\": "@ + enc_string(n.title)
        + ", \"content\": "@ + enc_string(n.content) + ", \"tags\": "@ + enc_tags(n.tags)
        + ", \"created_at\": "@ + enc_string(n.created_at) + ", \"updated_at\": "@ + enc_string(
        n.updated_at,
    ) + "}"@
}

/// The notes after the first, each behind a separator.
pub open spec fn enc_notes_rest(ns: Seq<NoteV>) -> Seq<char>
    decreases ns.len(),
{
    if ns.len() == 0 {
        Seq::empty()
    } else {
        ", "@ + enc_note(ns[0]) + enc_notes_rest(ns.skip(1))
    }
}

/// The contents of the notes array.
pub open spec fn enc_notes(ns: Seq<NoteV>) -> Seq<char> {
    if ns.len() == 0 {
        Seq::empty()
    } else {
        enc_note(ns[0]) + enc_notes_rest(ns.skip(1))
    }
}

/// One todo as a JSON object.
#[verifier::opaque]
pub open spec fn enc_todo(t: TodoV) -> Seq<char> {
    "{\"id\": "@ + enc_string(t.id) + ", \"task\": "@ + enc_string(t.task)
        + ", \"completed\": "@ + enc_bool(t.completed) + ", \"is_daily\": "@ + enc_bool(
        t.is_daily,
    ) + ", \"created_at\": "@ + enc_string(t.created_at) + "}"@
}

/// The todos after the first, each behind a separator.
pub open spec fn enc_todos_rest(ts: Seq<TodoV>) -> Seq<char>
    decreases ts.len(),
{
    if ts.len() == 0 {
        Seq::empty()
    } else {
        ", "@ + enc_todo(ts[0]) + enc_todos_rest(ts.skip(1))
    }
}

/// The contents of the todos array.
pub open spec fn enc_todos(ts: Seq<TodoV>) -> Seq<char> {
    if ts.len() == 0 {
        Seq::empty()
    } else {
        enc_todo(ts[0]) + enc_todos_rest(ts.skip(1))
    }
}

/// The whole document as JSON text.
pub open spec fn enc_doc(d: DocumentV) -> Seq<char> {
    "{\n  \"notes\": ["@ + enc_notes(d.notes) + "],\n  \"todos\": ["@ + enc_todos(d.todos)
        + "],\n  \"last_daily_reset_date\": "@ + enc_opt_string(d.last_daily_reset_date) + "\n}"@
}

// ---------------------------------------------------------------------
// Executable encoder
// ---------------------------------------------------------------------

/// Relies on `String::push`: appends the given character to the end of the
/// string.
#[verifier::external_body]
fn push_char(s: &mut String, c: char)
    ensures
        final(s)@ == old(s)@.push(c),
{
    s.push(c)
}

/// The hexadecimal digit character for a value below 16.
fn hex_lo_exec(v: u32) -> (r: char)
    requires
        v < 16,
    ensures
        r == hex_lo_char(v as int),
{
    if v == 0 { '0' } else if v == 1 { '1' } else if v == 2 { '2' } else if v == 3 { '3' }
    else if v == 4 { '4' } else if v == 5 { '5' } else if v == 6 { '6' } else if v == 7 { '7' }
    else if v == 8 { '8' } else if v == 9 { '9' } else if v == 10 { 'a' } else if v == 11 { 'b' }
    else if v == 12 { 'c' } else if v == 13 { 'd' } else if v == 14 { 'e' } else { 'f' }
}

/// Appends the escaped form of one character.
fn emit_escaped_char(out: &mut String, c: char)
    ensures
        final(out)@ == old(out)@ + esc_char(c),
{
    let ghost start = out@;
    if c == '"' {
        push_char(out, '\\');
        push_char(out, '"');
        proof {
            assert(out@ =~= start + esc_char(c));
        }
    } else if c == '\\' {
        push_char(out, '\\');
        push_char(out, '\\');
        proof {
            assert(out@ =~= start + esc_char(c));
        }
    } else if (c as u32) < 32 {
        let v: u32 = c as u32;
        push_char(out, '\\');
        push_char(out, 'u');
        push_char(out, '0');
        push_char(out, '0');
        push_char(out, if v < 16 { '0' } else { '1' });
        push_char(out, hex_lo_exec(v % 16));
        proof {
            assert(out@ =~= start + esc_char(c));
        }
    } else {
        push_char(out, c);
        proof {
            assert(out@ =~= start + esc_char(c));
        }
    }
}

/// Appends the escaped body of a string, from character `i` on.
fn emit_escaped(out: &mut String, s: &str, i: usize)
    requires
        i <= s@.len(),
    ensures
        final(out)@ == old(out)@ + esc_str(s@.skip(i as int)),
    decreases s@.len() - i,
{
    let ghost start = out@;
    let n = s.unicode_len();
    if i < n {
        let c = s.get_char(i);
        emit_escaped_char(out, c);
        emit_escaped(out, s, i + 1);
        proof {
            assert(s@.skip(i as int).skip(1) =~= s@.skip(i + 1));
            assert(s@.skip(i as int)[0] == c);
            assert(out@ =~= start + esc_str(s@.skip(i as int)));
        }
    } else {
        proof {
            assert(s@.skip(i as int) =~= Seq::<char>::empty());
        }
    }
}

/// Appends a quoted, escaped JSON string.
fn emit_string(out: &mut String, s: &str)
    ensures
        final(out)@ == old(out)@ + enc_string(s@),
{
    let ghost start = out@;
    push_char(out, '"');
    emit_escaped(out, s, 0);
    push_char(out, '"');
    proof {
        assert(s@.skip(0) =~= s@);
        assert(out@ =~= start + enc_string(s@));
    }
}

/// Appends a JSON boolean.
fn emit_bool(out: &mut String, b: bool)
    ensures
        final(out)@ == old(out)@ + enc_bool(b),
{
    if b {
        out.append("true");
    } else {
        out.append("false");
    }
}

/// Appends a tag list (`null` when absent).
fn emit_tags(out: &mut String, o: &Option<Vec<String>>)
    ensures
        final(out)@ == old(out)@ + enc_tags(o.deep_view()),
{
    let ghost start = out@;
    match o {
        None => {
            out.append("null");
        },
        Some(ts) => {
            out.append("[");
            if ts.len() > 0 {
                emit_string(out, ts[0].as_str());
                emit_strings_rest(out, ts, 1);
                proof {
                    assert(ts.deep_view()[0] == ts@[0]@);
                }
            }
            out.append("]");
            proof {
                assert(out@ =~= start + enc_tags(o.deep_view()));
            }
        },
    }
}

/// Appends `", <string>"` for every element from position `i` on.
fn emit_strings_rest(out: &mut String, ts: &Vec<String>, i: usize)
    requires
        i <= ts@.len(),
    ensures
        final(out)@ == old(out)@ + enc_strings_rest(ts.deep_view().skip(i as int)),
    decreases ts@.len() - i,
{
    let ghost start = out@;
    if i < ts.len() {
        out.append(", ");
        emit_string(out, ts[i].as_str());
        emit_strings_rest(out, ts, i + 1);
        proof {
            assert(ts.deep_view().skip(i as int).skip(1) =~= ts.deep_view().skip(i + 1));
            assert(ts.deep_view().skip(i as int)[0] == ts@[i as int]@);
            assert(out@ =~= start + enc_strings_rest(ts.deep_view().skip(i as int)));
        }
    } else {
        proof {
            assert(ts.deep_view().skip(i as int) =~= Seq::<Seq<char>>::empty());
        }
    }
}

/// Appends one note object.
fn emit_note(out: &mut String, n: &Note)
    ensures
        final(out)@ == old(out)@ + enc_note(n@),
{
    let ghost start = out@;
    out.append("{\"id\": ");
    emit_string(out, n.id.as_str());
    out.append(", \"title\": ");
    emit_string(out, n.title.as_str());
    out.append(", \"content\": ");
    emit_string(out, n.content.as_str());
    out.append(", \"tags\": ");
    emit_tags(out, &n.tags);
    out.append(", \"created_at\": ");
    emit_string(out, n.created_at.as_str());
    out.append(", \"updated_at\": ");
    emit_string(out, n.updated_at.as_str());
    out.append("}");
    proof {
        reveal(enc_note);
        assert(out@ =~= start + enc_note(n@));
    }
}

/// Appends `", <note>"` for every note from position `i` on.
fn emit_notes_rest(out: &mut String, ns: &Vec<Note>, i: usize)
    requires
        i <= ns@.len(),
    ensures
        final(out)@ == old(out)@ + enc_notes_rest(ns.deep_view().skip(i as int)),
    decreases ns@.len() - i,
{
    let ghost start = out@;
    if i < ns.len() {
        out.append(", ");
        emit_note(out, &ns[i]);
        emit_notes_rest(out, ns, i + 1);
        proof {
            assert(ns.deep_view().skip(i as int).skip(1) =~= ns.deep_view().skip(i + 1));
            assert(ns.deep_view().skip(i as int)[0] == ns@[i as int]@);
            assert(out@ =~= start + enc_notes_rest(ns.deep_view().skip(i as int)));
        }
    } else {
        proof {
            assert(ns.deep_view().skip(i as int) =~= Seq::<NoteV>::empty());
        }
    }
}

/// Appends one todo object.
fn emit_todo(out: &mut String, t: &Todo)
    ensures
        final(out)@ == old(out)@ + enc_todo(t@),
{
    let ghost start = out@;
    out.append("{\"id\": ");
    emit_string(out, t.id.as_str());
    out.append(", \"task\": ");
    emit_string(out, t.task.as_str());
    out.append(", \"completed\": ");
    emit_bool(out, t.completed);
    out.append(", \"is_daily\": ");
    emit_bool(out, t.is_daily);
    out.append(", \"created_at\": ");
    emit_string(out, t.created_at.as_str());
    out.append("}");
    proof {
        reveal(enc_todo);
        assert(out@ =~= start + enc_todo(t@));
    }
}

/// Appends `", <todo>"` for every todo from position `i` on.
fn emit_todos_rest(out: &mut String, ts: &Vec<Todo>, i: usize)
    requires
        i <= ts@.len(),
    ensures
        final(out)@ == old(out)@ + enc_todos_rest(ts.deep_view().skip(i as int)),
    decreases ts@.len() - i,
{
    let ghost start = out@;
    if i < ts.len() {
        out.append(", ");
        emit_todo(out, &ts[i]);
        emit_todos_rest(out, ts, i + 1);
        proof {
            assert(ts.deep_view().skip(i as int).skip(1) =~= ts.deep_view().skip(i + 1));
            assert(ts.deep_view().skip(i as int)[0] == ts@[i as int]@);
            assert(out@ =~= start + enc_todos_rest(ts.deep_view().skip(i as int)));
        }
    } else {
        proof {
            assert(ts.deep_view().skip(i as int) =~= Seq::<TodoV>::empty());
        }
    }
}

/// The whole document as JSON text, exactly [`enc_doc`] of its value.
#[verifier::rlimit(60)]
pub fn encode_document(d: &Document) -> (r: String)
    ensures
        r@ == enc_doc(d@),
{
    let mut out = String::new();
    out.append("{\n  \"notes\": [");
    if d.notes.len() > 0 {
        emit_note(&mut out, &d.notes[0]);
        emit_notes_rest(&mut out, &d.notes, 1);
        proof {
            assert(d.notes.deep_view()[0] == d.notes@[0]@);
        }
    }
    out.append("],\n  \"todos\": [");
    if d.todos.len() > 0 {
        emit_todo(&mut out, &d.todos[0]);
        emit_todos_rest(&mut out, &d.todos, 1);
        proof {
            assert(d.todos.deep_view()[0] == d.todos@[0]@);
        }
    }
    out.append("],\n  \"last_daily_reset_date\": ");
    match &d.last_daily_reset_date {
        None => {
            out.append("null");
        },
        Some(s) => {
            emit_string(&mut out, s.as_str());
        },
    }
    out.append("\n}");
    proof {
        assert(out@ =~= enc_doc(d@));
    }
    out
}

// ---------------------------------------------------------------------
// Parsing specification
// ---------------------------------------------------------------------

/// Consumes a fixed literal from the front, or fails.
pub open spec fn p_lit(s: Seq<char>, lit: Seq<char>) -> Option<Seq<char>> {
    if lit.len() <= s.len() && s.take(lit.len() as int) == lit {
        Some(s.skip(lit.len() as int))
    } else {
        None
    }
}

/// Consumes a string body up to and including the closing quote, undoing
/// the escapes [`esc_char`] writes; raw control characters are rejected.
pub open spec fn p_strbody(s: Seq<char>) -> Option<(Seq<char>, Seq<char>)>
    decreases s.len(),
{
    if s.len() == 0 {
        None
    } else if s[0] == '"' {
        Some((Seq::empty(), s.skip(1)))
    } else if s[0] == '\\' {
        if s.len() < 2 {
            None
        } else if s[1] == '"' || s[1] == '\\' {
            match p_strbody(s.skip(2)) {
                None => None,
                Some(p) => Some((seq![s[1]] + p.0, p.1)),
            }
        } else if s[1] == 'u' {
            if s.len() < 6 {
                None
            } else {
                let v: int = hex_val(s[4]) * 16 + hex_val(s[5]);
                if s[2] == '0' && s[3] == '0' && hex_val(s[4]) >= 0 && hex_val(s[5]) >= 0 && v
                    < 32 {
                    match p_strbody(s.skip(6)) {
                        None => None,
                        Some(p) => Some((seq![ctl_char(v)] + p.0, p.1)),
                    }
                } else {
                    None
                }
            }
        } else {
            None
        }
    } else if (s[0] as u32) < 32 {
        None
    } else {
        match p_strbody(s.skip(1)) {
            None => None,
            Some(p) => Some((seq![s[0]] + p.0, p.1)),
        }
    }
}

/// Consumes a quoted JSON string.
pub open spec fn p_string(s: Seq<char>) -> Option<(Seq<char>, Seq<char>)> {
    if s.len() > 0 && s[0] == '"' {
        p_strbody(s.skip(1))
    } else {
        None
    }
}

/// Consumes a JSON boolean literal.
pub open spec fn p_bool(s: Seq<char>) -> Option<(bool, Seq<char>)> {
    match p_lit(s, "true"@) {
        Some(r) => Some((true, r)),
        None => match p_lit(s, "false"@) {
            Some(r) => Some((false, r)),
            None => None,
        },
    }
}

/// Consumes `null` or a string.
pub open spec fn p_opt_string(s: Seq<char>) -> Option<(Option<Seq<char>>, Seq<char>)> {
    match p_lit(s, "null"@) {
        Some(r) => Some((Option::<Seq<char>>::None, r)),
        None => match p_string(s) {
            Some(p) => Some((Some(p.0), p.1)),
            None => None,
        },
    }
}

/// Consumes `", <string>"` groups as long as a comma follows.
pub open spec fn p_strings_more(acc: Seq<Seq<char>>, s: Seq<char>) -> Option<
    (Seq<Seq<char>>, Seq<char>),
>
    decreases s.len(),
{
    if s.len() > 0 && s[0] == ',' {
        match p_lit(s, ", "@) {
            None => None,
            Some(r) => match p_string(r) {
                None => None,
                Some(p) => if p.1.len() < s.len() {
                    p_strings_more(acc.push(p.0), p.1)
                } else {
                    None
                },
            },
        }
    } else {
        Some((acc, s))
    }
}

/// Consumes the comma-separated contents of a string array (possibly none).
pub open spec fn p_strings(s: Seq<char>) -> Option<(Seq<Seq<char>>, Seq<char>)> {
    if s.len() > 0 && s[0] == '"' {
        match p_string(s) {
            None => None,
            Some(p) => p_strings_more(seq![p.0], p.1),
        }
    } else {
        Some((Seq::<Seq<char>>::empty(), s))
    }
}

/// Consumes a tag list: `null` or a bracketed string array.
pub open spec fn p_tags(s: Seq<char>) -> Option<(Option<Seq<Seq<char>>>, Seq<char>)> {
    match p_lit(s, "null"@) {
        Some(r) => Some((Option::<Seq<Seq<char>>>::None, r)),
        None => match p_lit(s, "["@) {
            None => None,
            Some(r) => match p_strings(r) {
                None => None,
                Some(p) => match p_lit(p.1, "]"@) {
                    None => None,
                    Some(r2) => Some((Some(p.0), r2)),
                },
            },
        },
    }
}

/// Consumes one note object.
#[verifier::opaque]
pub open spec fn p_note(s: Seq<char>) -> Option<(NoteV, Seq<char>)> {
    match p_lit(s, "{\"id\": "@) {
        None => None,
        Some(r1) => match p_string(r1) {
            None => None,
            Some(pid) => match p_lit(pid.1, ", \"title\": "@) {
                None => None,
                Some(r2) => match p_string(r2) {
                    None => None,
                    Some(pt) => match p_lit(pt.1, ", \"content\": "@) {
                        None => None,
                        Some(r3) => match p_string(r3) {
                            None => None,
                            Some(pc) => match p_lit(pc.1, ", \"tags\": "@) {
                                None => None,
                                Some(r4) => match p_tags(r4) {
                                    None => None,
                                    Some(pg) => match p_lit(pg.1, ", \"created_at\": "@) {
                                        None => None,
                                        Some(r5) => match p_string(r5) {
                                            None => None,
                                            Some(pcr) => match p_lit(pcr.1, ", \"updated_at\": "@) {
                                                None => None,
                                                Some(r6) => match p_string(r6) {
                                                    None => None,
                                                    Some(pu) => match p_lit(pu.1, "}"@) {
                                                        None => None,
                                                        Some(r7) => Some(
                                                            (
                                                                NoteV {
                                                                    id: pid.0,
                                                                    title: pt.0,
                                                                    content: pc.0,
                                                                    tags: pg.0,
                                                                    created_at: pcr.0,
                                                                    updated_at: pu.0,
                                                                },
                                                                r7,
                                                            ),
                                                        ),
                                                    },
                                                },
                                            },
                                        },
                                    },
                                },
                            },
                        },
                    },
                },
            },
        },
    }
}

/// Consumes `", <note>"` groups as long as a comma follows.
pub open spec fn p_notes_more(acc: Seq<NoteV>, s: Seq<char>) -> Option<(Seq<NoteV>, Seq<char>)>
    decreases s.len(),
{
    if s.len() > 0 && s[0] == ',' {
        match p_lit(s, ", "@) {
            None => None,
            Some(r) => match p_note(r) {
                None => None,
                Some(p) => if p.1.len() < s.len() {
                    p_notes_more(acc.push(p.0), p.1)
                } else {
                    None
                },
            },
        }
    } else {
        Some((acc, s))
    }
}

/// Consumes the comma-separated contents of the notes array.
pub open spec fn p_notes(s: Seq<char>) -> Option<(Seq<NoteV>, Seq<char>)> {
    if s.len() > 0 && s[0] == '{' {
        match p_note(s) {
            None => None,
            Some(p) => p_notes_more(seq![p.0], p.1),
        }
    } else {
        Some((Seq::<NoteV>::empty(), s))
    }
}

/// Consumes one todo object.
#[verifier::opaque]
pub open spec fn p_todo(s: Seq<char>) -> Option<(TodoV, Seq<char>)> {
    match p_lit(s, "{\"id\": "@) {
        None => None,
        Some(r1) => match p_string(r1) {
            None => None,
            Some(pid) => match p_lit(pid.1, ", \"task\": "@) {
                None => None,
                Some(r2) => match p_string(r2) {
                    None => None,
                    Some(pt) => match p_lit(pt.1, ", \"completed\": "@) {
                        None => None,
                        Some(r3) => match p_bool(r3) {
                            None => None,
                            Some(pc) => match p_lit(pc.1, ", \"is_daily\": "@) {
                                None => None,
                                Some(r4) => match p_bool(r4) {
                                    None => None,
                                    Some(pd) => match p_lit(pd.1, ", \"created_at\": "@) {
                                        None => None,
                                        Some(r5) => match p_string(r5) {
                                            None => None,
                                            Some(pcr) => match p_lit(pcr.1, "}"@) {
                                                None => None,
                                                Some(r6) => Some(
                                                    (
                                                        TodoV {
                                                            id: pid.0,
                                                            task: pt.0,
                                                            completed: pc.0,
                                                            is_daily: pd.0,
                                                            created_at: pcr.0,
                                                        },
                                                        r6,
                                                    ),
                                                ),
                                            },
                                        },
                                    },
                                },
                            },
                        },
                    },
                },
            },
        },
    }
}

/// Consumes `", <todo>"` groups as long as a comma follows.
pub open spec fn p_todos_more(acc: Seq<TodoV>, s: Seq<char>) -> Option<(Seq<TodoV>, Seq<char>)>
    decreases s.len(),
{
    if s.len() > 0 && s[0] == ',' {
        match p_lit(s, ", "@) {
            None => None,
            Some(r) => match p_todo(r) {
                None => None,
                Some(p) => if p.1.len() < s.len() {
                    p_todos_more(acc.push(p.0), p.1)
                } else {
                    None
                },
            },
        }
    } else {
        Some((acc, s))
    }
}

/// Consumes the comma-separated contents of the todos array.
pub open spec fn p_todos(s: Seq<char>) -> Option<(Seq<TodoV>, Seq<char>)> {
    if s.len() > 0 && s[0] == '{' {
        match p_todo(s) {
            None => None,
            Some(p) => p_todos_more(seq![p.0], p.1),
        }
    } else {
        Some((Seq::<TodoV>::empty(), s))
    }
}

/// Parses a whole document; the text must hold nothing after it.
pub open spec fn p_doc(s: Seq<char>) -> Option<DocumentV> {
    match p_lit(s, "{\n  \"notes\": ["@) {
        None => None,
        Some(r1) => match p_notes(r1) {
            None => None,
            Some(pn) => match p_lit(pn.1, "],\n  \"todos\": ["@) {
                None => None,
                Some(r2) => match p_todos(r2) {
                    None => None,
                    Some(pt) => match p_lit(pt.1, "],\n  \"last_daily_reset_date\": "@) {
                        None => None,
                        Some(r3) => match p_opt_string(r3) {
                            None => None,
                            Some(pd) => match p_lit(pd.1, "\n}"@) {
                                None => None,
                                Some(r4) => if r4.len() == 0 {
                                    Some(
                                        DocumentV {
                                            notes: pn.0,
                                            todos: pt.0,
                                            last_daily_reset_date: pd.0,
                                        },
                                    )
                                } else {
                                    None
                                },
                            },
                        },
                    },
                },
            },
        },
    }
}

// ---------------------------------------------------------------------
// Parsing inverts encoding
// ---------------------------------------------------------------------

/// A literal at the front is consumed exactly.
proof fn lemma_lit_rt(lit: Seq<char>, rest: Seq<char>)
    ensures
        p_lit(lit + rest, lit) == Some(rest),
{
    assert((lit + rest).take(lit.len() as int) =~= lit);
    assert((lit + rest).skip(lit.len() as int) =~= rest);
}

/// Reading a hexadecimal digit back gives the value it was written from.
proof fn lemma_hex_inv(v: int)
    requires
        0 <= v < 16,
    ensures
        hex_val(hex_lo_char(v)) == v,
{
}

/// The control character with a given value is the one character of that
/// value.
proof fn lemma_ctl_inv(c: char)
    requires
        (c as u32) < 32,
    ensures
        ctl_char((c as u32) as int) == c,
{
}

/// Decoding a string body undoes the escaping of any character sequence.
proof fn lemma_strbody_rt(s: Seq<char>, tail: Seq<char>)
    ensures
        p_strbody(esc_str(s) + seq!['"'] + tail) == Some((s, tail)),
    decreases s.len(),
{
    let w = esc_str(s) + seq!['"'] + tail;
    if s.len() == 0 {
        assert(w[0] == '"');
        assert(w.skip(1) =~= tail);
    } else {
        let c = s[0];
        let e = esc_char(c);
        let w2 = esc_str(s.skip(1)) + seq!['"'] + tail;
        lemma_strbody_rt(s.skip(1), tail);
        assert(w =~= e + w2);
        assert(w2.len() >= 1);
        if c == '"' {
            assert(w[0] == '\\' && w[1] == '"');
            assert(w.skip(2) =~= w2);
            assert(seq![w[1]] + s.skip(1) =~= s);
        } else if c == '\\' {
            assert(w[0] == '\\' && w[1] == '\\');
            assert(w.skip(2) =~= w2);
            assert(seq![w[1]] + s.skip(1) =~= s);
        } else if (c as u32) < 32 {
            let v: int = (c as u32) as int;
            assert(w[0] == '\\' && w[1] == 'u' && w[2] == '0' && w[3] == '0');
            assert(w[4] == (if v < 16 { '0' } else { '1' }));
            assert(w[5] == hex_lo_char(v % 16));
            lemma_hex_inv(v % 16);
            assert(hex_val(w[4]) == v / 16) by {
                if v < 16 {
                    assert(hex_val('0') == 0);
                } else {
                    assert(hex_val('1') == 1);
                }
            }
            assert(hex_val(w[4]) * 16 + hex_val(w[5]) == v);
            lemma_ctl_inv(c);
            assert(w.skip(6) =~= w2);
            assert(seq![ctl_char(v)] + s.skip(1) =~= s);
        } else {
            assert(w[0] == c);
            assert(w.skip(1) =~= w2);
            assert(seq![w[0]] + s.skip(1) =~= s);
        }
    }
}

/// Parsing a quoted string undoes [`enc_string`].
proof fn lemma_string_rt(s: Seq<char>, tail: Seq<char>)
    ensures
        p_string(enc_string(s) + tail) == Some((s, tail)),
        (enc_string(s) + tail)[0] == '"',
        (enc_string(s) + tail).len() >= 2 + tail.len(),
{
    let w = enc_string(s) + tail;
    assert(w[0] == '"');
    assert(w.skip(1) =~= esc_str(s) + seq!['"'] + tail);
    lemma_strbody_rt(s, tail);
}

/// Parsing a boolean undoes [`enc_bool`].
proof fn lemma_bool_rt(b: bool, tail: Seq<char>)
    ensures
        p_bool(enc_bool(b) + tail) == Some((b, tail)),
{
    reveal_strlit("true");
    reveal_strlit("false");
    let w = enc_bool(b) + tail;
    if b {
        lemma_lit_rt("true"@, tail);
    } else {
        if p_lit(w, "true"@) is Some {
            assert(w.take(4)[0] == 't');
            assert(w[0] == 'f');
        }
        lemma_lit_rt("false"@, tail);
    }
}

/// Parsing an optional string undoes [`enc_opt_string`].
proof fn lemma_opt_string_rt(o: Option<Seq<char>>, tail: Seq<char>)
    ensures
        p_opt_string(enc_opt_string(o) + tail) == Some((o, tail)),
{
    reveal_strlit("null");
    let w = enc_opt_string(o) + tail;
    match o {
        None => {
            lemma_lit_rt("null"@, tail);
        },
        Some(s) => {
            lemma_string_rt(s, tail);
            if p_lit(w, "null"@) is Some {
                assert(w.take(4)[0] == 'n');
                assert(w[0] == '"');
            }
        },
    }
}

/// Reading separated strings collects exactly the remaining items.
proof fn lemma_strings_more_rt(acc: Seq<Seq<char>>, items: Seq<Seq<char>>, tail: Seq<char>)
    requires
        tail.len() > 0,
        tail[0] != ',',
    ensures
        p_strings_more(acc, enc_strings_rest(items) + tail) == Some((acc + items, tail)),
    decreases items.len(),
{
    let w = enc_strings_rest(items) + tail;
    if items.len() == 0 {
        assert(w =~= tail);
        assert(acc + items =~= acc);
    } else {
        reveal_strlit(", ");
        let x1 = enc_string(items[0]) + (enc_strings_rest(items.skip(1)) + tail);
        assert(w =~= ", "@ + x1);
        lemma_lit_rt(", "@, x1);
        assert(w[0] == ',');
        lemma_string_rt(items[0], enc_strings_rest(items.skip(1)) + tail);
        assert(w.len() >= 2 + x1.len());
        assert(x1.len() >= 2 + (enc_strings_rest(items.skip(1)) + tail).len());
        lemma_strings_more_rt(acc.push(items[0]), items.skip(1), tail);
        assert(acc.push(items[0]) + items.skip(1) =~= acc + items);
    }
}

/// Parsing a tag list undoes [`enc_tags`].
#[verifier::rlimit(100)]
proof fn lemma_tags_rt(o: Option<Seq<Seq<char>>>, tail: Seq<char>)
    ensures
        p_tags(enc_tags(o) + tail) == Some((o, tail)),
{
    reveal_strlit("null");
    reveal_strlit("[");
    reveal_strlit("]");
    let w = enc_tags(o) + tail;
    match o {
        None => {
            lemma_lit_rt("null"@, tail);
        },
        Some(ts) => {
            if p_lit(w, "null"@) is Some {
                assert(w.take(4)[0] == 'n');
                assert(w[0] == '[');
            }
            if ts.len() == 0 {
                let x1 = "]"@ + tail;
                assert(w =~= "["@ + x1);
                lemma_lit_rt("["@, x1);
                assert(x1[0] == ']');
                lemma_lit_rt("]"@, tail);
                assert(p_strings(x1) == Some((Seq::<Seq<char>>::empty(), x1)));
                assert(ts =~= Seq::<Seq<char>>::empty());
            } else {
                let x2 = enc_strings_rest(ts.skip(1)) + ("]"@ + tail);
                let x1 = enc_string(ts[0]) + x2;
                assert(w =~= "["@ + x1);
                lemma_lit_rt("["@, x1);
                lemma_string_rt(ts[0], x2);
                assert(x1[0] == '"');
                assert(("]"@ + tail).len() > 0);
                assert(("]"@ + tail)[0] == ']');
                lemma_strings_more_rt(seq![ts[0]], ts.skip(1), "]"@ + tail);
                assert(seq![ts[0]] + ts.skip(1) =~= ts);
                lemma_lit_rt("]"@, tail);
            }
        },
    }
}

/// Parsing one note undoes [`enc_note`].
#[verifier::rlimit(80)]
proof fn lemma_note_rt(n: NoteV, tail: Seq<char>)
    ensures
        p_note(enc_note(n) + tail) == Some((n, tail)),
        (enc_note(n) + tail)[0] == '{',
        (enc_note(n) + tail).len() > tail.len(),
{
    reveal(enc_note);
    reveal(p_note);
    reveal_strlit("{\"id\": ");
    let w = enc_note(n) + tail;
    let x12 = tail;
    let x11 = "}"@ + x12;
    let x10 = enc_string(n.updated_at) + x11;
    let x9 = ", \"updated_at\": "@ + x10;
    let x8 = enc_string(n.created_at) + x9;
    let x7 = ", \"created_at\": "@ + x8;
    let x6 = enc_tags(n.tags) + x7;
    let x5 = ", \"tags\": "@ + x6;
    let x4 = enc_string(n.content) + x5;
    let x3 = ", \"content\": "@ + x4;
    let x2 = enc_string(n.title) + x3;
    let x1 = ", \"title\": "@ + x2;
    let x0 = enc_string(n.id) + x1;
    assert(w =~= "{\"id\": "@ + x0);
    lemma_lit_rt("{\"id\": "@, x0);
    lemma_string_rt(n.id, x1);
    lemma_lit_rt(", \"title\": "@, x2);
    lemma_string_rt(n.title, x3);
    lemma_lit_rt(", \"content\": "@, x4);
    lemma_string_rt(n.content, x5);
    lemma_lit_rt(", \"tags\": "@, x6);
    lemma_tags_rt(n.tags, x7);
    lemma_lit_rt(", \"created_at\": "@, x8);
    lemma_string_rt(n.created_at, x9);
    lemma_lit_rt(", \"updated_at\": "@, x10);
    lemma_string_rt(n.updated_at, x11);
    lemma_lit_rt("}"@, x12);
    assert(n == (NoteV {
        id: n.id,
        title: n.title,
        content: n.content,
        tags: n.tags,
        created_at: n.created_at,
        updated_at: n.updated_at,
    }));
    assert(w[0] == '{');
}

/// Reading separated notes collects exactly the remaining items.
#[verifier::rlimit(100)]
proof fn lemma_notes_more_rt(acc: Seq<NoteV>, items: Seq<NoteV>, tail: Seq<char>)
    requires
        tail.len() > 0,
        tail[0] != ',',
    ensures
        p_notes_more(acc, enc_notes_rest(items) + tail) == Some((acc + items, tail)),
    decreases items.len(),
{
    let w = enc_notes_rest(items) + tail;
    if items.len() == 0 {
        assert(w =~= tail);
        assert(acc + items =~= acc);
    } else {
        reveal_strlit(", ");
        let x1 = enc_note(items[0]) + (enc_notes_rest(items.skip(1)) + tail);
        assert(w =~= ", "@ + x1);
        lemma_lit_rt(", "@, x1);
        assert(w[0] == ',');
        lemma_note_rt(items[0], enc_notes_rest(items.skip(1)) + tail);
        assert(w.len() >= 2 + x1.len());
        lemma_notes_more_rt(acc.push(items[0]), items.skip(1), tail);
        assert(acc.push(items[0]) + items.skip(1) =~= acc + items);
    }
}

/// Parsing the notes array contents undoes [`enc_notes`].
#[verifier::rlimit(100)]
proof fn lemma_notes_rt(items: Seq<NoteV>, tail: Seq<char>)
    requires
        tail.len() > 0,
        tail[0] != ',',
        tail[0] != '{',
    ensures
        p_notes(enc_notes(items) + tail) == Some((items, tail)),
{
    let w = enc_notes(items) + tail;
    if items.len() == 0 {
        assert(w =~= tail);
        assert(Seq::<NoteV>::empty() =~= items);
    } else {
        let x1 = enc_notes_rest(items.skip(1)) + tail;
        assert(w =~= enc_note(items[0]) + x1);
        lemma_note_rt(items[0], x1);
        lemma_notes_more_rt(seq![items[0]], items.skip(1), tail);
        assert(seq![items[0]] + items.skip(1) =~= items);
    }
}

/// Parsing one todo undoes [`enc_todo`].
#[verifier::rlimit(100)]
proof fn lemma_todo_rt(t: TodoV, tail: Seq<char>)
    ensures
        p_todo(enc_todo(t) + tail) == Some((t, tail)),
        (enc_todo(t) + tail)[0] == '{',
        (enc_todo(t) + tail).len() > tail.len(),
{
    reveal(enc_todo);
    reveal(p_todo);
    reveal_strlit("{\"id\": ");
    let w = enc_todo(t) + tail;
    let x10 = tail;
    let x9 = "}"@ + x10;
    let x8 = enc_string(t.created_at) + x9;
    let x7 = ", \"created_at\": "@ + x8;
    let x6 = enc_bool(t.is_daily) + x7;
    let x5 = ", \"is_daily\": "@ + x6;
    let x4 = enc_bool(t.completed) + x5;
    let x3 = ", \"completed\": "@ + x4;
    let x2 = enc_string(t.task) + x3;
    let x1 = ", \"task\": "@ + x2;
    let x0 = enc_string(t.id) + x1;
    assert(w =~= "{\"id\": "@ + x0);
    lemma_lit_rt("{\"id\": "@, x0);
    lemma_string_rt(t.id, x1);
    lemma_lit_rt(", \"task\": "@, x2);
    lemma_string_rt(t.task, x3);
    lemma_lit_rt(", \"completed\": "@, x4);
    lemma_bool_rt(t.completed, x5);
    lemma_lit_rt(", \"is_daily\": "@, x6);
    lemma_bool_rt(t.is_daily, x7);
    lemma_lit_rt(", \"created_at\": "@, x8);
    lemma_string_rt(t.created_at, x9);
    lemma_lit_rt("}"@, x10);
    assert(t == (TodoV {
        id: t.id,
        task: t.task,
        completed: t.completed,
        is_daily: t.is_daily,
        created_at: t.created_at,
    }));
    assert(w[0] == '{');
    assert(enc_bool(t.completed).len() > 0) by {
        reveal_strlit("true");
        reveal_strlit("false");
    }
}

/// Reading separated todos collects exactly the remaining items.
#[verifier::rlimit(100)]
proof fn lemma_todos_more_rt(acc: Seq<TodoV>, items: Seq<TodoV>, tail: Seq<char>)
    requires
        tail.len() > 0,
        tail[0] != ',',
    ensures
        p_todos_more(acc, enc_todos_rest(items) + tail) == Some((acc + items, tail)),
    decreases items.len(),
{
    let w = enc_todos_rest(items) + tail;
    if items.len() == 0 {
        assert(w =~= tail);
        assert(acc + items =~= acc);
    } else {
        reveal_strlit(", ");
        let x1 = enc_todo(items[0]) + (enc_todos_rest(items.skip(1)) + tail);
        assert(w =~= ", "@ + x1);
        lemma_lit_rt(", "@, x1);
        assert(w[0] == ',');
        lemma_todo_rt(items[0], enc_todos_rest(items.skip(1)) + tail);
        assert(w.len() >= 2 + x1.len());
        lemma_todos_more_rt(acc.push(items[0]), items.skip(1), tail);
        assert(acc.push(items[0]) + items.skip(1) =~= acc + items);
    }
}

/// Parsing the todos array contents undoes [`enc_todos`].
#[verifier::rlimit(100)]
proof fn lemma_todos_rt(items: Seq<TodoV>, tail: Seq<char>)
    requires
        tail.len() > 0,
        tail[0] != ',',
        tail[0] != '{',
    ensures
        p_todos(enc_todos(items) + tail) == Some((items, tail)),
{
    let w = enc_todos(items) + tail;
    if items.len() == 0 {
        assert(w =~= tail);
        assert(Seq::<TodoV>::empty() =~= items);
    } else {
        let x1 = enc_todos_rest(items.skip(1)) + tail;
        assert(w =~= enc_todo(items[0]) + x1);
        lemma_todo_rt(items[0], x1);
        lemma_todos_more_rt(seq![items[0]], items.skip(1), tail);
        assert(seq![items[0]] + items.skip(1) =~= items);
    }
}

/// Round trip: parsing the encoded text of any document yields that
/// document back, field for field.
#[verifier::rlimit(80)]
pub proof fn lemma_codec_round_trip(d: DocumentV)
    ensures
        p_doc(enc_doc(d)) == Some(d),
{
    reveal_strlit("],\n  \"todos\": [");
    reveal_strlit("],\n  \"last_daily_reset_date\": ");
    reveal_strlit("\n}");
    let w = enc_doc(d);
    let x5 = "\n}"@;
    let x4 = enc_opt_string(d.last_daily_reset_date) + x5;
    let x3 = "],\n  \"last_daily_reset_date\": "@ + x4;
    let x2 = enc_todos(d.todos) + x3;
    let x1 = "],\n  \"todos\": ["@ + x2;
    let x0 = enc_notes(d.notes) + x1;
    assert(w =~= "{\n  \"notes\": ["@ + x0);
    lemma_lit_rt("{\n  \"notes\": ["@, x0);
    assert(x1.len() > 0 && x1[0] == ']');
    lemma_notes_rt(d.notes, x1);
    lemma_lit_rt("],\n  \"todos\": ["@, x2);
    assert(x3.len() > 0 && x3[0] == ']');
    lemma_todos_rt(d.todos, x3);
    lemma_lit_rt("],\n  \"last_daily_reset_date\": "@, x4);
    lemma_opt_string_rt(d.last_daily_reset_date, x5);
    lemma_lit_rt("\n}"@, Seq::<char>::empty());
    assert(x5 =~= "\n}"@ + Seq::<char>::empty());
    assert(d == (DocumentV {
        notes: d.notes,
        todos: d.todos,
        last_daily_reset_date: d.last_daily_reset_date,
    }));
}

// ---------------------------------------------------------------------
// Executable parser
// ---------------------------------------------------------------------

/// The characters of a string, one by one.
fn str_to_chars(s: &str) -> (r: Vec<char>)
    ensures
        r@ == s@,
{
    let n = s.unicode_len();
    let mut out: Vec<char> = Vec::new();
    let mut i: usize = 0;
    while i < n
        invariant
            i <= n,
            n == s@.len(),
            out@ =~= s@.take(i as int),
        decreases n - i,
    {
        out.push(s.get_char(i));
        i = i + 1;
        proof {
            assert(out@ =~= s@.take(i as int));
        }
    }
    proof {
        assert(s@.take(n as int) =~= s@);
    }
    out
}

/// A string starting with the given character and continuing with the
/// other string.
fn cons_char(c: char, rest: &str) -> (r: String)
    ensures
        r@ == seq![c] + rest@,
{
    let mut out = String::new();
    push_char(&mut out, c);
    out.append(rest);
    proof {
        assert(out@ =~= seq![c] + rest@);
    }
    out
}

/// Consumes the given literal at position `i`, exactly as [`p_lit`].
fn x_lit(v: &Vec<char>, i: usize, lit: &str) -> (r: Option<usize>)
    requires
        i <= v@.len(),
    ensures
        match r {
            Some(j) => i <= j <= v@.len() && p_lit(v@.skip(i as int), lit@) == Some(
                v@.skip(j as int),
            ),
            None => p_lit(v@.skip(i as int), lit@) is None,
        },
{
    let ghost s = v@.skip(i as int);
    let n = lit.unicode_len();
    let vn = v.len();
    if vn - i < n {
        proof {
            assert(s.len() < lit@.len());
        }
        return None;
    }
    let mut k: usize = 0;
    while k < n
        invariant
            k <= n,
            n == lit@.len(),
            vn == v@.len(),
            i + n <= vn,
            s == v@.skip(i as int),
            forall|m: int| 0 <= m < k ==> s[m] == lit@[m],
        decreases n - k,
    {
        if v[i + k] != lit.get_char(k) {
            proof {
                assert(s[k as int] == v@[i + k]);
                if p_lit(s, lit@) is Some {
                    assert(s.take(n as int)[k as int] == lit@[k as int]);
                }
            }
            return None;
        }
        proof {
            assert(s[k as int] == v@[i + k]);
        }
        k = k + 1;
    }
    proof {
        assert(s.take(n as int) =~= lit@);
        assert(s.skip(n as int) =~= v@.skip(i + n));
    }
    Some(i + n)
}

/// The value of one hexadecimal digit, or -1, exactly [`hex_val`].
fn hex_val_exec(c: char) -> (r: i32)
    ensures
        r as int == hex_val(c),
{
    if c == '0' { 0 } else if c == '1' { 1 } else if c == '2' { 2 } else if c == '3' { 3 }
    else if c == '4' { 4 } else if c == '5' { 5 } else if c == '6' { 6 } else if c == '7' { 7 }
    else if c == '8' { 8 } else if c == '9' { 9 } else if c == 'a' { 10 } else if c == 'b' { 11 }
    else if c == 'c' { 12 } else if c == 'd' { 13 } else if c == 'e' { 14 } else if c == 'f' { 15 }
    else { -1 }
}

/// The control character of a value below 32, exactly [`ctl_char`].
fn ctl_char_exec(v: u32) -> (r: char)
    requires
        v < 32,
    ensures
        r == ctl_char(v as int),
{
    if v == 0 { '\u{0}' } else if v == 1 { '\u{1}' } else if v == 2 { '\u{2}' }
    else if v == 3 { '\u{3}' } else if v == 4 { '\u{4}' } else if v == 5 { '\u{5}' }
    else if v == 6 { '\u{6}' } else if v == 7 { '\u{7}' } else if v == 8 { '\u{8}' }
    else if v == 9 { '\u{9}' } else if v == 10 { '\u{a}' } else if v == 11 { '\u{b}' }
    else if v == 12 { '\u{c}' } else if v == 13 { '\u{d}' } else if v == 14 { '\u{e}' }
    else if v == 15 { '\u{f}' } else if v == 16 { '\u{10}' } else if v == 17 { '\u{11}' }
    else if v == 18 { '\u{12}' } else if v == 19 { '\u{13}' } else if v == 20 { '\u{14}' }
    else if v == 21 { '\u{15}' } else if v == 22 { '\u{16}' } else if v == 23 { '\u{17}' }
    else if v == 24 { '\u{18}' } else if v == 25 { '\u{19}' } else if v == 26 { '\u{1a}' }
    else if v == 27 { '\u{1b}' } else if v == 28 { '\u{1c}' } else if v == 29 { '\u{1d}' }
    else if v == 30 { '\u{1e}' } else { '\u{1f}' }
}

/// Consumes a string body from position `i`, exactly as [`p_strbody`].
fn x_strbody(v: &Vec<char>, i: usize) -> (r: Option<(String, usize)>)
    requires
        i <= v@.len(),
    ensures
        match r {
            Some(p) => i < p.1 <= v@.len() && p_strbody(v@.skip(i as int)) == Some(
                (p.0@, v@.skip(p.1 as int)),
            ),
            None => p_strbody(v@.skip(i as int)) is None,
        },
    decreases v@.len() - i,
{
    let ghost s = v@.skip(i as int);
    if i >= v.len() {
        return None;
    }
    let c = v[i];
    proof {
        assert(s[0] == c);
    }
    if c == '"' {
        let out = String::new();
        proof {
            assert(s.skip(1) =~= v@.skip(i + 1));
        }
        return Some((out, i + 1));
    }
    if c == '\\' {
        if v.len() - i < 2 {
            return None;
        }
        let e = v[i + 1];
        proof {
            assert(s[1] == e);
        }
        if e == '"' || e == '\\' {
            proof {
                assert(s.skip(2) =~= v@.skip(i + 2));
            }
            match x_strbody(v, i + 2) {
                None => {
                    return None;
                },
                Some(p) => {
                    let out = cons_char(e, p.0.as_str());
                    return Some((out, p.1));
                },
            }
        }
        if e == 'u' {
            if v.len() - i < 6 {
                proof {
                    assert(s.len() < 6);
                }
                return None;
            }
            let c2 = v[i + 2];
            let c3 = v[i + 3];
            let hv = hex_val_exec(v[i + 4]);
            let lv = hex_val_exec(v[i + 5]);
            proof {
                assert(s[2] == v@[i + 2]);
                assert(s[3] == v@[i + 3]);
                assert(s[4] == v@[i + 4]);
                assert(s[5] == v@[i + 5]);
            }
            let val: i32 = hv * 16 + lv;
            if c2 == '0' && c3 == '0' && hv >= 0 && lv >= 0 && val < 32 {
                proof {
                    assert(s.skip(6) =~= v@.skip(i + 6));
                }
                match x_strbody(v, i + 6) {
                    None => {
                        return None;
                    },
                    Some(p) => {
                        let decoded = ctl_char_exec(val as u32);
                        let out = cons_char(decoded, p.0.as_str());
                        return Some((out, p.1));
                    },
                }
            }
            return None;
        }
        return None;
    }
    if (c as u32) < 32 {
        return None;
    }
    proof {
        assert(s.skip(1) =~= v@.skip(i + 1));
    }
    match x_strbody(v, i + 1) {
        None => None,
        Some(p) => {
            let out = cons_char(c, p.0.as_str());
            Some((out, p.1))
        },
    }
}

/// Consumes a quoted string from position `i`, exactly as [`p_string`].
fn x_string(v: &Vec<char>, i: usize) -> (r: Option<(String, usize)>)
    requires
        i <= v@.len(),
    ensures
        match r {
            Some(p) => i + 1 < p.1 <= v@.len() && p_string(v@.skip(i as int)) == Some(
                (p.0@, v@.skip(p.1 as int)),
            ),
            None => p_string(v@.skip(i as int)) is None,
        },
{
    let ghost s = v@.skip(i as int);
    if i >= v.len() {
        return None;
    }
    if v[i] != '"' {
        proof {
            assert(s[0] == v@[i as int]);
        }
        return None;
    }
    proof {
        assert(s[0] == '"');
        assert(s.skip(1) =~= v@.skip(i + 1));
    }
    x_strbody(v, i + 1)
}

/// Consumes a boolean from position `i`, exactly as [`p_bool`].
fn x_bool(v: &Vec<char>, i: usize) -> (r: Option<(bool, usize)>)
    requires
        i <= v@.len(),
    ensures
        match r {
            Some(p) => i <= p.1 <= v@.len() && p_bool(v@.skip(i as int)) == Some(
                (p.0, v@.skip(p.1 as int)),
            ),
            None => p_bool(v@.skip(i as int)) is None,
        },
{
    match x_lit(v, i, "true") {
        Some(j) => Some((true, j)),
        None => match x_lit(v, i, "false") {
            Some(j) => Some((false, j)),
            None => None,
        },
    }
}

/// Consumes `null` or a string, exactly as [`p_opt_string`].
fn x_opt_string(v: &Vec<char>, i: usize) -> (r: Option<(Option<String>, usize)>)
    requires
        i <= v@.len(),
    ensures
        match r {
            Some(p) => i <= p.1 <= v@.len() && p_opt_string(v@.skip(i as int)) == Some(
                (p.0.deep_view(), v@.skip(p.1 as int)),
            ),
            None => p_opt_string(v@.skip(i as int)) is None,
        },
{
    match x_lit(v, i, "null") {
        Some(j) => Some((None, j)),
        None => match x_string(v, i) {
            Some(p) => Some((Some(p.0), p.1)),
            None => None,
        },
    }
}

/// Consumes further `", <string>"` groups, exactly as [`p_strings_more`].
fn x_strings_more(acc: Vec<String>, v: &Vec<char>, i: usize) -> (r: Option<(Vec<String>, usize)>)
    requires
        i <= v@.len(),
    ensures
        match r {
            Some(p) => i <= p.1 <= v@.len() && p_strings_more(acc.deep_view(), v@.skip(i as int))
                == Some((p.0.deep_view(), v@.skip(p.1 as int))),
            None => p_strings_more(acc.deep_view(), v@.skip(i as int)) is None,
        },
    decreases v@.len() - i,
{
    let ghost s = v@.skip(i as int);
    if i < v.len() && v[i] == ',' {
        proof {
            assert(s[0] == ',');
        }
        match x_lit(v, i, ", ") {
            None => {
                return None;
            },
            Some(j) => {
                match x_string(v, j) {
                    None => {
                        return None;
                    },
                    Some(p) => {
                        proof {
                            assert(v@.skip(p.1 as int).len() < s.len());
                        }
                        let mut acc2 = acc;
                        let ghost accv = acc2.deep_view();
                        acc2.push(p.0);
                        proof {
                            assert(acc2.deep_view() =~= accv.push(p.0@));
                        }
                        x_strings_more(acc2, v, p.1)
                    },
                }
            },
        }
    } else {
        proof {
            if s.len() > 0 {
                assert(s[0] == v@[i as int]);
            }
        }
        Some((acc, i))
    }
}

/// Consumes the contents of a string array, exactly as [`p_strings`].
fn x_strings(v: &Vec<char>, i: usize) -> (r: Option<(Vec<String>, usize)>)
    requires
        i <= v@.len(),
    ensures
        match r {
            Some(p) => i <= p.1 <= v@.len() && p_strings(v@.skip(i as int)) == Some(
                (p.0.deep_view(), v@.skip(p.1 as int)),
            ),
            None => p_strings(v@.skip(i as int)) is None,
        },
{
    let ghost s = v@.skip(i as int);
    if i < v.len() && v[i] == '"' {
        proof {
            assert(s[0] == '"');
        }
        match x_string(v, i) {
            None => None,
            Some(p) => {
                let mut acc: Vec<String> = Vec::new();
                acc.push(p.0);
                proof {
                    assert(acc.deep_view() =~= seq![acc@[0]@]);
                }
                x_strings_more(acc, v, p.1)
            },
        }
    } else {
        proof {
            if s.len() > 0 {
                assert(s[0] == v@[i as int]);
            }
        }
        let empty_acc: Vec<String> = Vec::new();
        proof {
            assert(empty_acc.deep_view() =~= Seq::<Seq<char>>::empty());
        }
        Some((empty_acc, i))
    }
}

/// Consumes a tag list, exactly as [`p_tags`].
fn x_tags(v: &Vec<char>, i: usize) -> (r: Option<(Option<Vec<String>>, usize)>)
    requires
        i <= v@.len(),
    ensures
        match r {
            Some(p) => i <= p.1 <= v@.len() && p_tags(v@.skip(i as int)) == Some(
                (p.0.deep_view(), v@.skip(p.1 as int)),
            ),
            None => p_tags(v@.skip(i as int)) is None,
        },
{
    match x_lit(v, i, "null") {
        Some(j) => Some((None, j)),
        None => match x_lit(v, i, "[") {
            None => None,
            Some(j) => match x_strings(v, j) {
                None => None,
                Some(p) => match x_lit(v, p.1, "]") {
                    None => None,
                    Some(j2) => Some((Some(p.0), j2)),
                },
            },
        },
    }
}

/// Consumes one note object, exactly as [`p_note`].
#[verifier::rlimit(80)]
fn x_note(v: &Vec<char>, i: usize) -> (r: Option<(Note, usize)>)
    requires
        i <= v@.len(),
    ensures
        match r {
            Some(p) => i < p.1 <= v@.len() && p_note(v@.skip(i as int)) == Some(
                (p.0@, v@.skip(p.1 as int)),
            ),
            None => p_note(v@.skip(i as int)) is None,
        },
{
    proof {
        reveal(p_note);
    }
    let j1 = match x_lit(v, i, "{\"id\": ") {
        Some(j) => j,
        None => {
            return None;
        },
    };
    let (id, j2) = match x_string(v, j1) {
        Some(p) => p,
        None => {
            return None;
        },
    };
    let j3 = match x_lit(v, j2, ", \"title\": ") {
        Some(j) => j,
        None => {
            return None;
        },
    };
    let (title, j4) = match x_string(v, j3) {
        Some(p) => p,
        None => {
            return None;
        },
    };
    let j5 = match x_lit(v, j4, ", \"content\": ") {
        Some(j) => j,
        None => {
            return None;
        },
    };
    let (content, j6) = match x_string(v, j5) {
        Some(p) => p,
        None => {
            return None;
        },
    };
    let j7 = match x_lit(v, j6, ", \"tags\": ") {
        Some(j) => j,
        None => {
            return None;
        },
    };
    let (tags, j8) = match x_tags(v, j7) {
        Some(p) => p,
        None => {
            return None;
        },
    };
    let j9 = match x_lit(v, j8, ", \"created_at\": ") {
        Some(j) => j,
        None => {
            return None;
        },
    };
    let (created_at, j10) = match x_string(v, j9) {
        Some(p) => p,
        None => {
            return None;
        },
    };
    let j11 = match x_lit(v, j10, ", \"updated_at\": ") {
        Some(j) => j,
        None => {
            return None;
        },
    };
    let (updated_at, j12) = match x_string(v, j11) {
        Some(p) => p,
        None => {
            return None;
        },
    };
    let j13 = match x_lit(v, j12, "}") {
        Some(j) => j,
        None => {
            return None;
        },
    };
    let note = Note { id, title, content, tags, created_at, updated_at };
    Some((note, j13))
}

/// Consumes further `", <note>"` groups, exactly as [`p_notes_more`].
fn x_notes_more(acc: Vec<Note>, v: &Vec<char>, i: usize) -> (r: Option<(Vec<Note>, usize)>)
    requires
        i <= v@.len(),
    ensures
        match r {
            Some(p) => i <= p.1 <= v@.len() && p_notes_more(acc.deep_view(), v@.skip(i as int))
                == Some((p.0.deep_view(), v@.skip(p.1 as int))),
            None => p_notes_more(acc.deep_view(), v@.skip(i as int)) is None,
        },
    decreases v@.len() - i,
{
    let ghost s = v@.skip(i as int);
    if i < v.len() && v[i] == ',' {
        proof {
            assert(s[0] == ',');
        }
        match x_lit(v, i, ", ") {
            None => {
                return None;
            },
            Some(j) => {
                match x_note(v, j) {
                    None => {
                        return None;
                    },
                    Some(p) => {
                        proof {
                            assert(v@.skip(p.1 as int).len() < s.len());
                        }
                        let mut acc2 = acc;
                        let ghost accv = acc2.deep_view();
                        acc2.push(p.0);
                        proof {
                            assert(acc2.deep_view() =~= accv.push(acc2@[accv.len() as int]@));
                        }
                        x_notes_more(acc2, v, p.1)
                    },
                }
            },
        }
    } else {
        proof {
            if s.len() > 0 {
                assert(s[0] == v@[i as int]);
            }
        }
        Some((acc, i))
    }
}

/// Consumes the contents of the notes array, exactly as [`p_notes`].
fn x_notes(v: &Vec<char>, i: usize) -> (r: Option<(Vec<Note>, usize)>)
    requires
        i <= v@.len(),
    ensures
        match r {
            Some(p) => i <= p.1 <= v@.len() && p_notes(v@.skip(i as int)) == Some(
                (p.0.deep_view(), v@.skip(p.1 as int)),
            ),
            None => p_notes(v@.skip(i as int)) is None,
        },
{
    let ghost s = v@.skip(i as int);
    if i < v.len() && v[i] == '{' {
        proof {
            assert(s[0] == '{');
        }
        match x_note(v, i) {
            None => None,
            Some(p) => {
                let mut acc: Vec<Note> = Vec::new();
                let ghost nv = p.0@;
                acc.push(p.0);
                proof {
                    assert(acc.deep_view() =~= seq![nv]);
                }
                x_notes_more(acc, v, p.1)
            },
        }
    } else {
        proof {
            if s.len() > 0 {
                assert(s[0] == v@[i as int]);
            }
        }
        let empty_acc: Vec<Note> = Vec::new();
        proof {
            assert(empty_acc.deep_view() =~= Seq::<NoteV>::empty());
        }
        Some((empty_acc, i))
    }
}

/// Consumes one todo object, exactly as [`p_todo`].
#[verifier::rlimit(80)]
fn x_todo(v: &Vec<char>, i: usize) -> (r: Option<(Todo, usize)>)
    requires
        i <= v@.len(),
    ensures
        match r {
            Some(p) => i < p.1 <= v@.len() && p_todo(v@.skip(i as int)) == Some(
                (p.0@, v@.skip(p.1 as int)),
            ),
            None => p_todo(v@.skip(i as int)) is None,
        },
{
    proof {
        reveal(p_todo);
    }
    let j1 = match x_lit(v, i, "{\"id\": ") {
        Some(j) => j,
        None => {
            return None;
        },
    };
    let (id, j2) = match x_string(v, j1) {
        Some(p) => p,
        None => {
            return None;
        },
    };
    let j3 = match x_lit(v, j2, ", \"task\": ") {
        Some(j) => j,
        None => {
            return None;
        },
    };
    let (task, j4) = match x_string(v, j3) {
        Some(p) => p,
        None => {
            return None;
        },
    };
    let j5 = match x_lit(v, j4, ", \"completed\": ") {
        Some(j) => j,
        None => {
            return None;
        },
    };
    let (completed, j6) = match x_bool(v, j5) {
        Some(p) => p,
        None => {
            return None;
        },
    };
    let j7 = match x_lit(v, j6, ", \"is_daily\": ") {
        Some(j) => j,
        None => {
            return None;
        },
    };
    let (is_daily, j8) = match x_bool(v, j7) {
        Some(p) => p,
        None => {
            return None;
        },
    };
    let j9 = match x_lit(v, j8, ", \"created_at\": ") {
        Some(j) => j,
        None => {
            return None;
        },
    };
    let (created_at, j10) = match x_string(v, j9) {
        Some(p) => p,
        None => {
            return None;
        },
    };
    let j11 = match x_lit(v, j10, "}") {
        Some(j) => j,
        None => {
            return None;
        },
    };
    let todo = Todo { id, task, completed, is_daily, created_at };
    Some((todo, j11))
}

/// Consumes further `", <todo>"` groups, exactly as [`p_todos_more`].
fn x_todos_more(acc: Vec<Todo>, v: &Vec<char>, i: usize) -> (r: Option<(Vec<Todo>, usize)>)
    requires
        i <= v@.len(),
    ensures
        match r {
            Some(p) => i <= p.1 <= v@.len() && p_todos_more(acc.deep_view(), v@.skip(i as int))
                == Some((p.0.deep_view(), v@.skip(p.1 as int))),
            None => p_todos_more(acc.deep_view(), v@.skip(i as int)) is None,
        },
    decreases v@.len() - i,
{
    let ghost s = v@.skip(i as int);
    if i < v.len() && v[i] == ',' {
        proof {
            assert(s[0] == ',');
        }
        match x_lit(v, i, ", ") {
            None => {
                return None;
            },
            Some(j) => {
                match x_todo(v, j) {
                    None => {
                        return None;
                    },
                    Some(p) => {
                        proof {
                            assert(v@.skip(p.1 as int).len() < s.len());
                        }
                        let mut acc2 = acc;
                        let ghost accv = acc2.deep_view();
                        acc2.push(p.0);
                        proof {
                            assert(acc2.deep_view() =~= accv.push(acc2@[accv.len() as int]@));
                        }
                        x_todos_more(acc2, v, p.1)
                    },
                }
            },
        }
    } else {
        proof {
            if s.len() > 0 {
                assert(s[0] == v@[i as int]);
            }
        }
        Some((acc, i))
    }
}

/// Consumes the contents of the todos array, exactly as [`p_todos`].
fn x_todos(v: &Vec<char>, i: usize) -> (r: Option<(Vec<Todo>, usize)>)
    requires
        i <= v@.len(),
    ensures
        match r {
            Some(p) => i <= p.1 <= v@.len() && p_todos(v@.skip(i as int)) == Some(
                (p.0.deep_view(), v@.skip(p.1 as int)),
            ),
            None => p_todos(v@.skip(i as int)) is None,
        },
{
    let ghost s = v@.skip(i as int);
    if i < v.len() && v[i] == '{' {
        proof {
            assert(s[0] == '{');
        }
        match x_todo(v, i) {
            None => None,
            Some(p) => {
                let mut acc: Vec<Todo> = Vec::new();
                let ghost tv = p.0@;
                acc.push(p.0);
                proof {
                    assert(acc.deep_view() =~= seq![tv]);
                }
                x_todos_more(acc, v, p.1)
            },
        }
    } else {
        proof {
            if s.len() > 0 {
                assert(s[0] == v@[i as int]);
            }
        }
        let empty_acc: Vec<Todo> = Vec::new();
        proof {
            assert(empty_acc.deep_view() =~= Seq::<TodoV>::empty());
        }
        Some((empty_acc, i))
    }
}

/// Parses the whole text as one document, exactly as [`p_doc`].
pub fn parse_document(s: &str) -> (r: Option<Document>)
    ensures
        match r {
            Some(d) => p_doc(s@) == Some(d@),
            None => p_doc(s@) is None,
        },
{
    let v = str_to_chars(s);
    proof {
        assert(v@.skip(0) =~= s@);
    }
    let j1 = match x_lit(&v, 0, "{\n  \"notes\": [") {
        Some(j) => j,
        None => {
            return None;
        },
    };
    let (notes, j2) = match x_notes(&v, j1) {
        Some(p) => p,
        None => {
            return None;
        },
    };
    let j3 = match x_lit(&v, j2, "],\n  \"todos\": [") {
        Some(j) => j,
        None => {
            return None;
        },
    };
    let (todos, j4) = match x_todos(&v, j3) {
        Some(p) => p,
        None => {
            return None;
        },
    };
    let j5 = match x_lit(&v, j4, "],\n  \"last_daily_reset_date\": ") {
        Some(j) => j,
        None => {
            return None;
        },
    };
    let (date, j6) = match x_opt_string(&v, j5) {
        Some(p) => p,
        None => {
            return None;
        },
    };
    let j7 = match x_lit(&v, j6, "\n}") {
        Some(j) => j,
        None => {
            return None;
        },
    };
    if j7 != v.len() {
        proof {
            assert(v@.skip(j7 as int).len() > 0);
        }
        return None;
    }
    let doc = Document { notes, todos, last_daily_reset_date: date };
    proof {
        assert(v@.skip(j7 as int).len() == 0);
        assert(doc@ =~= p_doc(s@).unwrap());
    }
    Some(doc)
}

/// The stored document when the file held this text: what it parses to, or
/// the empty document when it cannot be read. Malformed state is never an
/// error.
pub fn decode_document_or_default(s: &str) -> (r: Document)
    ensures
        p_doc(s@) matches Some(dv) ==> r@ == dv,
        p_doc(s@) is None ==> r@ == empty_document(),
{
    match parse_document(s) {
        Some(d) => d,
        None => Document::new_empty(),
    }
}

/// The document to start from given what could be read from disk: no file
/// at all yields the empty document, unreadable text likewise, and only a
/// well-formed file yields its contents.
pub fn load_from_content(content: Option<&str>) -> (r: Document)
    ensures
        match content {
            None => r@ == empty_document(),
            Some(s) => (p_doc(s@) matches Some(dv) ==> r@ == dv) && (p_doc(s@) is None ==> r@
                == empty_document()),
        },
{
    match content {
        None => Document::new_empty(),
        Some(s) => decode_document_or_default(s),
    }
}

} // verus!
