//! The daily reset rule: when "today" is later than the stored last-reset
//! date (or no date was ever stored), every daily todo is marked not
//! completed and today is stamped as the new last-reset date.
//!
//! Dates are fixed-width `YYYY-MM-DD` strings, so calendar order and
//! lexicographic order agree; the comparison here is lexicographic, exactly
//! as stored.

use vstd::prelude::*;
use crate::data::{Document, DocumentV, Todo, TodoV};

verus! {

/// Strict lexicographic order on character sequences, by code point.
pub open spec fn lex_lt(a: Seq<char>, b: Seq<char>) -> bool
    decreases a.len(),
{
    if b.len() == 0 {
        false
    } else if a.len() == 0 {
        true
    } else if a[0] != b[0] {
        (a[0] as u32) < (b[0] as u32)
    } else {
        lex_lt(a.skip(1), b.skip(1))
    }
}

/// Lexicographic comparison of two strings, character by character.
pub fn str_lt(a: &str, b: &str) -> (r: bool)
    ensures
        r == lex_lt(a@, b@),
{
    let na: usize = a.unicode_len();
    let nb: usize = b.unicode_len();
    let mut i: usize = 0;
    proof {
        assert(a@.skip(0) =~= a@);
        assert(b@.skip(0) =~= b@);
    }
    loop
        invariant
            i <= na,
            i <= nb,
            na == a@.len(),
            nb == b@.len(),
            lex_lt(a@, b@) == lex_lt(a@.skip(i as int), b@.skip(i as int)),
        decreases na - i,
    {
        if i >= nb {
            return false;
        }
        if i >= na {
            return true;
        }
        let ca = a.get_char(i);
        let cb = b.get_char(i);
        if ca != cb {
            return (ca as u32) < (cb as u32);
        }
        proof {
            assert(a@.skip(i as int).skip(1) =~= a@.skip(i + 1));
            assert(b@.skip(i as int).skip(1) =~= b@.skip(i + 1));
        }
        i = i + 1;
    }
}

/// Whether a reset cycle is due: no reset ever recorded, or today strictly
/// after the recorded date.
pub open spec fn needs_reset(d: DocumentV, today: Seq<char>) -> bool {
    match d.last_daily_reset_date {
        None => true,
        Some(last) => lex_lt(last, today),
    }
}

/// One todo after a reset pass: daily todos lose their completed flag,
/// everything else is untouched.
pub open spec fn reset_todo(t: TodoV) -> TodoV {
    TodoV {
        id: t.id,
        task: t.task,
        completed: if t.is_daily { false } else { t.completed },
        is_daily: t.is_daily,
        created_at: t.created_at,
    }
}

/// The todo list after a reset pass.
pub open spec fn reset_todos(ts: Seq<TodoV>) -> Seq<TodoV> {
    ts.map_values(|t: TodoV| reset_todo(t))
}

/// Whether a reset pass would actually change some todo.
pub open spec fn any_daily_completed(ts: Seq<TodoV>) -> bool {
    exists|i: int| 0 <= i < ts.len() && (#[trigger] ts[i]).is_daily && ts[i].completed
}

/// The document after a reset cycle with the given date, and whether any
/// todo actually changed. When no cycle is due, nothing changes and the
/// report is `false`; a due cycle always stamps the date, even when every
/// daily todo was already incomplete.
pub open spec fn apply_reset_spec(d: DocumentV, today: Seq<char>) -> (DocumentV, bool) {
    if needs_reset(d, today) {
        (
            DocumentV {
                notes: d.notes,
                todos: reset_todos(d.todos),
                last_daily_reset_date: Some(today),
            },
            any_daily_completed(d.todos),
        )
    } else {
        (d, false)
    }
}

/// Runs one reset check against the given current date. Returns whether a
/// cycle was due (the document must then be persisted) and whether any
/// todo's completed flag actually changed, exactly as [`apply_reset_spec`]
/// says.
pub fn apply_daily_reset(doc: &mut Document, today: &str) -> (r: (bool, bool))
    ensures
        final(doc)@ == apply_reset_spec(old(doc)@, today@).0,
        r.1 == apply_reset_spec(old(doc)@, today@).1,
        r.0 == needs_reset(old(doc)@, today@),
        !r.0 ==> final(doc)@ == old(doc)@,
{
    let due = match &doc.last_daily_reset_date {
        None => true,
        Some(last) => str_lt(last.as_str(), today),
    };
    if !due {
        return (false, false);
    }
    let ghost pre = doc@;
    let mut modified = false;
    let mut i: usize = 0;
    while i < doc.todos.len()
        invariant
            i <= doc.todos.len(),
            doc.notes == old(doc).notes,
            doc.last_daily_reset_date == old(doc).last_daily_reset_date,
            doc.todos@.len() == pre.todos.len(),
            pre == old(doc)@,
            forall|k: int| i <= k < pre.todos.len() ==> doc.todos.deep_view()[k] == pre.todos[k],
            forall|k: int|
                0 <= k < i ==> doc.todos.deep_view()[k] == reset_todo(#[trigger] pre.todos[k]),
            modified == any_daily_completed(pre.todos.take(i as int)),
        decreases doc.todos.len() - i,
    {
        proof {
            assert(doc.todos.deep_view()[i as int] == doc.todos@[i as int]@);
        }
        if doc.todos[i].is_daily && doc.todos[i].completed {
            doc.todos[i].completed = false;
            modified = true;
            proof {
                assert(pre.todos.take(i + 1)[i as int] == pre.todos[i as int]);
                assert(any_daily_completed(pre.todos.take(i + 1)));
            }
        } else {
            proof {
                if any_daily_completed(pre.todos.take(i + 1)) {
                    let j = choose|j: int|
                        0 <= j < i + 1 && (#[trigger] pre.todos.take(i + 1)[j]).is_daily
                            && pre.todos.take(i + 1)[j].completed;
                    if j < i {
                        assert(any_daily_completed(pre.todos.take(i as int)));
                    }
                }
            }
        }
        i = i + 1;
    }
    doc.last_daily_reset_date = Some(today.to_owned());
    proof {
        assert(pre.todos.take(pre.todos.len() as int) =~= pre.todos);
        assert(doc.todos.deep_view() =~= reset_todos(pre.todos));
        assert(doc@ =~= apply_reset_spec(pre, today@).0);
    }
    (true, modified)
}

/// After a due cycle the stamped date is today, so a second cycle on the
/// same day is never due: it changes nothing and reports `false`.
pub proof fn lemma_reset_same_day_noop(d: DocumentV, today: Seq<char>)
    ensures
        apply_reset_spec(apply_reset_spec(d, today).0, today) == (
        apply_reset_spec(d, today).0,
        false,
        ),
{
    let d1 = apply_reset_spec(d, today).0;
    if needs_reset(d, today) {
        lemma_lex_lt_irrefl(today);
        assert(!needs_reset(d1, today));
    } else {
        lemma_not_needed_twice(d, today);
    }
}

proof fn lemma_not_needed_twice(d: DocumentV, today: Seq<char>)
    requires
        !needs_reset(d, today),
    ensures
        apply_reset_spec(d, today) == (d, false),
{
}

/// Lexicographic order is irreflexive.
pub proof fn lemma_lex_lt_irrefl(s: Seq<char>)
    ensures
        !lex_lt(s, s),
    decreases s.len(),
{
    if s.len() > 0 {
        lemma_lex_lt_irrefl(s.skip(1));
    }
}

/// A due cycle uncompletes every daily todo and leaves the rest alone:
/// stated over the specification a reset run is proved against.
pub proof fn lemma_reset_clears_daily(d: DocumentV, today: Seq<char>)
    requires
        needs_reset(d, today),
    ensures
        apply_reset_spec(d, today).0.last_daily_reset_date == Some(today),
        apply_reset_spec(d, today).0.todos.len() == d.todos.len(),
        forall|i: int|
            0 <= i < d.todos.len() && (#[trigger] d.todos[i]).is_daily ==> !apply_reset_spec(
                d,
                today,
            ).0.todos[i].completed,
        forall|i: int|
            0 <= i < d.todos.len() && !(#[trigger] d.todos[i]).is_daily ==> apply_reset_spec(
                d,
                today,
            ).0.todos[i] == d.todos[i],
        apply_reset_spec(d, today).1 == any_daily_completed(d.todos),
{
}

} // verus!
