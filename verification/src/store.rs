//! The application store: every operation the command surface exposes,
//! as verified mutations of one [`Document`].
//!
//! The shell around this crate holds the one live `Store` behind a mutex,
//! calls one operation per request, and persists the document (with the
//! codec) whenever an operation reports a change. Fresh ids and the current
//! time come from `uuid` and `chrono` through trusted wrappers; every
//! contract here holds for every value those calls may return.

use vstd::prelude::*;
use crate::data::{Document, DocumentV, Note, NoteV, Todo, TodoV};
use crate::tags::{normalize_opt_spec, normalize_tags};
use crate::reset::{apply_daily_reset, apply_reset_spec, needs_reset};

verus! {

/// Returned by operations that address one record by id when no record
/// carries that id.
pub struct NotFoundError;

/// Relies on `uuid::Uuid::new_v4` and its `Display` form: a freshly drawn
/// random version-4 UUID, rendered in the hyphenated format. The value is
/// random, so nothing is promised of it; uniqueness of ids is probabilistic
/// only and no contract rests on it.
#[verifier::external_body]
fn fresh_id() -> String {
    uuid::Uuid::new_v4().to_string()
}

/// Relies on `chrono::Utc::now` and `DateTime::to_rfc3339`: the current UTC
/// instant as an RFC 3339 string. The value depends on the clock, so
/// nothing is promised of it.
#[verifier::external_body]
fn now_rfc3339() -> String {
    chrono::Utc::now().to_rfc3339()
}

/// Relies on `chrono::Utc::now` and chrono's `%Y-%m-%d` formatting: the
/// current UTC calendar date as a zero-padded `YYYY-MM-DD` string. The
/// value depends on the clock, so nothing is promised of it.
#[verifier::external_body]
fn today_ymd() -> String {
    chrono::Utc::now().format("%Y-%m-%d").to_string()
}

/// The filter a note-deletion applies: keep notes whose id differs.
pub open spec fn note_keep(id: Seq<char>) -> spec_fn(NoteV) -> bool {
    |n: NoteV| n.id != id
}

/// The filter a todo-deletion applies: keep todos whose id differs.
pub open spec fn todo_keep(id: Seq<char>) -> spec_fn(TodoV) -> bool {
    |t: TodoV| t.id != id
}

/// Whether some note carries this id.
pub open spec fn has_note(notes: Seq<NoteV>, id: Seq<char>) -> bool {
    exists|j: int| 0 <= j < notes.len() && (#[trigger] notes[j]).id == id
}

/// Whether some todo carries this id.
pub open spec fn has_todo(todos: Seq<TodoV>, id: Seq<char>) -> bool {
    exists|j: int| 0 <= j < todos.len() && (#[trigger] todos[j]).id == id
}

/// `j` is the position of the first note carrying `id`.
pub open spec fn first_note_match(notes: Seq<NoteV>, id: Seq<char>, j: int) -> bool {
    &&& 0 <= j < notes.len()
    &&& notes[j].id == id
    &&& forall|k: int| 0 <= k < j ==> (#[trigger] notes[k]).id != id
}

/// `j` is the position of the first todo carrying `id`.
pub open spec fn first_todo_match(todos: Seq<TodoV>, id: Seq<char>, j: int) -> bool {
    &&& 0 <= j < todos.len()
    &&& todos[j].id == id
    &&& forall|k: int| 0 <= k < j ==> (#[trigger] todos[k]).id != id
}

/// How a freshly added note relates to its inputs: appended at the end,
/// title and content as given, tags normalized, and both timestamps stamped
/// to the same instant. The id and the timestamp value itself are chosen by
/// the store and not pinned here.
pub open spec fn add_note_post(
    pre: DocumentV,
    post: DocumentV,
    title: Seq<char>,
    content: Seq<char>,
    tags: Option<Seq<Seq<char>>>,
) -> bool {
    &&& post.todos == pre.todos
    &&& post.last_daily_reset_date == pre.last_daily_reset_date
    &&& post.notes.len() == pre.notes.len() + 1
    &&& post.notes.drop_last() == pre.notes
    &&& post.notes.last().title == title
    &&& post.notes.last().content == content
    &&& post.notes.last().tags == normalize_opt_spec(tags)
    &&& post.notes.last().created_at == post.notes.last().updated_at
}

/// How an updated note relates to its inputs: the first note carrying the
/// id keeps its id and creation time, takes the given title, content and
/// normalized tags, and gets a fresh update timestamp; nothing else moves.
pub open spec fn update_note_post(
    pre: DocumentV,
    post: DocumentV,
    id: Seq<char>,
    title: Seq<char>,
    content: Seq<char>,
    tags: Option<Seq<Seq<char>>>,
) -> bool {
    &&& post.todos == pre.todos
    &&& post.last_daily_reset_date == pre.last_daily_reset_date
    &&& exists|j: int, ts: Seq<char>|
        first_note_match(pre.notes, id, j) && post.notes == pre.notes.update(
            j,
            (NoteV {
                id: pre.notes[j].id,
                title: title,
                content: content,
                tags: normalize_opt_spec(tags),
                created_at: pre.notes[j].created_at,
                updated_at: ts,
            }),
        )
}

/// One todo with its completed flag flipped.
pub open spec fn flip_todo(t: TodoV) -> TodoV {
    TodoV {
        id: t.id,
        task: t.task,
        completed: !t.completed,
        is_daily: t.is_daily,
        created_at: t.created_at,
    }
}

/// How a toggled document relates to the one before: the first todo
/// carrying the id has its completed flag flipped; nothing else moves.
pub open spec fn toggle_post(pre: DocumentV, post: DocumentV, id: Seq<char>) -> bool {
    &&& post.notes == pre.notes
    &&& post.last_daily_reset_date == pre.last_daily_reset_date
    &&& exists|j: int|
        first_todo_match(pre.todos, id, j) && post.todos == pre.todos.update(
            j,
            flip_todo(pre.todos[j]),
        )
}

/// How a freshly added todo relates to its inputs.
pub open spec fn add_todo_post(
    pre: DocumentV,
    post: DocumentV,
    task: Seq<char>,
    is_daily: bool,
) -> bool {
    &&& post.notes == pre.notes
    &&& post.last_daily_reset_date == pre.last_daily_reset_date
    &&& post.todos.len() == pre.todos.len() + 1
    &&& post.todos.drop_last() == pre.todos
    &&& post.todos.last().task == task
    &&& post.todos.last().completed == false
    &&& post.todos.last().is_daily == is_daily
}

/// Whether some note carries the tag `t`.
pub open spec fn doc_has_tag(notes: Seq<NoteV>, t: Seq<char>) -> bool {
    exists|i: int|
        0 <= i < notes.len() && match (#[trigger] notes[i]).tags {
            Some(ts) => ts.contains(t),
            None => false,
        }
}

/// The in-memory document. The shell keeps one instance behind a mutex and
/// persists it after every operation that reports a change.
pub struct Store {
    pub doc: Document,
}

impl View for Store {
    type V = DocumentV;

    open spec fn view(&self) -> DocumentV {
        self.doc@
    }
}

impl Store {
    /// Wraps a document, typically the one the codec loaded from disk.
    pub fn new(doc: Document) -> (r: Store)
        ensures
            r@ == doc@,
    {
        Store { doc }
    }

    /// Appends a new note with a fresh id, normalized tags and both
    /// timestamps stamped to the same instant. The document always changes,
    /// so the caller must persist it.
    pub fn add_note(&mut self, title: String, content: String, tags: Option<Vec<String>>)
        ensures
            add_note_post(old(self)@, final(self)@, title@, content@, tags.deep_view()),
    {
        let ghost pre = self.doc@;
        let now = now_rfc3339();
        let normalized = match &tags {
            None => None,
            Some(v) => Some(normalize_tags(v)),
        };
        let note = Note {
            id: fresh_id(),
            title,
            content,
            tags: normalized,
            created_at: now.clone(),
            updated_at: now,
        };
        let ghost nv = note@;
        self.doc.notes.push(note);
        proof {
            assert(self.doc@.notes =~= pre.notes.push(nv));
            assert(self.doc@.notes.drop_last() =~= pre.notes);
            assert(self.doc@ =~= (DocumentV {
                notes: self.doc@.notes,
                todos: pre.todos,
                last_daily_reset_date: pre.last_daily_reset_date,
            }));
        }
    }

    /// A full snapshot copy of the notes; the store is untouched.
    pub fn get_notes(&self) -> (r: Vec<Note>)
        ensures
            r.deep_view() == self@.notes,
    {
        let mut out: Vec<Note> = Vec::new();
        let mut i: usize = 0;
        while i < self.doc.notes.len()
            invariant
                i <= self.doc.notes.len(),
                out.deep_view() =~= self.doc.notes.deep_view().subrange(0, i as int),
            decreases self.doc.notes.len() - i,
        {
            let ghost before = out.deep_view();
            out.push(self.doc.notes[i].clone());
            proof {
                assert(out@.len() == before.len() + 1);
                assert forall|kk: int| 0 <= kk < out@.len() implies out.deep_view()[kk]
                    == self.doc.notes.deep_view().subrange(0, i + 1)[kk] by {
                    if kk < before.len() {
                        assert(out.deep_view()[kk] == before[kk]);
                    } else {
                        assert(out@[kk]@ == self.doc.notes@[i as int]@);
                    }
                }
                assert(out.deep_view() =~= self.doc.notes.deep_view().subrange(0, i + 1));
            }
            i = i + 1;
        }
        proof {
            assert(self.doc.notes.deep_view().subrange(0, self.doc.notes@.len() as int)
                =~= self.doc.notes.deep_view());
        }
        out
    }

    /// A full snapshot copy of the todos; the store is untouched.
    pub fn get_todos(&self) -> (r: Vec<Todo>)
        ensures
            r.deep_view() == self@.todos,
    {
        let mut out: Vec<Todo> = Vec::new();
        let mut i: usize = 0;
        while i < self.doc.todos.len()
            invariant
                i <= self.doc.todos.len(),
                out.deep_view() =~= self.doc.todos.deep_view().subrange(0, i as int),
            decreases self.doc.todos.len() - i,
        {
            let ghost before = out.deep_view();
            out.push(self.doc.todos[i].clone());
            proof {
                assert(out@.len() == before.len() + 1);
                assert forall|kk: int| 0 <= kk < out@.len() implies out.deep_view()[kk]
                    == self.doc.todos.deep_view().subrange(0, i + 1)[kk] by {
                    if kk < before.len() {
                        assert(out.deep_view()[kk] == before[kk]);
                    } else {
                        assert(out@[kk]@ == self.doc.todos@[i as int]@);
                    }
                }
                assert(out.deep_view() =~= self.doc.todos.deep_view().subrange(0, i + 1));
            }
            i = i + 1;
        }
        proof {
            assert(self.doc.todos.deep_view().subrange(0, self.doc.todos@.len() as int)
                =~= self.doc.todos.deep_view());
        }
        out
    }

    /// Replaces title, content and tags of the first note carrying `id` and
    /// refreshes its update timestamp; errs, changing nothing, when no note
    /// carries it. On success the caller must persist the document.
    pub fn update_note(
        &mut self,
        id: &String,
        title: String,
        content: String,
        tags: Option<Vec<String>>,
    ) -> (r: Result<(), NotFoundError>)
        ensures
            r is Ok <==> has_note(old(self)@.notes, id@),
            r is Err ==> final(self)@ == old(self)@,
            r is Ok ==> update_note_post(
                old(self)@,
                final(self)@,
                id@,
                title@,
                content@,
                tags.deep_view(),
            ),
    {
        let ghost pre = self.doc@;
        let n = self.doc.notes.len();
        let mut j: usize = 0;
        while j < n && !string_eq(&self.doc.notes[j].id, id)
            invariant
                n == self.doc.notes@.len(),
                j <= n,
                self.doc == old(self).doc,
                pre == old(self)@,
                forall|k: int| 0 <= k < j ==> (#[trigger] pre.notes[k]).id != id@,
            decreases n - j,
        {
            proof {
                assert(pre.notes[j as int] == self.doc.notes@[j as int]@);
            }
            j = j + 1;
        }
        if j == n {
            proof {
                assert(!has_note(pre.notes, id@));
            }
            return Err(NotFoundError);
        }
        proof {
            assert(pre.notes[j as int] == self.doc.notes@[j as int]@);
            assert(first_note_match(pre.notes, id@, j as int));
        }
        let now = now_rfc3339();
        let normalized = match &tags {
            None => None,
            Some(v) => Some(normalize_tags(v)),
        };
        let ghost ts = now@;
        self.doc.notes[j].title = title;
        self.doc.notes[j].content = content;
        self.doc.notes[j].tags = normalized;
        self.doc.notes[j].updated_at = now;
        proof {
            let jj = j as int;
            let target = NoteV {
                id: pre.notes[jj].id,
                title: title@,
                content: content@,
                tags: normalize_opt_spec(tags.deep_view()),
                created_at: pre.notes[jj].created_at,
                updated_at: ts,
            };
            assert(self.doc@.notes =~= pre.notes.update(jj, target));
            assert(self.doc@ =~= (DocumentV {
                notes: self.doc@.notes,
                todos: pre.todos,
                last_daily_reset_date: pre.last_daily_reset_date,
            }));
        }
        Ok(())
    }

    /// Removes every note carrying `id` (expected: at most one). Returns
    /// whether anything was removed; when nothing was, the document is
    /// unchanged and the caller must not persist it.
    pub fn delete_note(&mut self, id: &String) -> (changed: bool)
        ensures
            final(self)@.todos == old(self)@.todos,
            final(self)@.last_daily_reset_date == old(self)@.last_daily_reset_date,
            final(self)@.notes == old(self)@.notes.filter(note_keep(id@)),
            changed == has_note(old(self)@.notes, id@),
            !changed ==> final(self)@ == old(self)@,
    {
        let ghost pre = self.doc@;
        let mut out: Vec<Note> = Vec::new();
        let mut removed = false;
        let mut i: usize = 0;
        proof {
            reveal(Seq::filter);
        }
        while i < self.doc.notes.len()
            invariant
                i <= self.doc.notes.len(),
                self.doc == old(self).doc,
                pre == old(self)@,
                out.deep_view() == pre.notes.take(i as int).filter(note_keep(id@)),
                removed == has_note(pre.notes.take(i as int), id@),
            decreases self.doc.notes.len() - i,
        {
            let ghost prefix = pre.notes.take(i as int);
            let ghost next = pre.notes.take(i + 1);
            proof {
                reveal(Seq::filter);
                assert(pre.notes[i as int] == self.doc.notes@[i as int]@);
                assert(next.drop_last() =~= prefix);
                assert(next.last() == pre.notes[i as int]);
            }
            let keep = !string_eq(&self.doc.notes[i].id, id);
            if keep {
                let ghost before = out.deep_view();
                out.push(self.doc.notes[i].clone());
                proof {
                    assert(out.deep_view() =~= before.push(pre.notes[i as int]));
                }
            } else {
                removed = true;
            }
            proof {
                if has_note(next, id@) {
                    let w = choose|w: int| 0 <= w < next.len() && (#[trigger] next[w]).id == id@;
                    if w < i {
                        assert(prefix[w].id == id@);
                        assert(has_note(prefix, id@));
                    }
                }
                if has_note(prefix, id@) {
                    let w = choose|w: int|
                        0 <= w < prefix.len() && (#[trigger] prefix[w]).id == id@;
                    assert(next[w].id == id@);
                    assert(has_note(next, id@));
                }
            }
            i = i + 1;
        }
        proof {
            assert(pre.notes.take(pre.notes.len() as int) =~= pre.notes);
        }
        self.doc.notes = out;
        proof {
            if !removed {
                lemma_filter_no_match_note(pre.notes, id@);
                assert(self.doc@ =~= pre);
            } else {
                assert(self.doc@.notes == pre.notes.filter(note_keep(id@)));
            }
        }
        removed
    }

    /// Removes every todo carrying `id`, with the same no-op-when-absent
    /// behaviour as [`Store::delete_note`].
    pub fn delete_todo(&mut self, id: &String) -> (changed: bool)
        ensures
            final(self)@.notes == old(self)@.notes,
            final(self)@.last_daily_reset_date == old(self)@.last_daily_reset_date,
            final(self)@.todos == old(self)@.todos.filter(todo_keep(id@)),
            changed == has_todo(old(self)@.todos, id@),
            !changed ==> final(self)@ == old(self)@,
    {
        let ghost pre = self.doc@;
        let mut out: Vec<Todo> = Vec::new();
        let mut removed = false;
        let mut i: usize = 0;
        while i < self.doc.todos.len()
            invariant
                i <= self.doc.todos.len(),
                self.doc == old(self).doc,
                pre == old(self)@,
                out.deep_view() == pre.todos.take(i as int).filter(todo_keep(id@)),
                removed == has_todo(pre.todos.take(i as int), id@),
            decreases self.doc.todos.len() - i,
        {
            let ghost prefix = pre.todos.take(i as int);
            let ghost next = pre.todos.take(i + 1);
            proof {
                reveal(Seq::filter);
                assert(pre.todos[i as int] == self.doc.todos@[i as int]@);
                assert(next.drop_last() =~= prefix);
                assert(next.last() == pre.todos[i as int]);
            }
            let keep = !string_eq(&self.doc.todos[i].id, id);
            if keep {
                let ghost before = out.deep_view();
                out.push(self.doc.todos[i].clone());
                proof {
                    assert(out.deep_view() =~= before.push(pre.todos[i as int]));
                }
            } else {
                removed = true;
            }
            proof {
                if has_todo(next, id@) {
                    let w = choose|w: int| 0 <= w < next.len() && (#[trigger] next[w]).id == id@;
                    if w < i {
                        assert(prefix[w].id == id@);
                        assert(has_todo(prefix, id@));
                    }
                }
                if has_todo(prefix, id@) {
                    let w = choose|w: int|
                        0 <= w < prefix.len() && (#[trigger] prefix[w]).id == id@;
                    assert(next[w].id == id@);
                    assert(has_todo(next, id@));
                }
            }
            i = i + 1;
        }
        proof {
            assert(pre.todos.take(pre.todos.len() as int) =~= pre.todos);
        }
        self.doc.todos = out;
        proof {
            if !removed {
                lemma_filter_no_match_todo(pre.todos, id@);
                assert(self.doc@ =~= pre);
            } else {
                assert(self.doc@.todos == pre.todos.filter(todo_keep(id@)));
            }
        }
        removed
    }

    /// Every distinct tag appearing on any note, without duplicates; the
    /// order is unspecified.
    pub fn get_all_tags(&self) -> (r: Vec<String>)
        ensures
            forall|t: Seq<char>| r.deep_view().contains(t) <==> doc_has_tag(self@.notes, t),
            r.deep_view().no_duplicates(),
    {
        let ghost notes = self@.notes;
        let mut out: Vec<String> = Vec::new();
        let mut i: usize = 0;
        while i < self.doc.notes.len()
            invariant
                i <= self.doc.notes.len(),
                notes == self@.notes,
                notes.len() == self.doc.notes@.len(),
                forall|t: Seq<char>|
                    out.deep_view().contains(t) <==> doc_has_tag(notes.take(i as int), t),
                out.deep_view().no_duplicates(),
            decreases self.doc.notes.len() - i,
        {
            proof {
                assert(notes[i as int] == self.doc.notes@[i as int]@);
            }
            match &self.doc.notes[i].tags {
                None => {
                    proof {
                        lemma_tag_take_step(notes, i as int, Seq::empty(), 0);
                    }
                },
                Some(ts) => {
                    let ghost tseq = ts.deep_view();
                    let mut k: usize = 0;
                    while k < ts.len()
                        invariant
                            k <= ts.len(),
                            tseq == ts.deep_view(),
                            tseq.len() == ts@.len(),
                            notes == self@.notes,
                            i < notes.len(),
                            notes[i as int].tags == Some(tseq),
                            forall|t: Seq<char>|
                                out.deep_view().contains(t) <==> (doc_has_tag(
                                    notes.take(i as int),
                                    t,
                                ) || tseq.take(k as int).contains(t)),
                            out.deep_view().no_duplicates(),
                        decreases ts.len() - k,
                    {
                        proof {
                            assert(tseq[k as int] == ts@[k as int]@);
                        }
                        let present = contains_string(&out, &ts[k]);
                        let ghost before = out.deep_view();
                        if !present {
                            out.push(ts[k].clone());
                            proof {
                                assert(out.deep_view() =~= before.push(tseq[k as int]));
                            }
                        }
                        proof {
                            let tk = tseq[k as int];
                            assert(tseq.take(k + 1).drop_last() =~= tseq.take(k as int));
                            assert(tseq.take(k + 1).last() == tk);
                            assert forall|t: Seq<char>| out.deep_view().contains(t) <==> (
                            doc_has_tag(notes.take(i as int), t) || tseq.take(k + 1).contains(
                                t,
                            )) by {
                                if t == tk {
                                    assert(tseq.take(k + 1)[k as int] == tk);
                                    assert(tseq.take(k + 1).contains(tk));
                                    if !present {
                                        assert(out.deep_view()[before.len() as int] == tk);
                                        assert(out.deep_view().contains(tk));
                                    } else {
                                        assert(before.contains(tk));
                                    }
                                } else {
                                    if tseq.take(k + 1).contains(t) {
                                        let w = choose|w: int|
                                            0 <= w < tseq.take(k + 1).len() && #[trigger] tseq.take(
                                                k + 1,
                                            )[w] == t;
                                        assert(tseq.take(k as int)[w] == t);
                                        assert(tseq.take(k as int).contains(t));
                                    }
                                    if tseq.take(k as int).contains(t) {
                                        let w = choose|w: int|
                                            0 <= w < tseq.take(k as int).len() && #[trigger] tseq.take(
                                                k as int,
                                            )[w] == t;
                                        assert(tseq.take(k + 1)[w] == t);
                                    }
                                    if before.contains(t) {
                                        let w = choose|w: int|
                                            0 <= w < before.len() && #[trigger] before[w] == t;
                                        assert(out.deep_view()[w] == t);
                                        assert(out.deep_view().contains(t));
                                    }
                                    if out.deep_view().contains(t) {
                                        let w = choose|w: int|
                                            0 <= w < out.deep_view().len()
                                                && #[trigger] out.deep_view()[w] == t;
                                        if w < before.len() {
                                            assert(before[w] == t);
                                            assert(before.contains(t));
                                        } else {
                                            assert(out.deep_view()[w] == tk);
                                        }
                                    }
                                }
                            }
                        }
                        k = k + 1;
                    }
                    proof {
                        assert(tseq.take(tseq.len() as int) =~= tseq);
                        lemma_tag_take_step(notes, i as int, tseq, 1);
                    }
                },
            }
            i = i + 1;
        }
        proof {
            assert(notes.take(notes.len() as int) =~= notes);
        }
        out
    }

    /// Appends a new todo with a fresh id, not yet completed. The document
    /// always changes, so the caller must persist it.
    pub fn add_todo(&mut self, task: String, is_daily: bool)
        ensures
            add_todo_post(old(self)@, final(self)@, task@, is_daily),
    {
        let ghost pre = self.doc@;
        let todo = Todo {
            id: fresh_id(),
            task,
            completed: false,
            is_daily,
            created_at: now_rfc3339(),
        };
        let ghost tv = todo@;
        self.doc.todos.push(todo);
        proof {
            assert(self.doc@.todos =~= pre.todos.push(tv));
            assert(self.doc@.todos.drop_last() =~= pre.todos);
            assert(self.doc@ =~= (DocumentV {
                notes: pre.notes,
                todos: self.doc@.todos,
                last_daily_reset_date: pre.last_daily_reset_date,
            }));
        }
    }

    /// Flips the completed flag of the first todo carrying `id`; errs,
    /// changing nothing, when no todo carries it. On success the caller
    /// must persist the document.
    pub fn toggle_todo_status(&mut self, id: &String) -> (r: Result<(), NotFoundError>)
        ensures
            r is Ok <==> has_todo(old(self)@.todos, id@),
            r is Err ==> final(self)@ == old(self)@,
            r is Ok ==> toggle_post(old(self)@, final(self)@, id@),
    {
        let ghost pre = self.doc@;
        let n = self.doc.todos.len();
        let mut j: usize = 0;
        while j < n && !string_eq(&self.doc.todos[j].id, id)
            invariant
                n == self.doc.todos@.len(),
                j <= n,
                self.doc == old(self).doc,
                pre == old(self)@,
                forall|k: int| 0 <= k < j ==> (#[trigger] pre.todos[k]).id != id@,
            decreases n - j,
        {
            proof {
                assert(pre.todos[j as int] == self.doc.todos@[j as int]@);
            }
            j = j + 1;
        }
        if j == n {
            proof {
                assert(!has_todo(pre.todos, id@));
            }
            return Err(NotFoundError);
        }
        proof {
            assert(pre.todos[j as int] == self.doc.todos@[j as int]@);
            assert(first_todo_match(pre.todos, id@, j as int));
        }
        let flipped = !self.doc.todos[j].completed;
        self.doc.todos[j].completed = flipped;
        proof {
            let jj = j as int;
            assert(self.doc@.todos =~= pre.todos.update(jj, flip_todo(pre.todos[jj])));
            assert(self.doc@ =~= (DocumentV {
                notes: pre.notes,
                todos: self.doc@.todos,
                last_daily_reset_date: pre.last_daily_reset_date,
            }));
        }
        Ok(())
    }

    /// Runs the daily reset check against today's UTC date. Returns whether
    /// a cycle was due (the caller must then persist the document) and
    /// whether any todo's completed flag actually changed. Whatever date
    /// the clock supplies, the change is exactly a reset cycle for it.
    pub fn check_and_reset_daily_todos(&mut self) -> (r: (bool, bool))
        ensures
            exists|today: Seq<char>|
                {
                    &&& final(self)@ == apply_reset_spec(old(self)@, today).0
                    &&& r.1 == apply_reset_spec(old(self)@, today).1
                    &&& r.0 == needs_reset(old(self)@, today)
                },
            !r.0 ==> final(self)@ == old(self)@ && !r.1,
    {
        let today = today_ymd();
        let r = apply_daily_reset(&mut self.doc, today.as_str());
        proof {
            let t = today@;
            assert({
                &&& self@ == apply_reset_spec(old(self)@, t).0
                &&& r.1 == apply_reset_spec(old(self)@, t).1
                &&& r.0 == needs_reset(old(self)@, t)
            });
        }
        r
    }
}

/// A note added to an empty document is the one note the store then shows:
/// it carries the given title and content, the normalized tags, and equal
/// creation and update timestamps.
pub proof fn lemma_added_note_visible(
    pre: DocumentV,
    post: DocumentV,
    title: Seq<char>,
    content: Seq<char>,
    tags: Option<Seq<Seq<char>>>,
)
    requires
        pre.notes.len() == 0,
        add_note_post(pre, post, title, content, tags),
    ensures
        post.notes.len() == 1,
        post.notes[0].title == title,
        post.notes[0].content == content,
        post.notes[0].tags == normalize_opt_spec(tags),
        post.notes[0].created_at == post.notes[0].updated_at,
{
    assert(post.notes[0] == post.notes.last());
}

/// Toggling the same id twice restores the document: the completed flag of
/// the addressed todo is flipped exactly once per call.
pub proof fn lemma_toggle_twice(d1: DocumentV, d2: DocumentV, d3: DocumentV, id: Seq<char>)
    requires
        toggle_post(d1, d2, id),
        toggle_post(d2, d3, id),
    ensures
        d3 == d1,
{
    let j1 = choose|j: int|
        first_todo_match(d1.todos, id, j) && d2.todos == d1.todos.update(
            j,
            flip_todo(d1.todos[j]),
        );
    let j2 = choose|j: int|
        first_todo_match(d2.todos, id, j) && d3.todos == d2.todos.update(
            j,
            flip_todo(d2.todos[j]),
        );
    assert(d2.todos.len() == d1.todos.len());
    assert(forall|k: int|
        0 <= k < d1.todos.len() ==> (#[trigger] d2.todos[k]).id == d1.todos[k].id);
    if j2 < j1 {
        assert(d1.todos[j2].id != id);
        assert(d2.todos[j2].id == id);
    }
    if j1 < j2 {
        assert(d2.todos[j1].id != id);
        assert(d1.todos[j1].id == id);
    }
    assert(j1 == j2);
    assert(d2.todos[j1] == flip_todo(d1.todos[j1]));
    assert(flip_todo(flip_todo(d1.todos[j1])) == d1.todos[j1]);
    assert(d3.todos =~= d1.todos);
    assert(d3 =~= d1);
}

/// String equality, exactly view equality.
fn string_eq(a: &String, b: &String) -> (r: bool)
    ensures
        r == (a@ == b@),
{
    a.eq(b)
}

/// Whether the vector holds a string with this view.
fn contains_string(v: &Vec<String>, s: &String) -> (r: bool)
    ensures
        r == v.deep_view().contains(s@),
{
    let mut i: usize = 0;
    while i < v.len()
        invariant
            i <= v.len(),
            forall|k: int| 0 <= k < i ==> v.deep_view()[k] != s@,
        decreases v.len() - i,
    {
        if string_eq(&v[i], s) {
            proof {
                assert(v.deep_view()[i as int] == s@);
            }
            return true;
        }
        proof {
            assert(v.deep_view()[i as int] == v@[i as int]@);
        }
        i = i + 1;
    }
    proof {
        if v.deep_view().contains(s@) {
            let w = choose|w: int| 0 <= w < v.deep_view().len() && v.deep_view()[w] == s@;
            assert(v.deep_view()[w] != s@);
        }
    }
    false
}

/// Extending the processed prefix by one note extends the reachable tags by
/// that note's tags (`mode` 0: the note has none; 1: it has `tseq`).
proof fn lemma_tag_take_step(notes: Seq<NoteV>, i: int, tseq: Seq<Seq<char>>, mode: int)
    requires
        0 <= i < notes.len(),
        mode == 0 ==> notes[i].tags is None,
        mode == 1 ==> notes[i].tags == Some(tseq),
        mode == 0 || mode == 1,
    ensures
        forall|t: Seq<char>|
            doc_has_tag(notes.take(i + 1), t) <==> (doc_has_tag(notes.take(i), t) || (mode == 1
                && tseq.contains(t))),
{
    assert forall|t: Seq<char>|
        doc_has_tag(notes.take(i + 1), t) <==> (doc_has_tag(notes.take(i), t) || (mode == 1
            && tseq.contains(t))) by {
        if doc_has_tag(notes.take(i + 1), t) {
            let w = choose|w: int|
                0 <= w < notes.take(i + 1).len() && match (#[trigger] notes.take(i + 1)[w]).tags {
                    Some(ts) => ts.contains(t),
                    None => false,
                };
            assert(notes.take(i + 1)[w] == notes[w]);
            if w < i {
                assert(notes.take(i)[w] == notes[w]);
                assert(doc_has_tag(notes.take(i), t));
            }
        }
        if doc_has_tag(notes.take(i), t) {
            let w = choose|w: int|
                0 <= w < notes.take(i).len() && match (#[trigger] notes.take(i)[w]).tags {
                    Some(ts) => ts.contains(t),
                    None => false,
                };
            assert(notes.take(i + 1)[w] == notes[w]);
            assert(doc_has_tag(notes.take(i + 1), t));
        }
        if mode == 1 && tseq.contains(t) {
            assert(notes.take(i + 1)[i] == notes[i]);
            assert(doc_has_tag(notes.take(i + 1), t));
        }
    }
}

/// Filtering by an id that never occurs keeps every note.
proof fn lemma_filter_no_match_note(notes: Seq<NoteV>, id: Seq<char>)
    requires
        !has_note(notes, id),
    ensures
        notes.filter(note_keep(id)) == notes,
    decreases notes.len(),
{
    reveal(Seq::filter);
    if notes.len() > 0 {
        assert(notes.last() == notes[notes.len() - 1]);
        if has_note(notes.drop_last(), id) {
            let w = choose|w: int|
                0 <= w < notes.drop_last().len() && (#[trigger] notes.drop_last()[w]).id == id;
            assert(notes[w].id == id);
        }
        lemma_filter_no_match_note(notes.drop_last(), id);
        assert(notes.drop_last().push(notes.last()) =~= notes);
    }
}

/// Filtering by an id that never occurs keeps every todo.
proof fn lemma_filter_no_match_todo(todos: Seq<TodoV>, id: Seq<char>)
    requires
        !has_todo(todos, id),
    ensures
        todos.filter(todo_keep(id)) == todos,
    decreases todos.len(),
{
    reveal(Seq::filter);
    if todos.len() > 0 {
        assert(todos.last() == todos[todos.len() - 1]);
        if has_todo(todos.drop_last(), id) {
            let w = choose|w: int|
                0 <= w < todos.drop_last().len() && (#[trigger] todos.drop_last()[w]).id == id;
            assert(todos[w].id == id);
        }
        lemma_filter_no_match_todo(todos.drop_last(), id);
        assert(todos.drop_last().push(todos.last()) =~= todos);
    }
}

} // verus!
