//! The document model: notes, todos, and the whole persisted document.
//!
//! Timestamps are carried as opaque RFC 3339 strings and the last-reset
//! marker as a `YYYY-MM-DD` date string; the logic never takes them apart,
//! it only stamps, stores and (for the reset date) compares them.

use vstd::prelude::*;

verus! {

/// One note: an opaque id, user text, optional normalized tags, and
/// creation/update timestamps.
pub struct Note {
    pub id: String,
    pub title: String,
    pub content: String,
    pub tags: Option<Vec<String>>,
    pub created_at: String,
    pub updated_at: String,
}

/// The mathematical value of a [`Note`]: every string as a character
/// sequence.
#[verifier::ext_equal]
pub ghost struct NoteV {
    pub id: Seq<char>,
    pub title: Seq<char>,
    pub content: Seq<char>,
    pub tags: Option<Seq<Seq<char>>>,
    pub created_at: Seq<char>,
    pub updated_at: Seq<char>,
}

impl View for Note {
    type V = NoteV;

    open spec fn view(&self) -> NoteV {
        NoteV {
            id: self.id@,
            title: self.title@,
            content: self.content@,
            tags: self.tags.deep_view(),
            created_at: self.created_at@,
            updated_at: self.updated_at@,
        }
    }
}

impl DeepView for Note {
    type V = NoteV;

    open spec fn deep_view(&self) -> NoteV {
        self.view()
    }
}

impl Clone for Note {
    fn clone(&self) -> (res: Self)
        ensures
            res@ == self@,
    {
        Note {
            id: self.id.clone(),
            title: self.title.clone(),
            content: self.content.clone(),
            tags: clone_tags(&self.tags),
            created_at: self.created_at.clone(),
            updated_at: self.updated_at.clone(),
        }
    }
}

/// One todo item. `is_daily` marks it for the daily reset rule and never
/// changes after creation.
pub struct Todo {
    pub id: String,
    pub task: String,
    pub completed: bool,
    pub is_daily: bool,
    pub created_at: String,
}

/// The mathematical value of a [`Todo`].
#[verifier::ext_equal]
pub ghost struct TodoV {
    pub id: Seq<char>,
    pub task: Seq<char>,
    pub completed: bool,
    pub is_daily: bool,
    pub created_at: Seq<char>,
}

impl View for Todo {
    type V = TodoV;

    open spec fn view(&self) -> TodoV {
        TodoV {
            id: self.id@,
            task: self.task@,
            completed: self.completed,
            is_daily: self.is_daily,
            created_at: self.created_at@,
        }
    }
}

impl DeepView for Todo {
    type V = TodoV;

    open spec fn deep_view(&self) -> TodoV {
        self.view()
    }
}

impl Clone for Todo {
    fn clone(&self) -> (res: Self)
        ensures
            res@ == self@,
    {
        Todo {
            id: self.id.clone(),
            task: self.task.clone(),
            completed: self.completed,
            is_daily: self.is_daily,
            created_at: self.created_at.clone(),
        }
    }
}

/// The whole persisted unit: every note, every todo, and the date of the
/// most recent daily reset, if one ever ran.
pub struct Document {
    pub notes: Vec<Note>,
    pub todos: Vec<Todo>,
    pub last_daily_reset_date: Option<String>,
}

/// The mathematical value of a [`Document`].
#[verifier::ext_equal]
pub ghost struct DocumentV {
    pub notes: Seq<NoteV>,
    pub todos: Seq<TodoV>,
    pub last_daily_reset_date: Option<Seq<char>>,
}

impl View for Document {
    type V = DocumentV;

    open spec fn view(&self) -> DocumentV {
        DocumentV {
            notes: self.notes.deep_view(),
            todos: self.todos.deep_view(),
            last_daily_reset_date: self.last_daily_reset_date.deep_view(),
        }
    }
}

/// The document a fresh installation starts from: nothing stored yet.
pub open spec fn empty_document() -> DocumentV {
    DocumentV { notes: Seq::empty(), todos: Seq::empty(), last_daily_reset_date: None }
}

impl Document {
    /// An empty document: no notes, no todos, no reset recorded.
    pub fn new_empty() -> (r: Document)
        ensures
            r@ == empty_document(),
    {
        let r = Document { notes: Vec::new(), todos: Vec::new(), last_daily_reset_date: None };
        proof {
            assert(r@ =~= empty_document());
        }
        r
    }
}

/// Clones an optional tag list, preserving its value exactly.
pub fn clone_tags(tags: &Option<Vec<String>>) -> (res: Option<Vec<String>>)
    ensures
        res.deep_view() == tags.deep_view(),
{
    match tags {
        None => None,
        Some(v) => {
            let mut out: Vec<String> = Vec::new();
            let mut i: usize = 0;
            while i < v.len()
                invariant
                    i <= v.len(),
                    out.deep_view() == v.deep_view().subrange(0, i as int),
                decreases v.len() - i,
            {
                let ghost pre = out.deep_view();
                out.push(v[i].clone());
                proof {
                    assert(out@.len() == pre.len() + 1);
                    assert forall|k: int| 0 <= k < out@.len() implies out.deep_view()[k]
                        == v.deep_view().subrange(0, i + 1)[k] by {
                        if k < pre.len() {
                            assert(out.deep_view()[k] == pre[k]);
                        } else {
                            assert(out@[k] == v@[i as int]);
                        }
                    }
                    assert(out.deep_view() =~= v.deep_view().subrange(0, i + 1));
                }
                i = i + 1;
            }
            proof {
                assert(v.deep_view().subrange(0, v.len() as int) =~= v.deep_view());
            }
            Some(out)
        },
    }
}

} // verus!
