//! The core of a command-line to-do manager: items with unique, increasing
//! ids, and the operations add, complete, delete and the filtered listings.
//! Reading and writing the JSON file is done by the program around it.

use vstd::prelude::*;
use crate::text::{decimal, push_decimal, push_str_chars, string_from_chars};

verus! {

/// One to-do entry.
#[derive(Debug)]
pub struct TodoItem {
    /// The entry's id, unique within its list.
    pub id: u32,
    /// What is to be done.
    pub title: String,
    /// Whether it is done.
    pub completed: bool,
}

/// A to-do list, the next id to hand out, and the file it is kept in.
#[derive(Debug)]
pub struct TodoList {
    /// The entries, in the order they were added.
    pub items: Vec<TodoItem>,
    /// The id the next added entry gets.
    pub next_id: u32,
    /// Where the list is saved.
    pub file_path: String,
}

impl Clone for TodoItem {
    fn clone(&self) -> (c: Self)
        ensures
            c.id == self.id,
            c.title@ == self.title@,
            c.completed == self.completed,
    {
        TodoItem { id: self.id, title: self.title.clone(), completed: self.completed }
    }
}

/// The entry `it` has this id, title and state.
pub open spec fn item_is(it: TodoItem, id: u32, title: Seq<char>, completed: bool) -> bool {
    it.id == id && it.title@ == title && it.completed == completed
}

/// Two entries agree in id, title and state.
pub open spec fn same_item(a: TodoItem, b: TodoItem) -> bool {
    item_is(a, b.id, b.title@, b.completed)
}

/// Two sequences of entries agree entry by entry.
pub open spec fn same_items(a: Seq<TodoItem>, b: Seq<TodoItem>) -> bool {
    a.len() == b.len() && forall|k: int| 0 <= k < a.len() ==> same_item(#[trigger] a[k], b[k])
}

/// `k` is the first position of an entry with this id.
pub open spec fn first_with_id(items: Seq<TodoItem>, id: u32, k: int) -> bool {
    0 <= k < items.len() && items[k].id == id && forall|j: int|
        0 <= j < k ==> #[trigger] items[j].id != id
}

/// Some entry has this id.
pub open spec fn has_id(items: Seq<TodoItem>, id: u32) -> bool {
    exists|k: int| 0 <= k < items.len() && #[trigger] items[k].id == id
}

/// The message for an id that no entry has.
pub open spec fn not_found_message(id: u32) -> Seq<char> {
    "未找到 ID 为 "@ + decimal(id as nat) + " 的待办事项"@
}

/// The message for completing an entry that is already complete.
pub open spec fn already_done_message(id: u32) -> Seq<char> {
    "条目 #"@ + decimal(id as nat) + " 已经是完成状态"@
}

/// The list's ids increase strictly along the list (so no two are equal)
/// and are all below `next_id`.
pub open spec fn ids_well_formed(items: Seq<TodoItem>, next_id: u32) -> bool {
    &&& forall|k: int| 0 <= k < items.len() ==> #[trigger] items[k].id < next_id
    &&& forall|j: int, k: int|
        0 <= j < k < items.len() ==> #[trigger] items[j].id < #[trigger] items[k].id
}

/// The entries not yet done, in order.
pub open spec fn pending_items(items: Seq<TodoItem>) -> Seq<TodoItem> {
    items.filter(|it: TodoItem| !it.completed)
}

/// The entries done, in order.
pub open spec fn completed_items(items: Seq<TodoItem>) -> Seq<TodoItem> {
    items.filter(|it: TodoItem| it.completed)
}

/// The entries that references point to.
pub open spec fn derefs(v: Seq<&TodoItem>) -> Seq<TodoItem> {
    v.map_values(|r: &TodoItem| *r)
}

/// Builds the message `prefix` + the decimal id + `suffix`.
fn id_message(prefix: &str, id: u32, suffix: &str) -> (m: String)
    ensures
        m@ == prefix@ + decimal(id as nat) + suffix@,
{
    let mut out: Vec<char> = Vec::new();
    push_str_chars(&mut out, prefix);
    push_decimal(&mut out, id as u64);
    push_str_chars(&mut out, suffix);
    let m = string_from_chars(out.as_slice());
    assert(m@ =~= prefix@ + decimal(id as nat) + suffix@);
    m
}

/// The first position of an entry with this id, if any.
fn position_of(items: &Vec<TodoItem>, id: u32) -> (r: Option<usize>)
    ensures
        r matches Some(k) ==> first_with_id(items@, id, k as int),
        r is None ==> !has_id(items@, id),
{
    let mut k: usize = 0;
    while k < items.len()
        invariant
            k <= items@.len(),
            forall|j: int| 0 <= j < k ==> #[trigger] items@[j].id != id,
        decreases items@.len() - k,
    {
        if items[k].id == id {
            return Some(k);
        }
        k = k + 1;
    }
    None
}

impl TodoList {
    /// An empty list kept in `file_path`; the first id handed out is 1.
    pub fn new(file_path: &str) -> (list: TodoList)
        ensures
            list.items@.len() == 0,
            list.next_id == 1,
            list.file_path@ == file_path@,
            ids_well_formed(list.items@, list.next_id),
    {
        TodoList { items: Vec::new(), next_id: 1, file_path: file_path.to_string() }
    }

    /// Appends a new, not yet done entry with the next id, and returns a copy of it.
    pub fn add(&mut self, title: String) -> (item: TodoItem)
        requires
            old(self).next_id < u32::MAX,
        ensures
            item_is(item, old(self).next_id, title@, false),
            final(self).next_id == old(self).next_id + 1,
            final(self).file_path == old(self).file_path,
            final(self).items@.len() == old(self).items@.len() + 1,
            final(self).items@.drop_last() == old(self).items@,
            same_item(final(self).items@.last(), item),
            ids_well_formed(old(self).items@, old(self).next_id) ==> ids_well_formed(
                final(self).items@,
                final(self).next_id,
            ),
    {
        let id = self.next_id;
        let copy = TodoItem { id, title: title.clone(), completed: false };
        let item = TodoItem { id, title, completed: false };
        self.next_id = self.next_id + 1;
        self.items.push(item);
        assert(self.items@.drop_last() =~= old(self).items@);
        copy
    }

    /// All entries.
    pub fn list(&self) -> (items: &Vec<TodoItem>)
        ensures
            items@ == self.items@,
    {
        &self.items
    }

    /// Marks the first entry with this id as done.  It fails, changing nothing,
    /// when no entry has the id or that entry is already done.
    pub fn complete(&mut self, id: u32) -> (r: Result<(), String>)
        ensures
            final(self).next_id == old(self).next_id,
            final(self).file_path == old(self).file_path,
            !has_id(old(self).items@, id) ==> (r matches Err(m) && m@ == not_found_message(id)
                && final(self).items@ == old(self).items@),
            forall|k: int|
                #[trigger] first_with_id(old(self).items@, id, k) ==> (if old(self).items@[k].completed {
                    r matches Err(m) && m@ == already_done_message(id) && final(self).items@
                        == old(self).items@
                } else {
                    &&& r is Ok
                    &&& final(self).items@.len() == old(self).items@.len()
                    &&& item_is(final(self).items@[k], id, old(self).items@[k].title@, true)
                    &&& forall|j: int|
                        0 <= j < old(self).items@.len() && j != k ==> #[trigger] final(self).items@[j]
                            == old(self).items@[j]
                }),
            ids_well_formed(old(self).items@, old(self).next_id) ==> ids_well_formed(
                final(self).items@,
                final(self).next_id,
            ),
    {
        match position_of(&self.items, id) {
            Some(k) => {
                if self.items[k].completed {
                    return Err(id_message("条目 #", id, " 已经是完成状态"));
                }
                let done = TodoItem {
                    id: self.items[k].id,
                    title: self.items[k].title.clone(),
                    completed: true,
                };
                self.items.set(k, done);
                Ok(())
            },
            None => Err(id_message("未找到 ID 为 ", id, " 的待办事项")),
        }
    }

    /// Removes the first entry with this id.  It fails, changing nothing, when
    /// no entry has the id.
    pub fn delete(&mut self, id: u32) -> (r: Result<(), String>)
        ensures
            final(self).next_id == old(self).next_id,
            final(self).file_path == old(self).file_path,
            !has_id(old(self).items@, id) ==> (r matches Err(m) && m@ == not_found_message(id)
                && final(self).items@ == old(self).items@),
            forall|k: int|
                #[trigger] first_with_id(old(self).items@, id, k) ==> (r is Ok && final(self).items@
                    == old(self).items@.remove(k)),
            ids_well_formed(old(self).items@, old(self).next_id) ==> ids_well_formed(
                final(self).items@,
                final(self).next_id,
            ),
    {
        match position_of(&self.items, id) {
            Some(k) => {
                self.items.remove(k);
                proof {
                    assert forall|j: int, m: int| first_with_id(old(self).items@, id, j) && first_with_id(old(self).items@, id, m) implies j == m by {
                        if j < m {
                            assert(old(self).items@[j].id != id);
                        } else if m < j {
                            assert(old(self).items@[m].id != id);
                        }
                    }
                    if ids_well_formed(old(self).items@, old(self).next_id) {
                        assert forall|a: int, b: int|
                            0 <= a < b < self.items@.len() implies #[trigger] self.items@[a].id
                            < #[trigger] self.items@[b].id by {
                            let oa = if a < k { a } else { a + 1 };
                            let ob = if b < k { b } else { b + 1 };
                            assert(self.items@[a] == old(self).items@[oa]);
                            assert(self.items@[b] == old(self).items@[ob]);
                        }
                    }
                }
                Ok(())
            },
            None => Err(id_message("未找到 ID 为 ", id, " 的待办事项")),
        }
    }

    /// The entries not yet done, in order.
    pub fn list_pending(&self) -> (r: Vec<&TodoItem>)
        ensures
            derefs(r@) == pending_items(self.items@),
    {
        let ghost pred = |it: TodoItem| !it.completed;
        let mut r: Vec<&TodoItem> = Vec::new();
        let mut k: usize = 0;
        while k < self.items.len()
            invariant
                pred == (|it: TodoItem| !it.completed),
                k <= self.items@.len(),
                derefs(r@) == self.items@.take(k as int).filter(pred),
            decreases self.items@.len() - k,
        {
            proof {
                reveal(Seq::filter);
                assert(self.items@.take(k + 1).drop_last() =~= self.items@.take(k as int));
            }
            if !self.items[k].completed {
                r.push(&self.items[k]);
                assert(derefs(r@) =~= self.items@.take(k as int).filter(pred).push(self.items@[k as int]));
            }
            k = k + 1;
        }
        assert(self.items@.take(self.items@.len() as int) =~= self.items@);
        r
    }

    /// The entries done, in order.
    pub fn list_completed(&self) -> (r: Vec<&TodoItem>)
        ensures
            derefs(r@) == completed_items(self.items@),
    {
        let ghost pred = |it: TodoItem| it.completed;
        let mut r: Vec<&TodoItem> = Vec::new();
        let mut k: usize = 0;
        while k < self.items.len()
            invariant
                pred == (|it: TodoItem| it.completed),
                k <= self.items@.len(),
                derefs(r@) == self.items@.take(k as int).filter(pred),
            decreases self.items@.len() - k,
        {
            proof {
                reveal(Seq::filter);
                assert(self.items@.take(k + 1).drop_last() =~= self.items@.take(k as int));
            }
            if self.items[k].completed {
                r.push(&self.items[k]);
                assert(derefs(r@) =~= self.items@.take(k as int).filter(pred).push(self.items@[k as int]));
            }
            k = k + 1;
        }
        assert(self.items@.take(self.items@.len() as int) =~= self.items@);
        r
    }
}


/// Every entry is either pending or done: the two listings together have as
/// many entries as the list.
pub proof fn lemma_pending_and_completed_partition(items: Seq<TodoItem>)
    ensures
        pending_items(items).len() + completed_items(items).len() == items.len(),
    decreases items.len(),
{
    reveal(Seq::filter);
    if items.len() > 0 {
        lemma_pending_and_completed_partition(items.drop_last());
    }
}

/// Completing an entry that is not yet done leaves it first with its id and
/// done, so completing the same id again is refused as already done.
pub proof fn lemma_complete_twice_is_refused(
    before: Seq<TodoItem>,
    after: Seq<TodoItem>,
    id: u32,
    k: int,
)
    requires
        first_with_id(before, id, k),
        !before[k].completed,
        after.len() == before.len(),
        item_is(after[k], id, before[k].title@, true),
        forall|j: int| 0 <= j < before.len() && j != k ==> #[trigger] after[j] == before[j],
    ensures
        first_with_id(after, id, k),
        after[k].completed,
{
    assert forall|j: int| 0 <= j < k implies #[trigger] after[j].id != id by {
        assert(after[j] == before[j]);
    }
}

} // verus!
