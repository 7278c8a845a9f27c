use vstd::prelude::*;
use crate::record::{Task, TodoItem};
use crate::text::{arg_id, join_spaced, parse_id, spaced, trim_end, trimmed_end};

verus! {

/// The largest id among the tasks, 0 for none.
pub open spec fn max_id(s: Seq<Task>) -> nat
    decreases s.len(),
{
    if s.len() == 0 {
        0
    } else {
        let m = max_id(s.drop_last());
        if s.last().id > m { s.last().id } else { m }
    }
}

/// The position of the first task with the given id, -1 where there is none.
pub open spec fn index_of(s: Seq<Task>, id: nat) -> int
    decreases s.len(),
{
    if s.len() == 0 {
        -1
    } else {
        let k = index_of(s.drop_last(), id);
        if k >= 0 { k } else if s.last().id == id { s.len() - 1 } else { -1 }
    }
}

/// Ids run `1..=n` in the order of the tasks.
pub open spec fn dense(s: Seq<Task>) -> bool {
    forall|i: int| 0 <= i < s.len() ==> (#[trigger] s[i]).id == i + 1
}

/// The tasks after adding one with the given text, created at `now`.
pub open spec fn added(s: Seq<Task>, text: Seq<char>, now: nat) -> Seq<Task> {
    s.push(Task { id: max_id(s) + 1, text: trim_end(text), created: now, done: false })
}

/// Whether `id` names a task of `s`.
pub open spec fn names_task(s: Seq<Task>, id: nat) -> bool {
    id > 0 && index_of(s, id) >= 0
}

/// The tasks after marking the one with `id` as done.
pub open spec fn marked_done(s: Seq<Task>, id: nat) -> Seq<Task> {
    if names_task(s, id) {
        let k = index_of(s, id);
        s.update(k, Task { done: true, ..s[k] })
    } else {
        s
    }
}

/// The tasks after giving the one with `id` a new text.
pub open spec fn edited(s: Seq<Task>, id: nat, text: Seq<char>) -> Seq<Task> {
    if names_task(s, id) {
        let k = index_of(s, id);
        s.update(k, Task { text: text, ..s[k] })
    } else {
        s
    }
}

/// The same tasks, in the same order, numbered `1..=n`.
pub open spec fn renumbered(s: Seq<Task>) -> Seq<Task> {
    Seq::new(s.len(), |i: int| Task { id: (i + 1) as nat, ..s[i] })
}

/// The tasks after removing the one with `id` and renumbering the rest.
pub open spec fn removed(s: Seq<Task>, id: nat) -> Seq<Task> {
    if names_task(s, id) {
        renumbered(s.remove(index_of(s, id)))
    } else {
        s
    }
}

proof fn lemma_index_found(s: Seq<Task>, id: nat, k: int)
    requires
        0 <= k <= s.len(),
        index_of(s.take(k), id) >= 0,
    ensures
        index_of(s, id) == index_of(s.take(k), id),
    decreases s.len() - k,
{
    if k < s.len() {
        assert(s.take(k + 1).drop_last() =~= s.take(k));
        lemma_index_found(s, id, k + 1);
    } else {
        assert(s.take(k) =~= s);
    }
}

proof fn lemma_index_missing(s: Seq<Task>, id: nat)
    requires
        index_of(s, id) < 0,
    ensures
        forall|i: int| 0 <= i < s.len() ==> (#[trigger] s[i]).id != id,
    decreases s.len(),
{
    if s.len() > 0 {
        lemma_index_missing(s.drop_last(), id);
        assert forall|i: int| 0 <= i < s.len() implies (#[trigger] s[i]).id != id by {
            if i < s.len() - 1 {
                assert(s[i] == s.drop_last()[i]);
            }
        }
    }
}

proof fn lemma_dense_max(s: Seq<Task>)
    requires
        dense(s),
    ensures
        max_id(s) == s.len(),
    decreases s.len(),
{
    if s.len() > 0 {
        assert(dense(s.drop_last())) by {
            assert forall|i: int| 0 <= i < s.drop_last().len() implies (#[trigger] s.drop_last()[i]).id == i + 1 by {
                assert(s.drop_last()[i] == s[i]);
            }
        }
        lemma_dense_max(s.drop_last());
    }
}

proof fn lemma_dense_index(s: Seq<Task>, id: nat)
    requires
        dense(s),
        1 <= id <= s.len(),
    ensures
        index_of(s, id) == id - 1,
    decreases s.len(),
{
    let t = s.drop_last();
    assert(dense(t)) by {
        assert forall|i: int| 0 <= i < t.len() implies (#[trigger] t[i]).id == i + 1 by {
            assert(t[i] == s[i]);
        }
    }
    if id < s.len() {
        lemma_dense_index(t, id);
    } else if t.len() > 0 {
        assert forall|i: int| 0 <= i < t.len() implies (#[trigger] t[i]).id != id by {
            assert(t[i] == s[i]);
        }
        if index_of(t, id) >= 0 {
            lemma_index_in_range(t, id);
            assert(t[index_of(t, id)].id == id);
        }
    }
}

proof fn lemma_index_in_range(s: Seq<Task>, id: nat)
    requires
        index_of(s, id) >= 0,
    ensures
        index_of(s, id) < s.len(),
        s[index_of(s, id)].id == id,
        forall|j: int| 0 <= j < index_of(s, id) ==> (#[trigger] s[j]).id != id,
    decreases s.len(),
{
    let t = s.drop_last();
    if index_of(t, id) >= 0 {
        lemma_index_in_range(t, id);
        assert forall|j: int| 0 <= j < index_of(s, id) implies (#[trigger] s[j]).id != id by {
            assert(s[j] == t[j]);
        }
    } else {
        lemma_index_missing(t, id);
        assert forall|j: int| 0 <= j < index_of(s, id) implies (#[trigger] s[j]).id != id by {
            assert(s[j] == t[j]);
        }
    }
}

/// Adding a task to a store numbered `1..=n` gives it id `n + 1`, and the store
/// stays numbered densely, whatever the text.
pub proof fn law_add_numbers_next(s: Seq<Task>, text: Seq<char>, now: nat)
    requires
        dense(s),
    ensures
        added(s, text, now).len() == s.len() + 1,
        added(s, text, now).last().id == s.len() + 1,
        dense(added(s, text, now)),
{
    lemma_dense_max(s);
    let a = added(s, text, now);
    assert forall|i: int| 0 <= i < a.len() implies (#[trigger] a[i]).id == i + 1 by {
        if i < s.len() {
            assert(a[i] == s[i]);
        }
    }
}

/// The tasks after adding one task for each text in turn, the i-th created at `times[i]`.
pub open spec fn added_all(s: Seq<Task>, texts: Seq<Seq<char>>, times: Seq<nat>) -> Seq<Task>
    decreases texts.len(),
{
    if texts.len() == 0 || times.len() == 0 {
        s
    } else {
        added(
            added_all(s, texts.drop_last(), times.drop_last()),
            texts.last(),
            times.last(),
        )
    }
}

/// Adding `n` tasks one after another to an empty store gives them the ids
/// `1..=n`, in order, whatever their texts.
pub proof fn law_adds_number_from_one(texts: Seq<Seq<char>>, times: Seq<nat>)
    requires
        times.len() == texts.len(),
    ensures
        added_all(Seq::empty(), texts, times).len() == texts.len(),
        dense(added_all(Seq::empty(), texts, times)),
    decreases texts.len(),
{
    if texts.len() > 0 {
        law_adds_number_from_one(texts.drop_last(), times.drop_last());
        law_add_numbers_next(
            added_all(Seq::empty(), texts.drop_last(), times.drop_last()),
            texts.last(),
            times.last(),
        );
    }
}

/// Removing the task with id `k` from a store numbered `1..=n` leaves `n - 1`
/// tasks numbered `1..=n-1`, the others in their former order with their
/// texts, times and flags.
pub proof fn law_remove_renumbers(s: Seq<Task>, k: nat)
    requires
        dense(s),
        1 <= k <= s.len(),
    ensures
        removed(s, k).len() == s.len() - 1,
        dense(removed(s, k)),
        forall|i: int| 0 <= i < k - 1 ==> (#[trigger] removed(s, k)[i]) == (Task { id: (i + 1) as nat, ..s[i] }),
        forall|i: int| k - 1 <= i < s.len() - 1 ==> (#[trigger] removed(s, k)[i]) == (Task { id: (i + 1) as nat, ..s[i + 1] }),
{
    lemma_dense_index(s, k);
}

/// Adding a task to an empty store and then removing it, confirmed, by the id
/// it was given leaves the store empty.
pub proof fn law_add_then_remove(text: Seq<char>, now: nat)
    ensures
        removed(added(Seq::empty(), text, now), max_id(Seq::<Task>::empty()) + 1) == Seq::<Task>::empty(),
{
    let a = added(Seq::empty(), text, now);
    assert(max_id(Seq::<Task>::empty()) == 0);
    assert(a.drop_last() =~= Seq::<Task>::empty());
    assert(index_of(a.drop_last(), 1) == -1);
    assert(a.last().id == 1);
    assert(index_of(a, 1) == 0);
    assert(removed(a, 1) =~= Seq::<Task>::empty());
}

/// Marking a task done twice is the same as marking it once, and the task is
/// then done.
pub proof fn law_done_idempotent(s: Seq<Task>, id: nat)
    ensures
        marked_done(marked_done(s, id), id) == marked_done(s, id),
        names_task(s, id) ==> marked_done(s, id)[index_of(s, id)].done,
{
    if names_task(s, id) {
        lemma_index_in_range(s, id);
        let m = marked_done(s, id);
        lemma_index_same(s, m, id);
        assert(marked_done(m, id) =~= m);
    }
}

proof fn lemma_index_same(s: Seq<Task>, t: Seq<Task>, id: nat)
    requires
        s.len() == t.len(),
        forall|i: int| 0 <= i < s.len() ==> (#[trigger] s[i]).id == t[i].id,
    ensures
        index_of(s, id) == index_of(t, id),
    decreases s.len(),
{
    if s.len() > 0 {
        lemma_index_same(s.drop_last(), t.drop_last(), id);
    }
}

/// Marking done an id that names no task leaves the store unchanged.
pub proof fn law_done_missing_unchanged(s: Seq<Task>, id: nat)
    requires
        !names_task(s, id),
    ensures
        marked_done(s, id) == s,
{
}

/// The task store: tasks in the order they were added or loaded.
pub struct TodoDatabase {
    v: Vec<TodoItem>,
}

impl View for TodoDatabase {
    type V = Seq<Task>;

    closed spec fn view(&self) -> Seq<Task> {
        self.v@.map_values(|t: TodoItem| t@)
    }
}

impl TodoDatabase {
    /// An empty store.
    pub fn new() -> (r: TodoDatabase)
        ensures
            r@ == Seq::<Task>::empty(),
    {
        TodoDatabase { v: Vec::new() }
    }

    /// A store holding the given items, in that order.
    pub fn from_items(items: Vec<TodoItem>) -> (r: TodoDatabase)
        ensures
            r@ == items@.map_values(|t: TodoItem| t@),
    {
        TodoDatabase { v: items }
    }

    /// The number of tasks.
    pub fn len(&self) -> (r: usize)
        ensures
            r == self@.len(),
    {
        self.v.len()
    }

    /// The task at position `i`.
    pub fn item(&self, i: usize) -> (r: &TodoItem)
        requires
            i < self@.len(),
        ensures
            r@ == self@[i as int],
    {
        &self.v[i]
    }

    /// The largest id in the store, 0 when it is empty.
    pub fn get_highest_id(&self) -> (r: u32)
        ensures
            r as nat == max_id(self@),
    {
        let mut id: u32 = 0;
        let mut i: usize = 0;
        while i < self.v.len()
            invariant
                i <= self.v@.len(),
                id as nat == max_id(self@.take(i as int)),
            decreases self.v@.len() - i,
        {
            assert(self@.take(i + 1).drop_last() =~= self@.take(i as int));
            if self.v[i].index > id {
                id = self.v[i].index;
            }
            i = i + 1;
        }
        assert(self@.take(i as int) =~= self@);
        id
    }

    /// The position of the first task with the given id.
    pub fn position(&self, id: u32) -> (r: Option<usize>)
        ensures
            r matches Some(k) ==> k as int == index_of(self@, id as nat) && k < self@.len(),
            r is None ==> index_of(self@, id as nat) < 0,
    {
        let mut i: usize = 0;
        while i < self.v.len()
            invariant
                i <= self.v@.len(),
                index_of(self@.take(i as int), id as nat) < 0,
            decreases self.v@.len() - i,
        {
            assert(self@.take(i + 1).drop_last() =~= self@.take(i as int));
            if self.v[i].index == id {
                proof { lemma_index_found(self@, id as nat, i + 1); }
                return Some(i);
            }
            i = i + 1;
        }
        assert(self@.take(i as int) =~= self@);
        None
    }

    /// Adds a task whose text is the tokens joined by single spaces, without
    /// trailing whitespace, created at `now`; its id is one above the largest
    /// id in the store. Returns that id.
    pub fn add(&mut self, argv: &[String], now: u64) -> (r: u32)
        requires
            max_id(old(self)@) < u32::MAX,
        ensures
            r as nat == max_id(old(self)@) + 1,
            final(self)@ == added(old(self)@, spaced(argv@), now as nat),
    {
        let ix = self.get_highest_id() + 1;
        let joined = join_spaced(argv, 0);
        assert(argv@.subrange(0, argv@.len() as int) =~= argv@);
        let task = trimmed_end(joined.as_str());
        self.v.push(TodoItem::from(ix, task, now, false));
        assert(self@ =~= added(old(self)@, spaced(argv@), now as nat));
        ix
    }

    /// Marks the task whose id `argv[0]` names as done. Returns whether there
    /// was such a task; an id that does not parse is 0 and names none.
    pub fn done(&mut self, argv: &[String]) -> (r: bool)
        requires
            argv@.len() >= 1,
        ensures
            r == names_task(old(self)@, arg_id(argv@[0]@)),
            final(self)@ == marked_done(old(self)@, arg_id(argv@[0]@)),
    {
        let item = parse_id(argv[0].as_str());
        if item > 0 {
            match self.position(item) {
                Some(k) => {
                    let mut it = self.v.remove(k);
                    it.is_done = true;
                    self.v.insert(k, it);
                    assert(self@ =~= marked_done(old(self)@, item as nat));
                    return true;
                }
                None => {}
            }
        }
        false
    }

    /// Replaces the text of the task whose id `argv[0]` names with the tokens
    /// that follow, each followed by one space. Returns whether there was such
    /// a task.
    pub fn edit(&mut self, argv: &[String]) -> (r: bool)
        requires
            argv@.len() >= 1,
        ensures
            r == names_task(old(self)@, arg_id(argv@[0]@)),
            final(self)@ == edited(
                old(self)@,
                arg_id(argv@[0]@),
                spaced(argv@.subrange(1, argv@.len() as int)),
            ),
    {
        let item = parse_id(argv[0].as_str());
        if item > 0 {
            match self.position(item) {
                Some(k) => {
                    let new_task = join_spaced(argv, 1);
                    let mut it = self.v.remove(k);
                    it.task = new_task;
                    self.v.insert(k, it);
                    assert(self@ =~= edited(
                        old(self)@,
                        item as nat,
                        spaced(argv@.subrange(1, argv@.len() as int)),
                    ));
                    return true;
                }
                None => {}
            }
        }
        false
    }

    /// Removes the task whose id `argv[0]` names, where the removal is
    /// `confirmed`, and numbers the remaining tasks `1..=n` in their order.
    /// Returns whether a task was removed.
    pub fn remove(&mut self, argv: &[String], confirmed: bool) -> (r: bool)
        requires
            argv@.len() >= 1,
            old(self)@.len() <= u32::MAX,
        ensures
            r == (confirmed && names_task(old(self)@, arg_id(argv@[0]@))),
            final(self)@ == if r { removed(old(self)@, arg_id(argv@[0]@)) } else { old(self)@ },
    {
        let item = parse_id(argv[0].as_str());
        if item > 0 && confirmed {
            match self.position(item) {
                Some(k) => {
                    self.v.remove(k);
                    let ghost rest = old(self)@.remove(k as int);
                    assert(self@ =~= rest);
                    self.renumber();
                    return true;
                }
                None => {}
            }
        }
        false
    }

    /// Numbers the tasks `1..=n` in their order.
    fn renumber(&mut self)
        requires
            old(self)@.len() <= u32::MAX,
        ensures
            final(self)@ == renumbered(old(self)@),
    {
        let mut i: usize = 0;
        while i < self.v.len()
            invariant
                i <= self.v@.len() == old(self)@.len() <= u32::MAX,
                forall|j: int| 0 <= j < i ==> self@[j] == (Task { id: (j + 1) as nat, ..old(self)@[j] }),
                forall|j: int| i <= j < self@.len() ==> self@[j] == old(self)@[j],
            decreases self.v@.len() - i,
        {
            let ghost before = self@;
            let mut it = self.v.remove(i);
            it.index = (i + 1) as u32;
            self.v.insert(i, it);
            assert(self@ =~= before.update(i as int, Task { id: (i + 1) as nat, ..before[i as int] }));
            i = i + 1;
        }
        assert(self@ =~= renumbered(old(self)@));
    }

    /// Removes every task.
    pub fn reset(&mut self)
        ensures
            final(self)@ == Seq::<Task>::empty(),
    {
        self.v.clear();
        assert(self@ =~= Seq::<Task>::empty());
    }
}

} // verus!
