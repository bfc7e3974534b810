//! The ordered todo list and the edit commands that change it.

use vstd::prelude::*;

use crate::error::TodoError;
use crate::text::views;

verus! {

/// An ordered list of todo items; an item is known only by its 1-based
/// position.
#[derive(Clone, Debug, PartialEq, Eq)]
pub struct TodoList {
    pub items: Vec<String>,
}

impl View for TodoList {
    type V = Seq<Seq<char>>;

    open spec fn view(&self) -> Seq<Seq<char>> {
        views(self.items@)
    }
}

/// One change to a todo list.
#[derive(Clone, Debug, PartialEq, Eq)]
pub enum EditCommand {
    /// Append the text as a new last item.
    Add(String),
    /// Remove the items at these 1-based positions, all of them or none.
    RemoveMany(Vec<i64>),
    /// Overwrite the item at this 1-based position with the text.
    Replace(i64, String),
}

/// Whether `k` names a position of a list of `len` items.
pub open spec fn in_range(k: int, len: int) -> bool {
    1 <= k <= len
}

/// Whether every position in `ks` names an item of a list of `len` items.
pub open spec fn all_in_range(ks: Seq<i64>, len: int) -> bool {
    forall|i: int| 0 <= i < ks.len() ==> in_range(#[trigger] ks[i] as int, len)
}

/// The positions that `ks` names.
pub open spec fn position_set(ks: Seq<i64>) -> Set<int> {
    Set::new(|k: int| exists|i: int| 0 <= i < ks.len() && ks[i] as int == k)
}

/// The items of `s`, the first of which stands at position `pos`, less
/// those whose position is in `gone`.
pub open spec fn keep_from<A>(s: Seq<A>, gone: Set<int>, pos: int) -> Seq<A>
    decreases s.len(),
{
    if s.len() == 0 {
        s
    } else {
        let rest = keep_from(s.drop_first(), gone, pos + 1);
        if gone.contains(pos) {
            rest
        } else {
            seq![s[0]] + rest
        }
    }
}

/// `s` without the items at the 1-based positions in `gone`.
pub open spec fn without_positions<A>(s: Seq<A>, gone: Set<int>) -> Seq<A> {
    keep_from(s, gone, 1)
}

/// What removing the positions `ks` from `s` gives.
pub open spec fn removal(s: Seq<Seq<char>>, ks: Seq<i64>) -> Result<Seq<Seq<char>>, TodoError> {
    if all_in_range(ks, s.len() as int) {
        Ok(without_positions(s, position_set(ks)))
    } else {
        Err(TodoError::IndexOutOfRange)
    }
}

/// What replacing the item at position `k` of `s` by `t` gives.
pub open spec fn replacement(s: Seq<Seq<char>>, k: int, t: Seq<char>) -> Result<
    Seq<Seq<char>>,
    TodoError,
> {
    if in_range(k, s.len() as int) {
        Ok(s.update(k - 1, t))
    } else {
        Err(TodoError::IndexOutOfRange)
    }
}

/// What applying `cmd` to `s` gives.
pub open spec fn outcome(s: Seq<Seq<char>>, cmd: EditCommand) -> Result<Seq<Seq<char>>, TodoError> {
    match cmd {
        EditCommand::Add(t) => Ok(s.push(t@)),
        EditCommand::RemoveMany(ks) => removal(s, ks@),
        EditCommand::Replace(k, t) => replacement(s, k as int, t@),
    }
}

/// A batch removal depends only on which positions it names, not on their
/// order or repeats: removing `[3, 1]` and removing `[1, 3]` from one list
/// give the same list, or the same error.
pub proof fn lemma_removal_ignores_order(s: Seq<Seq<char>>, a: Seq<i64>, b: Seq<i64>)
    requires
        position_set(a) == position_set(b),
    ensures
        removal(s, a) == removal(s, b),
{
    assert(all_in_range(a, s.len() as int) ==> all_in_range(b, s.len() as int)) by {
        if all_in_range(a, s.len() as int) {
            assert forall|i: int| 0 <= i < b.len() implies in_range(#[trigger] b[i] as int, s.len() as int) by {
                assert(position_set(b).contains(b[i] as int));
                let j = choose|j: int| 0 <= j < a.len() && a[j] as int == b[i] as int;
                assert(in_range(a[j] as int, s.len() as int));
            }
        }
    }
    assert(all_in_range(b, s.len() as int) ==> all_in_range(a, s.len() as int)) by {
        if all_in_range(b, s.len() as int) {
            assert forall|i: int| 0 <= i < a.len() implies in_range(#[trigger] a[i] as int, s.len() as int) by {
                assert(position_set(a).contains(a[i] as int));
                let j = choose|j: int| 0 <= j < b.len() && b[j] as int == a[i] as int;
                assert(in_range(b[j] as int, s.len() as int));
            }
        }
    }
}

proof fn lemma_keep_all<A>(s: Seq<A>, gone: Set<int>, pos: int)
    requires
        forall|q: int| pos <= q < pos + s.len() ==> !gone.contains(q),
    ensures
        keep_from(s, gone, pos) == s,
    decreases s.len(),
{
    if s.len() > 0 {
        lemma_keep_all(s.drop_first(), gone, pos + 1);
        assert(seq![s[0]] + s.drop_first() =~= s);
    }
}

/// Removing the one position `k` takes out the item at index `k - 1`.
pub proof fn lemma_remove_one<A>(s: Seq<A>, k: int)
    requires
        in_range(k, s.len() as int),
    ensures
        without_positions(s, set![k]) == s.remove(k - 1),
{
    lemma_keep_one(s, k, 1);
}

proof fn lemma_keep_one<A>(s: Seq<A>, k: int, pos: int)
    requires
        pos <= k < pos + s.len(),
    ensures
        keep_from(s, set![k], pos) == s.remove(k - pos),
    decreases s.len(),
{
    if k == pos {
        lemma_keep_all(s.drop_first(), set![k], pos + 1);
        assert(s.drop_first() =~= s.remove(0));
    } else {
        lemma_keep_one(s.drop_first(), k, pos + 1);
        assert(seq![s[0]] + s.drop_first().remove(k - pos - 1) =~= s.remove(k - pos));
    }
}

impl TodoList {
    /// An empty list.
    pub fn new() -> (r: TodoList)
        ensures
            r@ == Seq::<Seq<char>>::empty(),
    {
        let r = TodoList { items: Vec::new() };
        assert(r@ =~= Seq::<Seq<char>>::empty());
        r
    }

    /// A list holding `items` in their order.
    pub fn from_items(items: Vec<String>) -> (r: TodoList)
        ensures
            r@ == views(items@),
    {
        TodoList { items }
    }

    /// The items, in order.
    pub fn items(&self) -> (r: &Vec<String>)
        ensures
            views(r@) == self@,
    {
        &self.items
    }

    /// The number of items.
    pub fn len(&self) -> (r: usize)
        ensures
            r == self@.len(),
    {
        self.items.len()
    }

    /// Whether the list holds no item.
    pub fn is_empty(&self) -> (r: bool)
        ensures
            r == (self@.len() == 0),
    {
        self.items.len() == 0
    }

    /// Appends `text` as the new last item; this never fails.
    pub fn add(&mut self, text: String)
        ensures
            final(self)@ == old(self)@.push(text@),
            final(self)@.len() == old(self)@.len() + 1,
            final(self)@.last() == text@,
            final(self)@.take(old(self)@.len() as int) == old(self)@,
    {
        self.items.push(text);
        assert(self@ =~= old(self)@.push(text@));
        assert(self@.take(old(self)@.len() as int) =~= old(self)@);
    }

    /// Overwrites the item at 1-based position `index` with `text`; fails
    /// with `IndexOutOfRange`, leaving the list as it was, where no item
    /// stands there.
    pub fn replace(&mut self, index: i64, text: String) -> (r: Result<(), TodoError>)
        ensures
            match replacement(old(self)@, index as int, text@) {
                Ok(s) => r is Ok && final(self)@ == s,
                Err(e) => r == Err::<(), TodoError>(e) && final(self)@ == old(self)@,
            },
            final(self)@.len() == old(self)@.len(),
            forall|j: int|
                0 <= j < old(self)@.len() && j != index - 1 ==> #[trigger] final(self)@[j]
                    == old(self)@[j],
            r is Ok ==> final(self)@[index - 1] == text@,
    {
        if index < 1 || index as u64 > self.items.len() as u64 {
            return Err(TodoError::IndexOutOfRange);
        }
        let ghost t = text@;
        self.items.set((index - 1) as usize, text);
        assert(self@ =~= old(self)@.update(index - 1, t));
        Ok(())
    }

    /// Removes the items at the 1-based positions in `indices`. Every
    /// position is checked against the length before any removal: where one
    /// names no item, nothing is removed and the result is
    /// `IndexOutOfRange`. The items go from the highest position down, so
    /// that no removal shifts a position still to come; the order of
    /// `indices` and repeats in it do not matter.
    pub fn remove_many(&mut self, indices: &Vec<i64>) -> (r: Result<(), TodoError>)
        ensures
            match removal(old(self)@, indices@) {
                Ok(s) => r is Ok && final(self)@ == s,
                Err(e) => r == Err::<(), TodoError>(e) && final(self)@ == old(self)@,
            },
            !all_in_range(indices@, old(self)@.len() as int) ==> r == Err::<(), TodoError>(
                TodoError::IndexOutOfRange,
            ) && final(self)@ == old(self)@,
    {
        let n = self.items.len();
        let mut i: usize = 0;
        while i < indices.len()
            invariant
                0 <= i <= indices@.len(),
                n == self@.len(),
                forall|j: int| 0 <= j < i ==> in_range(#[trigger] indices@[j] as int, n as int),
            decreases indices@.len() - i,
        {
            let k = indices[i];
            if k < 1 || k as u64 > n as u64 {
                return Err(TodoError::IndexOutOfRange);
            }
            i = i + 1;
        }
        let ghost gone = position_set(indices@);
        let mut marks: Vec<bool> = Vec::new();
        while marks.len() < n
            invariant
                marks@.len() <= n,
                forall|p: int| 0 <= p < marks@.len() ==> !#[trigger] marks@[p],
            decreases n - marks@.len(),
        {
            marks.push(false);
        }
        let mut i: usize = 0;
        while i < indices.len()
            invariant
                0 <= i <= indices@.len(),
                marks@.len() == n,
                all_in_range(indices@, n as int),
                forall|p: int|
                    0 <= p < n ==> (#[trigger] marks@[p] <==> exists|j: int|
                        0 <= j < i && indices@[j] as int == p + 1),
            decreases indices@.len() - i,
        {
            let k = indices[i];
            assert(in_range(indices@[i as int] as int, n as int));
            marks.set((k - 1) as usize, true);
            assert forall|p: int| 0 <= p < n implies (#[trigger] marks@[p] <==> exists|j: int|
                0 <= j < i + 1 && indices@[j] as int == p + 1) by {
                if p == k - 1 {
                    assert(indices@[i as int] as int == p + 1);
                }
            }
            i = i + 1;
        }
        let ghost start = self@;
        let mut p: usize = n;
        assert(start.skip(n as int) =~= Seq::<Seq<char>>::empty());
        assert(start.take(n as int) =~= start);
        assert(start =~= start.take(n as int) + keep_from(start.skip(n as int), gone, n + 1));
        while p > 0
            invariant
                0 <= p <= n,
                n == start.len(),
                marks@.len() == n,
                forall|q: int| 0 <= q < n ==> (#[trigger] marks@[q] <==> gone.contains(q + 1)),
                self@ == start.take(p as int) + keep_from(start.skip(p as int), gone, p + 1),
            decreases p,
        {
            assert(self@.len() == self.items@.len());
            assert(self@.len() >= p);
            p = p - 1;
            let ghost before = self@;
            let ghost rest = keep_from(start.skip(p + 1), gone, p + 2);
            assert(start.skip(p as int).drop_first() =~= start.skip(p + 1));
            assert(start.skip(p as int)[0] == start[p as int]);
            if marks[p] {
                self.items.remove(p);
                assert(self@ =~= before.remove(p as int));
                assert(self@ =~= start.take(p as int) + rest);
            } else {
                assert(self@ =~= start.take(p as int) + keep_from(start.skip(p as int), gone, p + 1));
            }
        }
        assert(start.take(0) + keep_from(start.skip(0), gone, 1) =~= without_positions(start, gone));
        Ok(())
    }

    /// Applies `cmd`: `Add` always succeeds, while `RemoveMany` and
    /// `Replace` fail with `IndexOutOfRange`, changing nothing, where a
    /// position names no item.
    pub fn apply(&mut self, cmd: EditCommand) -> (r: Result<(), TodoError>)
        ensures
            match outcome(old(self)@, cmd) {
                Ok(s) => r is Ok && final(self)@ == s,
                Err(e) => r == Err::<(), TodoError>(e) && final(self)@ == old(self)@,
            },
    {
        match cmd {
            EditCommand::Add(t) => {
                self.add(t);
                Ok(())
            },
            EditCommand::RemoveMany(ks) => self.remove_many(&ks),
            EditCommand::Replace(k, t) => self.replace(k, t),
        }
    }
}

} // verus!
