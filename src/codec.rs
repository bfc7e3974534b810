//! The storage format of a todo list.
//!
//! Each item is stored as one line, the marker `#`, a space, then the item's
//! text; lines are separated by `\n`, with none after the last. Reading takes
//! the lines from the top while they start with `#`, and stops at the first
//! line that does not (a blank line, or a later section of the file). From a
//! marker line it drops the `#` and at most one space after it; a line that
//! is the bare `#` holds no item and is passed over.

use vstd::prelude::*;

use crate::list::TodoList;
use crate::text::{chars_of, holds_char, join_strings, join_with, lemma_split_join, split_on, split_text, string_of, views};

verus! {

/// How one item is stored.
pub open spec fn stored_line(item: Seq<char>) -> Seq<char> {
    seq!['#', ' '] + item
}

/// The stored form of a whole list.
pub open spec fn encoded(items: Seq<Seq<char>>) -> Seq<char> {
    join_with(items.map_values(|i: Seq<char>| stored_line(i)), seq!['\n'])
}

/// Whether a stored line belongs to the todo block.
pub open spec fn is_marker_line(l: Seq<char>) -> bool {
    l.len() > 0 && l[0] == '#'
}

/// The item that a marker line holds: the line less its `#` and at most one
/// space after it.
pub open spec fn item_text(l: Seq<char>) -> Seq<char> {
    if l.len() >= 2 && l[1] == ' ' {
        l.skip(2)
    } else {
        l.skip(1)
    }
}

/// The items of the todo block at the top of `ls`.
pub open spec fn decoded_lines(ls: Seq<Seq<char>>) -> Seq<Seq<char>>
    decreases ls.len(),
{
    if ls.len() == 0 || !is_marker_line(ls[0]) {
        Seq::<Seq<char>>::empty()
    } else if ls[0].len() == 1 {
        decoded_lines(ls.drop_first())
    } else {
        seq![item_text(ls[0])] + decoded_lines(ls.drop_first())
    }
}

/// The items that a stored text holds.
pub open spec fn decoded(t: Seq<char>) -> Seq<Seq<char>> {
    decoded_lines(split_on(t, '\n'))
}

/// The stored text of `list`.
pub fn encode_todos(list: &TodoList) -> (r: String)
    ensures
        r@ == encoded(list@),
{
    let items = list.items();
    let mut lines: Vec<String> = Vec::new();
    let mut i: usize = 0;
    while i < items.len()
        invariant
            0 <= i <= items@.len(),
            views(items@) == list@,
            views(lines@) == list@.take(i as int).map_values(|x: Seq<char>| stored_line(x)),
        decreases items@.len() - i,
    {
        let mut line = "# ".to_owned();
        proof {
            reveal_strlit("# ");
        }
        line.append(items[i].as_str());
        assert(line@ =~= stored_line(list@[i as int]));
        let ghost prev = views(lines@);
        lines.push(line);
        assert(views(lines@) =~= prev.push(stored_line(list@[i as int])));
        assert(list@.take(i + 1).map_values(|x: Seq<char>| stored_line(x)) =~= list@.take(
            i as int,
        ).map_values(|x: Seq<char>| stored_line(x)).push(stored_line(list@[i as int])));
        i = i + 1;
    }
    assert(list@.take(list@.len() as int) =~= list@);
    proof {
        reveal_strlit("\n");
    }
    let r = join_strings(&lines, "\n");
    assert("\n"@ =~= seq!['\n']);
    r
}

/// The list that the stored lines `lines` hold.
pub fn decode_lines(lines: &Vec<String>) -> (r: TodoList)
    ensures
        r@ == decoded_lines(views(lines@)),
{
    let ghost ls = views(lines@);
    let mut out: Vec<String> = Vec::new();
    let mut i: usize = 0;
    assert(ls.skip(0) =~= ls);
    assert(views(out@) + decoded_lines(ls) =~= decoded_lines(ls));
    while i < lines.len()
        invariant
            0 <= i <= lines@.len(),
            ls == views(lines@),
            views(out@) + decoded_lines(ls.skip(i as int)) == decoded_lines(ls),
        decreases lines@.len() - i,
    {
        let cs = chars_of(lines[i].as_str());
        assert(ls.skip(i as int)[0] == cs@);
        assert(ls.skip(i as int).drop_first() =~= ls.skip(i + 1));
        if cs.len() == 0 || cs[0] != '#' {
            assert(views(out@) + decoded_lines(ls.skip(i as int)) =~= views(out@));
            return TodoList::from_items(out);
        }
        if cs.len() > 1 {
            let from: usize = if cs[1] == ' ' { 2 } else { 1 };
            let item = string_of(&cs, from, cs.len());
            out.push(item);
            assert(views(out@) + decoded_lines(ls.skip(i + 1)) =~= decoded_lines(ls));
        }
        i = i + 1;
    }
    assert(views(out@) + decoded_lines(ls.skip(i as int)) =~= views(out@));
    TodoList::from_items(out)
}

/// The list that the stored text `text` holds.
pub fn decode_todos(text: &str) -> (r: TodoList)
    ensures
        r@ == decoded(text@),
{
    let lines = split_text(text, '\n');
    decode_lines(&lines)
}

proof fn lemma_decode_stored(items: Seq<Seq<char>>)
    ensures
        decoded_lines(items.map_values(|i: Seq<char>| stored_line(i))) == items,
    decreases items.len(),
{
    let ls = items.map_values(|i: Seq<char>| stored_line(i));
    if items.len() > 0 {
        lemma_decode_stored(items.drop_first());
        assert(ls.drop_first() =~= items.drop_first().map_values(|i: Seq<char>| stored_line(i)));
        assert(ls[0][0] == '#');
        assert(item_text(ls[0]) =~= items[0]);
        assert(decoded_lines(ls) =~= items);
    } else {
        assert(decoded_lines(ls) =~= items);
    }
}

/// Storing a list and reading it back gives the same items in the same
/// order, for items free of newlines.
pub proof fn lemma_round_trip(items: Seq<Seq<char>>)
    requires
        forall|i: int| 0 <= i < items.len() ==> !holds_char(#[trigger] items[i], '\n'),
    ensures
        decoded(encoded(items)) == items,
{
    let ls = items.map_values(|i: Seq<char>| stored_line(i));
    lemma_decode_stored(items);
    if items.len() == 0 {
        assert(encoded(items) =~= Seq::<char>::empty());
        assert(split_on(Seq::<char>::empty(), '\n') =~= seq![Seq::<char>::empty()]);
        assert(decoded(encoded(items)) =~= items);
    } else {
        assert forall|i: int| 0 <= i < ls.len() implies !holds_char(#[trigger] ls[i], '\n') by {
            if holds_char(ls[i], '\n') {
                let j = choose|j: int| 0 <= j < ls[i].len() && ls[i][j] == '\n';
                assert(ls[i][j] == items[i][j - 2]);
            }
        }
        lemma_split_join(ls, '\n');
    }
}

} // verus!
