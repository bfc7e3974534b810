//! The text lines of the banner that do not depend on the terminal.

use vstd::prelude::*;

use crate::list::TodoList;
use crate::number::{decimal, decimal_string};

verus! {

/// How the item `item` at 1-based position `i` is listed.
pub open spec fn numbered_line(i: nat, item: Seq<char>) -> Seq<char> {
    "  "@ + decimal(i) + ". "@ + item
}

/// The listing of `s`, one line per item, numbered from 1.
pub open spec fn listing(s: Seq<Seq<char>>) -> Seq<Seq<char>> {
    Seq::new(s.len(), |i: int| numbered_line((i + 1) as nat, s[i]))
}

/// The list's items, each on a line of its own, numbered from 1.
pub fn todo_lines(list: &TodoList) -> (r: Vec<String>)
    ensures
        r@.len() == list@.len(),
        forall|i: int| 0 <= i < r@.len() ==> #[trigger] r@[i]@ == listing(list@)[i],
{
    let items = list.items();
    let mut out: Vec<String> = Vec::new();
    let mut i: usize = 0;
    while i < items.len()
        invariant
            0 <= i <= items@.len(),
            crate::text::views(items@) == list@,
            out@.len() == i,
            forall|j: int| 0 <= j < i ==> #[trigger] out@[j]@ == listing(list@)[j],
        decreases items@.len() - i,
    {
        let mut line = "  ".to_owned();
        line.append(decimal_string((i + 1) as u64).as_str());
        line.append(". ");
        line.append(items[i].as_str());
        assert(line@ == numbered_line((i + 1) as nat, list@[i as int]));
        out.push(line);
        i = i + 1;
    }
    out
}

/// A rule of `n` hyphens.
pub fn hyphens(n: usize) -> (r: String)
    ensures
        r@ == Seq::new(n as nat, |_i: int| '-'),
{
    let mut out = String::new();
    let mut i: usize = 0;
    while i < n
        invariant
            0 <= i <= n,
            out@ == Seq::new(i as nat, |_i: int| '-'),
        decreases n - i,
    {
        crate::text::push_char(&mut out, '-');
        assert(out@ =~= Seq::new((i + 1) as nat, |_i: int| '-'));
        i = i + 1;
    }
    out
}

} // verus!
