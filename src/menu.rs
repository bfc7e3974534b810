//! The interactive menu, one input line at a time.
//!
//! The caller shows the list, prompts, reads one line and hands it to
//! `MenuSession::step`, until the session ends. A line asks for:
//! - the end, where it is `!` or holds `quit` or `exit` in any ASCII case
//!   (this is checked first);
//! - adding an item, where it starts with `#`: the rest, less at most one
//!   space after the `#`;
//! - removing an item, where it is `-` and then digits only: the digits
//!   give the 1-based position; a position that names no item is reported
//!   and changes nothing;
//! - anything else is reported as invalid, and the menu goes on.
//! The end of the input ends the session as `!` does.

use vstd::prelude::*;

use crate::codec::item_text;
use crate::list::{TodoList, in_range, lemma_remove_one, without_positions};
use crate::number::{all_digits, is_digit, is_digit_char, digits_value, parse_u64, unsigned_literal};
use crate::text::{lemma_split_nonempty, chars_of, contains_folded, holds_folded, split_on, split_text, string_of, views};

verus! {

/// What the menu made of one line of input.
#[derive(Clone, Copy, Debug, PartialEq, Eq, Structural)]
pub enum MenuReply {
    /// The session is over: an exit line, or the end of the input.
    Finished,
    /// An item was added at the end.
    Added,
    /// An item was removed.
    Removed,
    /// A removal named a position with no item; nothing changed.
    OutOfRange,
    /// The line asked for nothing that the menu knows; nothing changed.
    Invalid,
}

/// Whether the line ends the session.
pub open spec fn is_exit_line(l: Seq<char>) -> bool {
    l == seq!['!'] || contains_folded(l, "quit"@) || contains_folded(l, "exit"@)
}

/// Whether the line is `-` and then one digit or more, and nothing else.
pub open spec fn is_removal_line(l: Seq<char>) -> bool {
    l.len() > 1 && l[0] == '-' && all_digits(l.drop_first())
}

/// The list after `line`, and the reply to it, from the list `s`; `None`
/// stands for the end of the input.
pub open spec fn menu_step(s: Seq<Seq<char>>, line: Option<Seq<char>>) -> (Seq<Seq<char>>, MenuReply) {
    match line {
        None => (s, MenuReply::Finished),
        Some(l) => if is_exit_line(l) {
            (s, MenuReply::Finished)
        } else if l.len() > 0 && l[0] == '#' {
            (s.push(item_text(l)), MenuReply::Added)
        } else if is_removal_line(l) {
            let k = digits_value(l.drop_first()) as int;
            if in_range(k, s.len() as int) {
                (without_positions(s, set![k]), MenuReply::Removed)
            } else {
                (s, MenuReply::OutOfRange)
            }
        } else {
            (s, MenuReply::Invalid)
        },
    }
}

/// The list that the lines `ls` leave, from the list `s`, once the session
/// has ended at an exit line or at the end of the lines.
pub open spec fn menu_run(s: Seq<Seq<char>>, ls: Seq<Seq<char>>) -> Seq<Seq<char>>
    decreases ls.len(),
{
    if ls.len() == 0 {
        s
    } else {
        let (next, reply) = menu_step(s, Some(ls[0]));
        if reply == MenuReply::Finished {
            next
        } else {
            menu_run(next, ls.drop_first())
        }
    }
}

/// The lines of an input stream: the pieces between newlines, less the
/// empty piece after a final newline.
pub open spec fn input_lines(t: Seq<char>) -> Seq<Seq<char>> {
    let ps = split_on(t, '\n');
    if ps.last().len() == 0 {
        ps.drop_last()
    } else {
        ps
    }
}

/// The menu's working list and whether it still takes input.
#[derive(Clone, Debug, PartialEq, Eq)]
pub struct MenuSession {
    pub list: TodoList,
    pub active: bool,
}

impl MenuSession {
    /// A session over `list`, taking input.
    pub fn new(list: TodoList) -> (r: MenuSession)
        ensures
            r.list@ == list@,
            r.active,
    {
        MenuSession { list, active: true }
    }

    /// Takes one line of input (`None` for the end of the input). A session
    /// that has ended takes no more: the line changes nothing.
    pub fn step(&mut self, line: Option<&str>) -> (r: MenuReply)
        ensures
            old(self).active ==> ({
                let (next, reply) = menu_step(
                    old(self).list@,
                    match line {
                        Some(l) => Some(l@),
                        None => None,
                    },
                );
                &&& final(self).list@ == next
                &&& r == reply
                &&& final(self).active == (reply != MenuReply::Finished)
            }),
            !old(self).active ==> *final(self) == *old(self) && r == MenuReply::Finished,
    {
        if !self.active {
            return MenuReply::Finished;
        }
        let l = match line {
            None => {
                self.active = false;
                return MenuReply::Finished;
            },
            Some(l) => l,
        };
        let cs = chars_of(l);
        proof {
            reveal_strlit("quit");
            reveal_strlit("exit");
        }
        if (cs.len() == 1 && cs[0] == '!') || holds_folded(&cs, "quit") || holds_folded(&cs, "exit") {
            assert(cs.len() == 1 && cs[0] == '!' ==> cs@ =~= seq!['!']);
            self.active = false;
            return MenuReply::Finished;
        }
        assert(cs@ != seq!['!']) by {
            if cs@ == seq!['!'] {
                assert(cs@.len() == 1 && cs@[0] == '!');
            }
        }
        if cs.len() > 0 && cs[0] == '#' {
            let from: usize = if cs.len() >= 2 && cs[1] == ' ' { 2 } else { 1 };
            let item = string_of(&cs, from, cs.len());
            assert(item@ == item_text(l@));
            self.list.add(item);
            return MenuReply::Added;
        }
        if cs.len() > 1 && cs[0] == '-' {
            let digits = string_of(&cs, 1, cs.len());
            assert(digits@ =~= l@.drop_first());
            let mut all = true;
            let mut i: usize = 1;
            while i < cs.len()
                invariant
                    1 <= i <= cs@.len(),
                    all == (forall|j: int| 1 <= j < i ==> is_digit(#[trigger] cs@[j])),
                decreases cs@.len() - i,
            {
                if !is_digit_char(cs[i]) {
                    all = false;
                }
                i = i + 1;
            }
            assert(all == all_digits(l@.drop_first())) by {
                if all {
                    assert forall|j: int| 0 <= j < l@.drop_first().len() implies is_digit(
                        #[trigger] l@.drop_first()[j],
                    ) by {
                        assert(is_digit(cs@[j + 1]));
                    }
                } else {
                    let j = choose|j: int| 1 <= j < cs@.len() && !is_digit(#[trigger] cs@[j]);
                    assert(!is_digit(l@.drop_first()[j - 1]));
                }
            }
            if all {
                let n = self.list.len();
                let parsed = parse_u64(digits.as_str());
                assert(unsigned_literal(digits@) == Some(digits_value(digits@))) by {
                    if digits@.len() > 0 && digits@[0] == '+' {
                        assert(!is_digit(digits@[0]));
                    }
                }
                match parsed {
                    Some(k) => {
                        if k >= 1 && k <= n as u64 {
                            proof {
                                lemma_remove_one(old(self).list@, k as int);
                            }
                            let ghost before = self.list.items@;
                            self.list.items.remove((k - 1) as usize);
                            assert(self.list@ =~= views(before).remove(k - 1));
                            return MenuReply::Removed;
                        }
                        return MenuReply::OutOfRange;
                    },
                    None => {
                        return MenuReply::OutOfRange;
                    },
                }
            }
        }
        MenuReply::Invalid
    }
}

/// Runs the menu over a whole input stream, from the list `list`, and gives
/// the list that it leaves.
pub fn run_menu(list: TodoList, input: &str) -> (r: TodoList)
    ensures
        r@ == menu_run(list@, input_lines(input@)),
{
    let pieces = split_text(input, '\n');
    let ghost ps = split_on(input@, '\n');
    proof {
        lemma_split_nonempty(input@, '\n');
    }
    let mut count = pieces.len();
    if pieces[count - 1].as_str().is_empty() {
        count = count - 1;
    }
    let ghost ls = input_lines(input@);
    assert(ls =~= views(pieces@).take(count as int));
    let mut session = MenuSession::new(list);
    assert(ls.skip(0) =~= ls);
    let mut i: usize = 0;
    while i < count
        invariant
            0 <= i <= count <= pieces@.len(),
            ls == views(pieces@).take(count as int),
            ls == input_lines(input@),
            session.active,
            menu_run(session.list@, ls.skip(i as int)) == menu_run(list@, ls),
        decreases count - i,
    {
        assert(ls.skip(i as int).len() > 0);
        assert(ls.skip(i as int)[0] == pieces@[i as int]@);
        assert(ls.skip(i as int).drop_first() =~= ls.skip(i + 1));
        let ghost before = session.list@;
        let reply = session.step(Some(pieces[i].as_str()));
        if reply == MenuReply::Finished {
            assert(menu_step(before, Some(ls.skip(i as int)[0])) == (session.list@, reply));
            assert(menu_run(before, ls.skip(i as int)) == session.list@);
            return session.list;
        }
        i = i + 1;
    }
    assert(ls.skip(i as int) =~= Seq::<Seq<char>>::empty());
    session.step(None);
    session.list
}

} // verus!
