//! The command line: which of the banner's modes runs, and the one-shot edit
//! verbs `add`, `done` / `check` and `fix`.

use vstd::prelude::*;

use crate::error::TodoError;
use crate::list::EditCommand;
use crate::number::{i64_literal, parse_i64};
use crate::text::{join_strings, join_with, same_text, split_on, split_text, views};

verus! {

/// What one run of the program does.
#[derive(Clone, Debug, PartialEq, Eq)]
pub enum Invocation {
    /// Show the banner only (no arguments).
    Show,
    /// Open the storage file in an external editor (`edit`).
    OpenEditor,
    /// Run the interactive menu (`edit menu`).
    Menu,
    /// Apply one edit command (`edit <verb> <args...>`).
    Edit(EditCommand),
}

/// The positions that a `done` argument lists: integers separated by
/// commas, each fitting an `i64`; `None` where a piece is no such integer.
pub open spec fn index_list(t: Seq<char>) -> Option<Seq<i64>> {
    if all_integers(split_on(t, ',')) {
        Some(as_indices(split_on(t, ',')))
    } else {
        None
    }
}

/// Whether each of `ps` is an integer that fits an `i64`.
pub open spec fn all_integers(ps: Seq<Seq<char>>) -> bool {
    forall|i: int| 0 <= i < ps.len() ==> (#[trigger] i64_literal(ps[i])) is Some
}

/// The `i64` values of the integers `ps`.
pub open spec fn as_indices(ps: Seq<Seq<char>>) -> Seq<i64> {
    ps.map_values(|p: Seq<char>| i64_literal(p)->0)
}

/// The words joined with single spaces, as the verbs take their text.
pub open spec fn spaced(ws: Seq<Seq<char>>) -> Seq<char> {
    join_with(ws, seq![' '])
}

/// Whether `verb` removes items.
pub open spec fn is_removal_verb(verb: Seq<char>) -> bool {
    verb == "done"@ || verb == "check"@
}

/// Reads the positions of a `done` argument.
pub fn parse_index_list(t: &str) -> (r: Option<Vec<i64>>)
    ensures
        match index_list(t@) {
            Some(ks) => r is Some && r->0@ == ks,
            None => r is None,
        },
{
    let pieces = split_text(t, ',');
    let ghost ps = split_on(t@, ',');
    let mut out: Vec<i64> = Vec::new();
    let mut i: usize = 0;
    while i < pieces.len()
        invariant
            0 <= i <= pieces@.len(),
            ps == split_on(t@, ','),
            views(pieces@) == ps,
            forall|j: int| 0 <= j < i ==> (#[trigger] i64_literal(ps[j])) is Some,
            out@ == as_indices(ps.take(i as int)),
        decreases pieces@.len() - i,
    {
        assert(pieces@[i as int]@ == ps[i as int]);
        match parse_i64(pieces[i].as_str()) {
            Some(k) => {
                out.push(k);
                assert(out@ =~= as_indices(ps.take(i + 1)));
            },
            None => {
                assert(i64_literal(ps[i as int]) is None);
                return None;
            },
        }
        i = i + 1;
    }
    assert(ps.take(ps.len() as int) =~= ps);
    Some(out)
}

/// Whether `r` is what the verb `verb`, followed by the words `args`,
/// stands for:
/// - `add <text...>`: the words joined with spaces become a new item;
/// - `done <i,j,...>` or `check <i,j,...>`: the words joined with spaces,
///   split at commas, each an integer position;
/// - `fix <i> <text...>`: position `i`, and the rest joined with spaces.
/// A position that is not an integer, or a missing one, is
/// `InvalidArgument`; any other verb is `UnknownVerb`.
pub open spec fn command_matches(
    verb: Seq<char>,
    args: Seq<Seq<char>>,
    r: Result<EditCommand, TodoError>,
) -> bool {
    if verb == "add"@ {
        match r {
            Ok(EditCommand::Add(t)) => t@ == spaced(args),
            _ => false,
        }
    } else if is_removal_verb(verb) {
        match index_list(spaced(args)) {
            Some(ks) => match r {
                Ok(EditCommand::RemoveMany(v)) => v@ == ks,
                _ => false,
            },
            None => r == Err::<EditCommand, TodoError>(TodoError::InvalidArgument),
        }
    } else if verb == "fix"@ {
        if args.len() == 0 || i64_literal(args[0]) is None {
            r == Err::<EditCommand, TodoError>(TodoError::InvalidArgument)
        } else {
            match r {
                Ok(EditCommand::Replace(k, t)) => k == i64_literal(args[0])->0 && t@ == spaced(
                    args.drop_first(),
                ),
                _ => false,
            }
        }
    } else {
        match r {
            Err(TodoError::UnknownVerb(v)) => v@ == verb,
            _ => false,
        }
    }
}

/// Builds the edit command that `verb` names, from the words `args` that
/// follow it.
pub fn parse_command(verb: &str, args: &Vec<String>) -> (r: Result<EditCommand, TodoError>)
    ensures
        command_matches(verb@, views(args@), r),
{
    proof {
        reveal_strlit(" ");
        reveal_strlit("add");
        reveal_strlit("done");
        reveal_strlit("check");
        reveal_strlit("fix");
        assert("add"@ != "done"@ && "add"@ != "check"@ && "add"@ != "fix"@) by {
            assert("add"@[0] != "fix"@[0]);
        }
        assert("fix"@ != "done"@ && "fix"@ != "check"@) by {
            assert("fix"@[0] != "done"@[0]);
            assert("fix"@[0] != "check"@[0]);
        }
    }
    assert(" "@ =~= seq![' ']);
    if same_text(verb, "add") {
        Ok(EditCommand::Add(join_strings(args, " ")))
    } else if same_text(verb, "done") || same_text(verb, "check") {
        let joined = join_strings(args, " ");
        match parse_index_list(joined.as_str()) {
            Some(ks) => Ok(EditCommand::RemoveMany(ks)),
            None => Err(TodoError::InvalidArgument),
        }
    } else if same_text(verb, "fix") {
        if args.len() == 0 {
            return Err(TodoError::InvalidArgument);
        }
        match parse_i64(args[0].as_str()) {
            Some(k) => {
                let mut rest: Vec<String> = Vec::new();
                let mut i: usize = 1;
                while i < args.len()
                    invariant
                        1 <= i <= args@.len(),
                        views(rest@) == views(args@).subrange(1, i as int),
                    decreases args@.len() - i,
                {
                    let ghost prev = views(rest@);
                    let w = args[i].clone();
                    rest.push(w);
                    assert(views(rest@) =~= prev.push(args@[i as int]@));
                    assert(views(rest@) =~= views(args@).subrange(1, i + 1));
                    i = i + 1;
                }
                assert(views(args@).subrange(1, args@.len() as int) =~= views(args@).drop_first());
                Ok(EditCommand::Replace(k, join_strings(&rest, " ")))
            },
            None => Err(TodoError::InvalidArgument),
        }
    } else {
        Err(TodoError::UnknownVerb(verb.to_owned()))
    }
}

/// What the arguments `args` (the program's name first) ask for:
/// - no argument: `Show`;
/// - a first argument other than `edit`: `UnknownVerb` naming it;
/// - `edit` alone: `OpenEditor`;
/// - `edit menu`: `Menu`;
/// - `edit <verb> <args...>`: the edit command, as `command_matches` says.
pub open spec fn invocation_matches(args: Seq<Seq<char>>, r: Result<Invocation, TodoError>) -> bool {
    if args.len() <= 1 {
        r == Ok::<Invocation, TodoError>(Invocation::Show)
    } else if args[1] != "edit"@ {
        match r {
            Err(TodoError::UnknownVerb(v)) => v@ == args[1],
            _ => false,
        }
    } else if args.len() == 2 {
        r == Ok::<Invocation, TodoError>(Invocation::OpenEditor)
    } else if args[2] == "menu"@ {
        r == Ok::<Invocation, TodoError>(Invocation::Menu)
    } else {
        match r {
            Ok(Invocation::Edit(c)) => command_matches(args[2], args.skip(3), Ok(c)),
            Ok(_) => false,
            Err(e) => command_matches(args[2], args.skip(3), Err(e)),
        }
    }
}

/// Reads the command line `args`, the program's name first.
pub fn parse_invocation(args: &Vec<String>) -> (r: Result<Invocation, TodoError>)
    ensures
        invocation_matches(views(args@), r),
{
    if args.len() <= 1 {
        return Ok(Invocation::Show);
    }
    if !same_text(args[1].as_str(), "edit") {
        return Err(TodoError::UnknownVerb(args[1].clone()));
    }
    if args.len() == 2 {
        return Ok(Invocation::OpenEditor);
    }
    if same_text(args[2].as_str(), "menu") {
        return Ok(Invocation::Menu);
    }
    let mut rest: Vec<String> = Vec::new();
    let mut i: usize = 3;
    while i < args.len()
        invariant
            3 <= i <= args@.len(),
            views(rest@) == views(args@).subrange(3, i as int),
        decreases args@.len() - i,
    {
        let ghost prev = views(rest@);
        let w = args[i].clone();
        rest.push(w);
        assert(views(rest@) =~= prev.push(args@[i as int]@));
        assert(views(rest@) =~= views(args@).subrange(3, i + 1));
        i = i + 1;
    }
    assert(views(args@).subrange(3, args@.len() as int) =~= views(args@).skip(3));
    match parse_command(args[2].as_str(), &rest) {
        Ok(c) => Ok(Invocation::Edit(c)),
        Err(e) => Err(e),
    }
}

} // verus!
