//! Character-level tools shared by the parsers and encoders of this crate.

use vstd::prelude::*;
use vstd::std_specs::iter::IteratorSpec;

verus! {

broadcast use vstd::string::group_string_axioms;

/// The characters of `s`, in order.
pub fn chars_of(s: &str) -> (r: Vec<char>)
    ensures
        r@ == s@,
{
    let mut it = s.chars();
    let mut out: Vec<char> = Vec::new();
    loop
        invariant
            IteratorSpec::obeys_prophetic_iter_laws(&it),
            IteratorSpec::decrease(&it) is Some,
            out@ + IteratorSpec::remaining(&it) == s@,
        ensures
            out@ == s@,
        decreases IteratorSpec::decrease(&it)->0,
    {
        match it.next() {
            Some(c) => {
                out.push(c);
            },
            None => {
                assert(out@ + IteratorSpec::remaining(&it) =~= out@);
                break;
            },
        }
    }
    out
}

/// Relies on `String::push`: the character is appended at the end.
#[verifier::external_body]
pub(crate) fn push_char(s: &mut String, c: char)
    ensures
        final(s)@ == old(s)@.push(c),
{
    s.push(c)
}

/// Whether `a` and `b` hold the same characters.
pub fn same_text(a: &str, b: &str) -> (r: bool)
    ensures
        r == (a@ == b@),
{
    a.to_owned() == b.to_owned()
}

/// The code of `c` with ASCII capitals taken to small letters.
pub open spec fn folded_code(c: char) -> int {
    if 65 <= c as int <= 90 {
        c as int + 32
    } else {
        c as int
    }
}

/// Whether `w` stands in `t` at `i`, ignoring ASCII case in `t`.
pub open spec fn matches_at_folded(t: Seq<char>, w: Seq<char>, i: int) -> bool {
    forall|j: int| 0 <= j < w.len() ==> folded_code(#[trigger] t[i + j]) == w[j] as int
}

/// Whether `t` holds `w` somewhere, ignoring ASCII case in `t`; `w` is
/// meant to be written in small letters.
pub open spec fn contains_folded(t: Seq<char>, w: Seq<char>) -> bool {
    exists|i: int| 0 <= i && i + w.len() <= t.len() && matches_at_folded(t, w, i)
}

fn same_folded(c: char, w: char) -> (r: bool)
    ensures
        r == (folded_code(c) == w as int),
{
    let u = c as u32;
    let f: u32 = if 65 <= u && u <= 90 {
        u + 32
    } else {
        u
    };
    f == w as u32
}

fn matches_at(t: &Vec<char>, ws: &Vec<char>, i: usize) -> (r: bool)
    requires
        i + ws@.len() <= t@.len(),
    ensures
        r == matches_at_folded(t@, ws@, i as int),
{
    let n = t.len();
    let mut j: usize = 0;
    while j < ws.len()
        invariant
            n == t@.len(),
            i + ws@.len() <= t@.len(),
            0 <= j <= ws@.len(),
            forall|q: int| 0 <= q < j ==> folded_code(#[trigger] t@[i + q]) == ws@[q] as int,
        decreases ws@.len() - j,
    {
        if !same_folded(t[i + j], ws[j]) {
            return false;
        }
        j = j + 1;
    }
    true
}

/// Whether `t` holds `w`, ignoring ASCII case in `t`.
pub fn holds_folded(t: &Vec<char>, w: &str) -> (r: bool)
    ensures
        r == contains_folded(t@, w@),
{
    let ws = chars_of(w);
    let n = t.len();
    if ws.len() == 0 {
        assert(matches_at_folded(t@, w@, 0));
        return true;
    }
    if ws.len() > n {
        return false;
    }
    let last = n - ws.len();
    let mut i: usize = 0;
    while i <= last
        invariant
            ws@ == w@,
            n == t@.len(),
            1 <= ws@.len() <= n,
            last == n - ws@.len(),
            0 <= i <= last + 1,
            forall|k: int| 0 <= k < i ==> !matches_at_folded(t@, w@, k),
        decreases last + 1 - i,
    {
        if matches_at(t, &ws, i) {
            return true;
        }
        i = i + 1;
    }
    false
}

/// Whether `w` stands in `t` at `i`.
pub open spec fn occurs_at(t: Seq<char>, w: Seq<char>, i: int) -> bool {
    forall|j: int| 0 <= j < w.len() ==> #[trigger] t[i + j] == w[j]
}

/// Whether `t` holds `w` somewhere.
pub open spec fn contains_text(t: Seq<char>, w: Seq<char>) -> bool {
    exists|i: int| 0 <= i && i + w.len() <= t.len() && occurs_at(t, w, i)
}

fn occurs_at_exec(t: &Vec<char>, ws: &Vec<char>, i: usize) -> (r: bool)
    requires
        i + ws@.len() <= t@.len(),
    ensures
        r == occurs_at(t@, ws@, i as int),
{
    let n = t.len();
    let mut j: usize = 0;
    while j < ws.len()
        invariant
            n == t@.len(),
            i + ws@.len() <= t@.len(),
            0 <= j <= ws@.len(),
            forall|q: int| 0 <= q < j ==> #[trigger] t@[i + q] == ws@[q],
        decreases ws@.len() - j,
    {
        if t[i + j] != ws[j] {
            return false;
        }
        j = j + 1;
    }
    true
}

/// Whether `t` holds `w`, as `str::contains` tests.
pub fn holds_text(t: &str, w: &str) -> (r: bool)
    ensures
        r == contains_text(t@, w@),
{
    let ts = chars_of(t);
    let ws = chars_of(w);
    let n = ts.len();
    if ws.len() == 0 {
        assert(occurs_at(t@, w@, 0));
        return true;
    }
    if ws.len() > n {
        return false;
    }
    let last = n - ws.len();
    let mut i: usize = 0;
    while i <= last
        invariant
            ws@ == w@,
            ts@ == t@,
            n == t@.len(),
            1 <= ws@.len() <= n,
            last == n - ws@.len(),
            0 <= i <= last + 1,
            forall|k: int| 0 <= k < i ==> !occurs_at(t@, w@, k),
        decreases last + 1 - i,
    {
        if occurs_at_exec(&ts, &ws, i) {
            return true;
        }
        i = i + 1;
    }
    false
}

/// Whether `c` has the Unicode `White_Space` property, as
/// `char::is_whitespace` tests.
pub open spec fn is_white_space(c: char) -> bool {
    let u = c as int;
    ||| 9 <= u <= 13
    ||| u == 0x20
    ||| u == 0x85
    ||| u == 0xa0
    ||| u == 0x1680
    ||| 0x2000 <= u <= 0x200a
    ||| u == 0x2028
    ||| u == 0x2029
    ||| u == 0x202f
    ||| u == 0x205f
    ||| u == 0x3000
}

/// Whether `c` is white space.
pub fn white_space(c: char) -> (r: bool)
    ensures
        r == is_white_space(c),
{
    let u = c as u32;
    (9 <= u && u <= 13) || u == 0x20 || u == 0x85 || u == 0xa0 || u == 0x1680 || (0x2000 <= u && u
        <= 0x200a) || u == 0x2028 || u == 0x2029 || u == 0x202f || u == 0x205f || u == 0x3000
}

/// The words of `t`: its longest runs of characters that are not white
/// space, in order.
pub open spec fn words(t: Seq<char>) -> Seq<Seq<char>>
    decreases t.len(),
{
    if t.len() == 0 {
        Seq::<Seq<char>>::empty()
    } else {
        let prev = words(t.drop_last());
        if is_white_space(t.last()) {
            prev
        } else if t.len() >= 2 && !is_white_space(t[t.len() - 2]) {
            prev.update(prev.len() - 1, prev.last().push(t.last()))
        } else {
            prev.push(seq![t.last()])
        }
    }
}

proof fn lemma_words_open(t: Seq<char>)
    requires
        t.len() > 0,
        !is_white_space(t.last()),
    ensures
        words(t).len() > 0,
    decreases t.len(),
{
    if t.len() >= 2 && !is_white_space(t[t.len() - 2]) {
        assert(t.drop_last().last() == t[t.len() - 2]);
        lemma_words_open(t.drop_last());
    }
}

/// The words of `t`, as `str::split_whitespace` gives them.
pub fn split_words(t: &str) -> (r: Vec<String>)
    ensures
        views(r@) == words(t@),
{
    let cs = chars_of(t);
    let mut out: Vec<String> = Vec::new();
    let mut cur = String::new();
    let mut i: usize = 0;
    while i < cs.len()
        invariant
            0 <= i <= cs@.len(),
            cs@ == t@,
            i > 0 && !is_white_space(cs@[i - 1]) ==> views(out@).push(cur@) == words(cs@.take(i as int)),
            !(i > 0 && !is_white_space(cs@[i - 1])) ==> views(out@) == words(cs@.take(i as int)) && cur@.len() == 0,
        decreases cs@.len() - i,
    {
        let c = cs[i];
        let ghost pre = cs@.take(i as int);
        proof {
            assert(cs@.take(i + 1).drop_last() =~= pre);
            assert(cs@.take(i + 1).last() == c);
            if i > 0 {
                assert(cs@.take(i + 1)[i - 1] == cs@[i - 1]);
                assert(pre.last() == cs@[i - 1]);
                if !is_white_space(cs@[i - 1]) {
                    lemma_words_open(pre);
                }
            }
        }
        let open = i > 0 && !white_space(cs[i - 1]);
        if white_space(c) {
            if open {
                let w = cur;
                out.push(w);
                cur = String::new();
            }
        } else {
            push_char(&mut cur, c);
            proof {
                if open {
                    assert(views(out@).push(cur@) =~= words(pre).update(
                        words(pre).len() - 1, words(pre).last().push(c)));
                } else {
                    assert(cur@ =~= seq![c]);
                    assert(views(out@).push(cur@) =~= words(pre).push(seq![c]));
                }
            }
        }
        i = i + 1;
    }
    assert(cs@.take(cs@.len() as int) =~= cs@);
    if cs.len() > 0 && !white_space(cs[cs.len() - 1]) {
        out.push(cur);
    }
    out
}

/// `t` without its leading white space.
pub open spec fn trim_start(t: Seq<char>) -> Seq<char>
    decreases t.len(),
{
    if t.len() > 0 && is_white_space(t[0]) {
        trim_start(t.drop_first())
    } else {
        t
    }
}

/// `t` without its trailing white space.
pub open spec fn trim_end(t: Seq<char>) -> Seq<char>
    decreases t.len(),
{
    if t.len() > 0 && is_white_space(t.last()) {
        trim_end(t.drop_last())
    } else {
        t
    }
}

/// `t` without its leading and trailing white space.
pub open spec fn trimmed(t: Seq<char>) -> Seq<char> {
    trim_end(trim_start(t))
}

/// `t` without its leading and trailing white space, as `str::trim` gives
/// it.
pub fn trim_text(t: &str) -> (r: String)
    ensures
        r@ == trimmed(t@),
{
    let cs = chars_of(t);
    let mut a: usize = 0;
    assert(cs@.skip(0) =~= cs@);
    while a < cs.len() && white_space(cs[a])
        invariant
            0 <= a <= cs@.len(),
            trim_start(cs@) == trim_start(cs@.skip(a as int)),
        decreases cs@.len() - a,
    {
        assert(cs@.skip(a as int).drop_first() =~= cs@.skip(a + 1));
        a = a + 1;
    }
    let mut b: usize = cs.len();
    assert(cs@.skip(a as int) =~= cs@.subrange(a as int, b as int));
    while b > a && white_space(cs[b - 1])
        invariant
            a <= b <= cs@.len(),
            trimmed(cs@) == trim_end(cs@.subrange(a as int, b as int)),
        decreases b,
    {
        assert(cs@.subrange(a as int, b as int).drop_last() =~= cs@.subrange(a as int, b - 1));
        b = b - 1;
    }
    assert(cs@ == t@);
    string_of(&cs, a, b)
}

/// The index of the first `c` in `t`, or the length of `t` where there is
/// none.
pub open spec fn first_index(t: Seq<char>, c: char) -> nat
    decreases t.len(),
{
    if t.len() == 0 || t[0] == c {
        0
    } else {
        1 + first_index(t.drop_first(), c)
    }
}

/// Finds the first `c` in `t`.
pub fn find_char(t: &Vec<char>, c: char) -> (r: usize)
    ensures
        r == first_index(t@, c),
        r <= t@.len(),
        r < t@.len() ==> t@[r as int] == c,
        forall|j: int| 0 <= j < r ==> t@[j] != c,
{
    let mut i: usize = 0;
    assert(t@.skip(0) =~= t@);
    while i < t.len() && t[i] != c
        invariant
            0 <= i <= t@.len(),
            first_index(t@, c) == i + first_index(t@.skip(i as int), c),
            forall|j: int| 0 <= j < i ==> t@[j] != c,
        decreases t@.len() - i,
    {
        assert(t@.skip(i as int).drop_first() =~= t@.skip(i + 1));
        i = i + 1;
    }
    i
}

/// A new string holding `cs[from..to]`.
pub fn string_of(cs: &Vec<char>, from: usize, to: usize) -> (r: String)
    requires
        from <= to <= cs@.len(),
    ensures
        r@ == cs@.subrange(from as int, to as int),
{
    let mut out = String::new();
    let mut i: usize = from;
    while i < to
        invariant
            from <= i <= to <= cs@.len(),
            out@ == cs@.subrange(from as int, i as int),
        decreases to - i,
    {
        push_char(&mut out, cs[i]);
        assert(cs@.subrange(from as int, i + 1) =~= cs@.subrange(from as int, i as int).push(cs@[i as int]));
        i = i + 1;
    }
    out
}

/// The pieces of `t` between occurrences of `sep`; a text with no `sep`
/// is one piece, and the empty text is one empty piece.
pub open spec fn split_on(t: Seq<char>, sep: char) -> Seq<Seq<char>>
    decreases t.len(),
{
    if t.len() == 0 {
        seq![Seq::<char>::empty()]
    } else {
        let prev = split_on(t.drop_last(), sep);
        if t.last() == sep {
            prev.push(Seq::<char>::empty())
        } else {
            prev.update(prev.len() - 1, prev.last().push(t.last()))
        }
    }
}

/// The pieces of `ps` joined into one text, with `sep` between neighbours.
pub open spec fn join_with(ps: Seq<Seq<char>>, sep: Seq<char>) -> Seq<char>
    decreases ps.len(),
{
    if ps.len() == 0 {
        Seq::<char>::empty()
    } else if ps.len() == 1 {
        ps[0]
    } else {
        join_with(ps.drop_last(), sep) + sep + ps.last()
    }
}

/// The views of a sequence of strings.
pub open spec fn views(v: Seq<String>) -> Seq<Seq<char>> {
    v.map_values(|s: String| s@)
}

/// Splitting gives at least one piece.
pub proof fn lemma_split_nonempty(t: Seq<char>, sep: char)
    ensures
        split_on(t, sep).len() >= 1,
    decreases t.len(),
{
    if t.len() > 0 {
        lemma_split_nonempty(t.drop_last(), sep);
    }
}

/// Splits `t` at each `sep`.
pub fn split_text(t: &str, sep: char) -> (r: Vec<String>)
    ensures
        views(r@) == split_on(t@, sep),
{
    let cs = chars_of(t);
    let mut out: Vec<String> = Vec::new();
    let mut cur = String::new();
    let mut i: usize = 0;
    while i < cs.len()
        invariant
            0 <= i <= cs@.len(),
            cs@ == t@,
            views(out@).push(cur@) == split_on(cs@.take(i as int), sep),
        decreases cs@.len() - i,
    {
        let c = cs[i];
        proof {
            assert(cs@.take(i + 1).drop_last() =~= cs@.take(i as int));
            lemma_split_nonempty(cs@.take(i as int), sep);
        }
        if c == sep {
            let piece = cur;
            out.push(piece);
            cur = String::new();
            assert(views(out@).push(cur@) =~= split_on(cs@.take(i as int), sep).push(Seq::<char>::empty()));
        } else {
            push_char(&mut cur, c);
            assert(views(out@).push(cur@) =~= split_on(cs@.take(i as int), sep).update(
                views(out@).len() as int, split_on(cs@.take(i as int), sep).last().push(c)));
        }
        i = i + 1;
    }
    out.push(cur);
    assert(cs@.take(cs@.len() as int) =~= cs@);
    assert(views(out@) =~= split_on(t@, sep));
    out
}

/// Joins `ps` with `sep` between neighbours.
pub fn join_strings(ps: &Vec<String>, sep: &str) -> (r: String)
    ensures
        r@ == join_with(views(ps@), sep@),
{
    let mut out = String::new();
    let mut i: usize = 0;
    while i < ps.len()
        invariant
            0 <= i <= ps@.len(),
            out@ == join_with(views(ps@).take(i as int), sep@),
        decreases ps@.len() - i,
    {
        assert(views(ps@).take(i + 1).drop_last() =~= views(ps@).take(i as int));
        if i > 0 {
            out.append(sep);
        }
        out.append(ps[i].as_str());
        proof {
            if i == 0 {
                assert(join_with(views(ps@).take(0), sep@) =~= Seq::<char>::empty());
                assert(out@ =~= ps@[0]@);
            }
        }
        i = i + 1;
    }
    assert(views(ps@).take(ps@.len() as int) =~= views(ps@));
    out
}

/// Whether `c` occurs in `t`.
pub open spec fn holds_char(t: Seq<char>, c: char) -> bool {
    exists|i: int| 0 <= i < t.len() && t[i] == c
}

proof fn lemma_split_append(a: Seq<char>, b: Seq<char>, sep: char)
    requires
        !holds_char(b, sep),
    ensures
        split_on(a + b, sep) == split_on(a, sep).update(
            split_on(a, sep).len() - 1,
            split_on(a, sep).last() + b,
        ),
    decreases b.len(),
{
    lemma_split_nonempty(a, sep);
    if b.len() == 0 {
        assert(a + b =~= a);
        assert(split_on(a, sep).last() + b =~= split_on(a, sep).last());
        assert(split_on(a, sep).update(split_on(a, sep).len() - 1, split_on(a, sep).last())
            =~= split_on(a, sep));
    } else {
        let b0 = b.drop_last();
        assert(!holds_char(b0, sep)) by {
            if holds_char(b0, sep) {
                let i = choose|i: int| 0 <= i < b0.len() && b0[i] == sep;
                assert(b[i] == sep);
            }
        }
        lemma_split_append(a, b0, sep);
        assert((a + b).drop_last() =~= a + b0);
        assert(b.last() != sep) by {
            assert(b[b.len() - 1] == b.last());
        }
        assert((split_on(a, sep).last() + b0).push(b.last()) =~= split_on(a, sep).last() + b);
        lemma_split_nonempty(a + b0, sep);
        assert(split_on(a + b, sep) =~= split_on(a, sep).update(
            split_on(a, sep).len() - 1,
            split_on(a, sep).last() + b,
        ));
    }
}

/// Splitting at `sep` undoes joining with `sep`, for at least one piece
/// and pieces free of `sep`.
pub proof fn lemma_split_join(ps: Seq<Seq<char>>, sep: char)
    requires
        ps.len() >= 1,
        forall|i: int| 0 <= i < ps.len() ==> !holds_char(#[trigger] ps[i], sep),
    ensures
        split_on(join_with(ps, seq![sep]), sep) == ps,
    decreases ps.len(),
{
    let e = Seq::<char>::empty();
    if ps.len() == 1 {
        lemma_split_append(e, ps[0], sep);
        assert(e + ps[0] =~= ps[0]);
        assert(split_on(e, sep) =~= seq![e]);
        assert(e + ps[0] =~= ps[0]);
        assert(split_on(ps[0], sep) =~= ps);
    } else {
        let front = ps.drop_last();
        lemma_split_join(front, sep);
        let a = join_with(front, seq![sep]) + seq![sep];
        assert(a.drop_last() =~= join_with(front, seq![sep]));
        assert(a.last() == sep);
        lemma_split_append(a, ps.last(), sep);
        lemma_split_nonempty(a, sep);
        assert(split_on(a, sep) == front.push(e));
        assert(e + ps.last() =~= ps.last());
        assert(front.push(e).update(front.len() as int, ps.last()) =~= ps);
    }
}

} // verus!
