//! The host figures that the banner shows, read from the text of the
//! kernel's files: memory from `/proc/meminfo`, the kernel release from
//! `/proc/version`, the CPU temperature from a sensor file, and the uptime.

use vstd::prelude::*;

use crate::number::{i32_literal, parse_i32, parse_u64, u64_literal};
use crate::text::{
    chars_of, find_char, first_index, holds_char, same_text, split_on, split_text, split_words,
    string_of, trim_text, trimmed, views, words,
};

verus! {

/// The number at the head of a memory field's value: its first word, read
/// as an unsigned integer.
pub open spec fn memory_value(v: Seq<char>) -> Option<u64> {
    if words(v).len() > 0 {
        u64_literal(words(v)[0])
    } else {
        None
    }
}

/// Reads the number at the head of a memory field's value, such as
/// `"   16318460 kB"`; `None` where there is no word, or the first word is
/// not a number that fits a `u64`.
pub fn parse_memory_value(value: &str) -> (r: Option<u64>)
    ensures
        r == memory_value(value@),
{
    let ws = split_words(value);
    if ws.len() == 0 {
        return None;
    }
    parse_u64(ws[0].as_str())
}

/// The figures (total, available) after one line of `/proc/meminfo`, from
/// the figures `(t, a)`: a `MemTotal` or `MemAvailable` line sets its
/// figure, other lines leave both; `None` where a value is no number.
pub open spec fn meminfo_line(l: Seq<char>, t: u64, a: u64) -> Option<(u64, u64)> {
    if !holds_char(l, ':') {
        Some((t, a))
    } else {
        let k = first_index(l, ':') as int;
        let key = trimmed(l.take(k));
        let value = l.skip(k + 1);
        if key == "MemTotal"@ {
            match memory_value(value) {
                Some(v) => Some((v, a)),
                None => None,
            }
        } else if key == "MemAvailable"@ {
            match memory_value(value) {
                Some(v) => Some((t, v)),
                None => None,
            }
        } else {
            Some((t, a))
        }
    }
}

/// The figures (total, available) after the lines `ls`, both 0 where no
/// line sets them.
pub open spec fn meminfo_figures(ls: Seq<Seq<char>>) -> Option<(u64, u64)>
    decreases ls.len(),
{
    if ls.len() == 0 {
        Some((0u64, 0u64))
    } else {
        match meminfo_figures(ls.drop_last()) {
            Some((t, a)) => meminfo_line(ls.last(), t, a),
            None => None,
        }
    }
}

/// The memory in use and the total memory, in KiB, that a `/proc/meminfo`
/// text gives.
pub open spec fn memory_usage(text: Seq<char>) -> Option<(u64, u64)> {
    match meminfo_figures(split_on(text, '\n')) {
        Some((t, a)) => if a <= t {
            Some(((t - a) as u64, t))
        } else {
            None
        },
        None => None,
    }
}

/// Reads the memory in use and the total memory, in KiB, from the text of
/// `/proc/meminfo`: total less available. `None` where a value is no
/// number, or more is available than there is in all.
pub fn parse_meminfo(text: &str) -> (r: Option<(u64, u64)>)
    ensures
        r == memory_usage(text@),
{
    proof {
        reveal_strlit("MemTotal");
        reveal_strlit("MemAvailable");
    }
    let lines = split_text(text, '\n');
    let ghost ls = split_on(text@, '\n');
    let mut total: u64 = 0;
    let mut available: u64 = 0;
    let mut i: usize = 0;
    assert(ls.take(0) =~= Seq::<Seq<char>>::empty());
    while i < lines.len()
        invariant
            0 <= i <= lines@.len(),
            ls == split_on(text@, '\n'),
            views(lines@) == ls,
            meminfo_figures(ls.take(i as int)) == Some((total, available)),
        decreases lines@.len() - i,
    {
        assert(ls.take(i + 1).drop_last() =~= ls.take(i as int));
        assert(ls.take(i + 1).last() == lines@[i as int]@);
        let cs = chars_of(lines[i].as_str());
        let k = find_char(&cs, ':');
        if k < cs.len() {
            assert(holds_char(cs@, ':'));
            let key = trim_text(string_of(&cs, 0, k).as_str());
            assert(cs@.subrange(0, k as int) =~= cs@.take(k as int));
            let value = string_of(&cs, k + 1, cs.len());
            assert(cs@.subrange(k + 1, cs@.len() as int) =~= cs@.skip(k + 1));
            if same_text(key.as_str(), "MemTotal") {
                match parse_memory_value(value.as_str()) {
                    Some(v) => {
                        total = v;
                    },
                    None => {
                        proof {
                            lemma_figures_fail(ls, i as int);
                        }
                        return None;
                    },
                }
            } else if same_text(key.as_str(), "MemAvailable") {
                match parse_memory_value(value.as_str()) {
                    Some(v) => {
                        available = v;
                    },
                    None => {
                        proof {
                            lemma_figures_fail(ls, i as int);
                        }
                        return None;
                    },
                }
            }
        } else {
            assert(!holds_char(cs@, ':'));
        }
        i = i + 1;
    }
    assert(ls.take(ls.len() as int) =~= ls);
    if available > total {
        return None;
    }
    Some((total - available, total))
}

proof fn lemma_figures_fail(ls: Seq<Seq<char>>, i: int)
    requires
        0 <= i < ls.len(),
        meminfo_figures(ls.take(i + 1)) is None,
    ensures
        meminfo_figures(ls) is None,
    decreases ls.len(),
{
    if i + 1 == ls.len() {
        assert(ls.take(i + 1) =~= ls);
    } else {
        assert(ls.drop_last().take(i + 1) =~= ls.take(i + 1));
        lemma_figures_fail(ls.drop_last(), i);
    }
}

/// The kernel release that a `/proc/version` text names: its third word.
pub open spec fn kernel_release(text: Seq<char>) -> Option<Seq<char>> {
    if words(text).len() > 2 {
        Some(words(text)[2])
    } else {
        None
    }
}

/// Reads the kernel release from the text of `/proc/version`, such as
/// `"Linux version 6.1.0 (...)"`; `None` where it has under three words.
pub fn parse_kernel_version(text: &str) -> (r: Option<String>)
    ensures
        match kernel_release(text@) {
            Some(v) => r is Some && r->0@ == v,
            None => r is None,
        },
{
    let ws = split_words(text);
    if ws.len() > 2 {
        Some(ws[2].clone())
    } else {
        None
    }
}

/// Reads a temperature sensor's text, a whole number of thousandths of a
/// degree Celsius with white space around it; `None` where it is no
/// integer that fits an `i32`.
pub fn parse_millidegrees(text: &str) -> (r: Option<i32>)
    ensures
        r == i32_literal(trimmed(text@)),
{
    let t = trim_text(text);
    parse_i32(t.as_str())
}

/// Splits an uptime in whole seconds into whole hours and the minutes
/// left over.
pub fn uptime_parts(seconds: u64) -> (r: (u64, u64))
    ensures
        r.0 == seconds / 3600,
        r.1 == (seconds % 3600) / 60,
{
    (seconds / 3600, (seconds % 3600) / 60)
}

} // verus!
