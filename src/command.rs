//! Finding a `!remindme <date> [<text>]` command in a chat message.
//!
//! The command is searched from the left: its token, a run of white space,
//! the date expression up to the next white space, and optionally more white
//! space and a text that runs to the end of its line.

use vstd::prelude::*;
use vstd::string::{StrSliceExecFns, StringExecFns};

verus! {

/// Unicode's `White_Space` characters.
pub open spec fn is_space(c: char) -> bool {
    let v = c as u32;
    (9 <= v <= 13) || v == 32 || v == 0x85 || v == 0xa0 || v == 0x1680 || (0x2000 <= v
        <= 0x200a) || v == 0x2028 || v == 0x2029 || v == 0x202f || v == 0x205f || v == 0x3000
}

pub open spec fn command_token() -> Seq<char> {
    seq!['!', 'r', 'e', 'm', 'i', 'n', 'd', 'm', 'e']
}

/// The first index at or after `p` that holds no white space (or the end).
pub open spec fn space_run_end(s: Seq<char>, p: int) -> int
    decreases s.len() - p,
{
    if p < 0 || p >= s.len() || !is_space(s[p]) {
        p
    } else {
        space_run_end(s, p + 1)
    }
}

/// The first index at or after `p` that holds white space (or the end).
pub open spec fn word_end(s: Seq<char>, p: int) -> int
    decreases s.len() - p,
{
    if p < 0 || p >= s.len() || is_space(s[p]) {
        p
    } else {
        word_end(s, p + 1)
    }
}

/// The first index at or after `p` that holds a line feed (or the end).
pub open spec fn line_end(s: Seq<char>, p: int) -> int
    decreases s.len() - p,
{
    if p < 0 || p >= s.len() || s[p] == '\n' {
        p
    } else {
        line_end(s, p + 1)
    }
}

/// A command starts at `i`: its token, white space, then a date expression.
pub open spec fn command_at(s: Seq<char>, i: int) -> bool {
    0 <= i && i + 9 < s.len() && s.subrange(i, i + 9) == command_token() && is_space(s[i + 9])
        && space_run_end(s, i + 9) < s.len()
}

/// Where the date expression of a command at `i` starts.
pub open spec fn date_start(s: Seq<char>, i: int) -> int {
    space_run_end(s, i + 9)
}

/// Where the date expression of a command at `i` ends.
pub open spec fn date_end(s: Seq<char>, i: int) -> int {
    word_end(s, date_start(s, i))
}

/// After the date expression, which ends at `e`, a text may start at `j`:
/// white space comes between, and `j` holds no line feed.
pub open spec fn text_start_at(s: Seq<char>, e: int, j: int) -> bool {
    e < j < s.len() && (forall|k: int| e <= k < j ==> is_space(#[trigger] s[k])) && s[j] != '\n'
}

/// The text of a command whose date expression ends at `e`: from the last
/// place where it can start to the end of that line.
pub open spec fn text_matches(s: Seq<char>, e: int, t: Option<Seq<char>>) -> bool {
    match t {
        None => forall|j: int| !text_start_at(s, e, j),
        Some(x) => exists|j: int|
            text_start_at(s, e, j) && (forall|j2: int| j < j2 ==> !text_start_at(s, e, j2)) && x
                == s.subrange(j, line_end(s, j)),
    }
}

/// What a message yields as (date expression, text).
pub open spec fn command_matches(s: Seq<char>, r: Option<(Seq<char>, Option<Seq<char>>)>) -> bool {
    match r {
        None => forall|i: int| !command_at(s, i),
        Some((d, t)) => exists|i: int|
            command_at(s, i) && (forall|i2: int| 0 <= i2 < i ==> !command_at(s, i2)) && d
                == s.subrange(date_start(s, i), date_end(s, i)) && text_matches(
                s,
                date_end(s, i),
                t,
            ),
    }
}

/// The characters of an optional text.
pub open spec fn optional_text(t: Option<String>) -> Option<Seq<char>> {
    match t {
        Some(x) => Some(x@),
        None => None,
    }
}

fn is_space_char(c: char) -> (r: bool)
    ensures
        r == is_space(c),
{
    let v = c as u32;
    (9 <= v && v <= 13) || v == 32 || v == 0x85 || v == 0xa0 || v == 0x1680 || (0x2000 <= v && v
        <= 0x200a) || v == 0x2028 || v == 0x2029 || v == 0x202f || v == 0x205f || v == 0x3000
}

fn skip_spaces(s: &str, n: usize, p: usize) -> (r: usize)
    requires
        n == s@.len(),
        p <= n,
    ensures
        r as int == space_run_end(s@, p as int),
        p <= r <= n,
        forall|k: int| p <= k < r ==> is_space(#[trigger] s@[k]),
        r < n ==> !is_space(s@[r as int]),
{
    let mut q = p;
    while q < n && is_space_char(s.get_char(q))
        invariant
            n == s@.len(),
            p <= q <= n,
            space_run_end(s@, p as int) == space_run_end(s@, q as int),
            forall|k: int| p <= k < q ==> is_space(#[trigger] s@[k]),
        decreases n - q,
    {
        q = q + 1;
    }
    q
}

fn skip_word(s: &str, n: usize, p: usize) -> (r: usize)
    requires
        n == s@.len(),
        p <= n,
    ensures
        r as int == word_end(s@, p as int),
        p <= r <= n,
        r < n ==> is_space(s@[r as int]),
{
    let mut q = p;
    while q < n && !is_space_char(s.get_char(q))
        invariant
            n == s@.len(),
            p <= q <= n,
            word_end(s@, p as int) == word_end(s@, q as int),
        decreases n - q,
    {
        q = q + 1;
    }
    q
}

fn find_line_end(s: &str, n: usize, p: usize) -> (r: usize)
    requires
        n == s@.len(),
        p <= n,
    ensures
        r as int == line_end(s@, p as int),
        p <= r <= n,
{
    let mut q = p;
    while q < n && s.get_char(q) != '\n'
        invariant
            n == s@.len(),
            p <= q <= n,
            line_end(s@, p as int) == line_end(s@, q as int),
        decreases n - q,
    {
        q = q + 1;
    }
    q
}

fn token_at(s: &str, n: usize, i: usize) -> (r: bool)
    requires
        n == s@.len(),
        i + 9 <= n,
    ensures
        r == (s@.subrange(i as int, i + 9) == command_token()),
{
    let token = ['!', 'r', 'e', 'm', 'i', 'n', 'd', 'm', 'e'];
    assert(token@ == command_token());
    let mut k: usize = 0;
    while k < 9
        invariant
            n == s@.len(),
            i + 9 <= n,
            k <= 9,
            token@ == command_token(),
            forall|m: int| 0 <= m < k ==> s@[i + m] == #[trigger] command_token()[m],
        decreases 9 - k,
    {
        if s.get_char(i + k) != token[k] {
            assert(s@.subrange(i as int, i + 9)[k as int] != command_token()[k as int]);
            return false;
        }
        k = k + 1;
    }
    assert(s@.subrange(i as int, i + 9) =~= command_token());
    true
}

/// The text after a date expression that ends at `e`.
fn find_text(s: &str, n: usize, e: usize) -> (r: Option<String>)
    requires
        n == s@.len(),
        e <= n,
        e == n || is_space(s@[e as int]),
    ensures
        text_matches(s@, e as int, optional_text(r)),
{
    if e == n {
        return None;
    }
    let q = skip_spaces(s, n, e);
    if q < n {
        assert(text_start_at(s@, e as int, q as int));
        assert forall|j2: int| q < j2 implies !text_start_at(s@, e as int, j2) by {
            if text_start_at(s@, e as int, j2) {
                assert(is_space(s@[q as int]));
            }
        }
        let le = find_line_end(s, n, q);
        let t = String::from_str(s.substring_char(q, le));
        return Some(t);
    }
    let mut j = n - 1;
    while j > e && s.get_char(j) == '\n'
        invariant
            n == s@.len(),
            e < n,
            e <= j < n,
            forall|k: int| e <= k < n ==> is_space(#[trigger] s@[k]),
            forall|j2: int| j < j2 ==> !text_start_at(s@, e as int, j2),
        decreases j,
    {
        j = j - 1;
    }
    if j == e {
        return None;
    }
    assert(text_start_at(s@, e as int, j as int));
    let le = find_line_end(s, n, j);
    Some(String::from_str(s.substring_char(j, le)))
}

/// Finds the leftmost `!remindme` command in a message and returns its date
/// expression and, where one follows, its text.
pub fn parse_reminder_command(message: &str) -> (r: Option<(String, Option<String>)>)
    ensures
        command_matches(message@, match r {
            Some((d, t)) => Some((d@, optional_text(t))),
            None => None,
        }),
{
    let n = message.unicode_len();
    let mut i: usize = 0;
    while i < n
        invariant
            n == message@.len(),
            i <= n,
            forall|i2: int| 0 <= i2 < i ==> !command_at(message@, i2),
        decreases n - i,
    {
        if n - i > 9 && token_at(message, n, i) && is_space_char(message.get_char(i + 9)) {
            let p = skip_spaces(message, n, i + 9);
            if p < n {
                let e = skip_word(message, n, p);
                let date = String::from_str(message.substring_char(p, e));
                let text = find_text(message, n, e);
                assert(command_at(message@, i as int));
                return Some((date, text));
            }
        }
        i = i + 1;
    }
    assert forall|i2: int| !command_at(message@, i2) by {
        if 0 <= i2 && i2 + 9 < n {
            assert(i2 < i);
        }
    }
    None
}

} // verus!
