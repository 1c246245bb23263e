//! Patterns of `.regexp` and `.pcre`, brought into the form the regex engine
//! reads.
use crate::foreign::{is_meta, is_meta_character, regex_verdict};
use crate::text::{chars_of, string_from_chars};
use vstd::prelude::*;

verus! {

/// Drops a backslash before a character that has no meaning of its own
/// (`\d` excepted); other escapes stay as written.
pub open spec fn unescape(p: Seq<char>) -> Seq<char>
    decreases p.len(),
{
    if p.len() < 2 {
        p
    } else if p[0] == '\\' {
        if is_meta(p[1]) || p[1] == 'd' {
            seq![p[0], p[1]] + unescape(p.subrange(2, p.len() as int))
        } else {
            seq![p[1]] + unescape(p.subrange(2, p.len() as int))
        }
    } else {
        seq![p[0]] + unescape(p.drop_first())
    }
}

/// Whether a pattern holds a lookahead or lookbehind (`?=`, `?!`, `?<=`,
/// `?<!`).
pub open spec fn has_lookaround(p: Seq<char>) -> bool {
    exists|i: int| 0 <= i < p.len() && #[trigger] lookaround_at(p, i)
}

pub open spec fn lookaround_at(p: Seq<char>, i: int) -> bool {
    &&& i + 1 < p.len()
    &&& p[i] == '?'
    &&& (p[i + 1] == '=' || p[i + 1] == '!' || (p[i + 1] == '<' && i + 2 < p.len() && (p[i + 2] == '='
        || p[i + 2] == '!')))
}

/// Writes named groups `(?<name>` as `(?P<name>`.
pub open spec fn name_groups(p: Seq<char>) -> Seq<char>
    decreases p.len(),
{
    if p.len() < 2 {
        p
    } else if p[0] == '?' && p[1] == '<' {
        seq!['?', 'P', '<'] + name_groups(p.subrange(2, p.len() as int))
    } else {
        seq![p[0]] + name_groups(p.drop_first())
    }
}

/// The pattern the engine is given, or `None` when it uses lookaround.
pub open spec fn normalized(p: Seq<char>) -> Option<Seq<char>> {
    let u = unescape(p);
    if has_lookaround(u) {
        None
    } else {
        Some(name_groups(u))
    }
}

/// Whether a pattern, once normalized, compiles and matches the text.
pub open spec fn pattern_accepts(p: Seq<char>, t: Seq<char>) -> bool {
    normalized(p) matches Some(q) && regex_verdict(q, t) == Some(true)
}

fn unescape_chars(p: &Vec<char>) -> (r: Vec<char>)
    ensures
        r@ == unescape(p@),
{
    let mut out: Vec<char> = Vec::new();
    let mut i: usize = 0;
    let n = p.len();
    assert(p@.subrange(0, n as int) =~= p@);
    while i < n
        invariant
            n == p@.len(),
            i <= n,
            unescape(p@) == out@ + unescape(p@.subrange(i as int, n as int)),
        decreases n - i,
    {
        let ghost rest = p@.subrange(i as int, n as int);
        if n - i < 2 {
            assert(unescape(rest) == rest);
            assert(rest =~= seq![p@[i as int]]);
            out.push(p[i]);
            assert(out@ + unescape(p@.subrange(i as int + 1, n as int)) =~= unescape(p@)) by {
                assert(p@.subrange(i as int + 1, n as int).len() == 0);
            }
            i += 1;
        } else if p[i] == '\\' {
            assert(rest.subrange(2, rest.len() as int) =~= p@.subrange(i as int + 2, n as int));
            let c = p[i + 1];
            if is_meta_character(c) || c == 'd' {
                out.push(p[i]);
                out.push(c);
            } else {
                out.push(c);
            }
            assert(unescape(p@) =~= out@ + unescape(p@.subrange(i as int + 2, n as int)));
            i += 2;
        } else {
            assert(rest.drop_first() =~= p@.subrange(i as int + 1, n as int));
            out.push(p[i]);
            assert(unescape(p@) =~= out@ + unescape(p@.subrange(i as int + 1, n as int)));
            i += 1;
        }
    }
    assert(p@.subrange(n as int, n as int) =~= Seq::<char>::empty());
    assert(out@ + Seq::<char>::empty() =~= out@);
    out
}

fn name_groups_chars(p: &Vec<char>) -> (r: Vec<char>)
    ensures
        r@ == name_groups(p@),
{
    let mut out: Vec<char> = Vec::new();
    let mut i: usize = 0;
    let n = p.len();
    assert(p@.subrange(0, n as int) =~= p@);
    while i < n
        invariant
            n == p@.len(),
            i <= n,
            name_groups(p@) == out@ + name_groups(p@.subrange(i as int, n as int)),
        decreases n - i,
    {
        let ghost rest = p@.subrange(i as int, n as int);
        if n - i < 2 {
            assert(name_groups(rest) == rest);
            assert(rest =~= seq![p@[i as int]]);
            out.push(p[i]);
            assert(out@ + name_groups(p@.subrange(i as int + 1, n as int)) =~= name_groups(p@)) by {
                assert(p@.subrange(i as int + 1, n as int).len() == 0);
            }
            i += 1;
        } else if p[i] == '?' && p[i + 1] == '<' {
            assert(rest.subrange(2, rest.len() as int) =~= p@.subrange(i as int + 2, n as int));
            out.push('?');
            out.push('P');
            out.push('<');
            assert(name_groups(p@) =~= out@ + name_groups(p@.subrange(i as int + 2, n as int)));
            i += 2;
        } else {
            assert(rest.drop_first() =~= p@.subrange(i as int + 1, n as int));
            out.push(p[i]);
            assert(name_groups(p@) =~= out@ + name_groups(p@.subrange(i as int + 1, n as int)));
            i += 1;
        }
    }
    assert(p@.subrange(n as int, n as int) =~= Seq::<char>::empty());
    assert(out@ + Seq::<char>::empty() =~= out@);
    out
}

fn find_lookaround(p: &Vec<char>) -> (r: bool)
    ensures
        r == has_lookaround(p@),
{
    let n = p.len();
    let mut i: usize = 0;
    while i < n
        invariant
            n == p@.len(),
            i <= n,
            forall|j: int| 0 <= j < i ==> !#[trigger] lookaround_at(p@, j),
        decreases n - i,
    {
        if i + 1 < n && p[i] == '?' && (p[i + 1] == '=' || p[i + 1] == '!' || (p[i + 1] == '<' && i + 2 < n
            && (p[i + 2] == '=' || p[i + 2] == '!'))) {
            assert(lookaround_at(p@, i as int));
            return true;
        }
        i += 1;
    }
    false
}

/// Brings a `.regexp` / `.pcre` pattern into the form the regex engine
/// reads: superfluous escapes are dropped (`\d` kept), named groups become
/// `(?P<name>`; `None` when the pattern uses lookaround, which the engine
/// lacks.
pub fn format_regex(input: &str) -> (r: Option<String>)
    ensures
        match r {
            Some(x) => normalized(input@) == Some(x@),
            None => normalized(input@) is None,
        },
{
    let chars = chars_of(input);
    let u = unescape_chars(&chars);
    if find_lookaround(&u) {
        return None;
    }
    let g = name_groups_chars(&u);
    Some(string_from_chars(&g))
}

} // verus!
