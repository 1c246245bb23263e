//! How many positions a group choice takes in an array, and what an
//! occurrence indicator asks of an array's length.
use crate::ast::{GroupChoice, GroupEntry, Occur, Rule, CDDL};
use crate::rules::{first_group_rule, CLASS_DEPTH};
use crate::semantics::entry_occur;
use crate::text::str_eq;
use crate::value::Value;
use vstd::prelude::*;

verus! {

/// The positions a group choice takes, and the occurrence on its second
/// entry (which tells homogeneous arrays from tuples).
#[derive(Debug, Clone, Copy)]
pub struct EntryCount {
    pub count: u64,
    pub entry_occurrence: Option<Occur>,
}

/// `a + b`, held at `u64::MAX`.
pub open spec fn sat(x: int) -> nat {
    if x > u64::MAX {
        u64::MAX as nat
    } else if x < 0 {
        0
    } else {
        x as nat
    }
}

/// The positions an entry takes: one for a member, the positions of its
/// choices for an inline group, those of the group rule a name refers to (or
/// one when there is none).
pub open spec fn entry_count(c: CDDL, e: GroupEntry, fuel: nat) -> nat
    decreases fuel, 0nat, 0nat,
{
    if fuel == 0 {
        1
    } else {
        match e {
            GroupEntry::MemberKey(_) => 1,
            GroupEntry::InlineGroup(_, g) => group_count(c, g.0@, (fuel - 1) as nat),
            GroupEntry::Groupname(g) => match first_group_rule(c.rules@, g.name.ident@) {
                Some(i) => match c.rules@[i] {
                    Rule::Group(gr) => entry_count(c, gr.entry, (fuel - 1) as nat),
                    _ => 1,
                },
                None => 1,
            },
        }
    }
}

/// The positions of the entries of a group choice, added up.
pub open spec fn choice_count(c: CDDL, es: Seq<GroupEntry>, fuel: nat) -> nat
    decreases fuel, 1nat, es.len(),
{
    if es.len() == 0 {
        0
    } else {
        sat(choice_count(c, es.drop_last(), fuel) as int + entry_count(c, es.last(), fuel) as int)
    }
}

/// The positions of all the choices of a group, added up.
pub open spec fn group_count(c: CDDL, gcs: Seq<GroupChoice>, fuel: nat) -> nat
    decreases fuel, 2nat, gcs.len(),
{
    if gcs.len() == 0 {
        0
    } else {
        sat(group_count(c, gcs.drop_last(), fuel) as int + choice_count(c, gcs.last().0@, fuel) as int)
    }
}

fn count_entry(c: &CDDL, e: &GroupEntry, fuel: u64) -> (r: u64)
    ensures
        r == entry_count(*c, *e, fuel as nat),
    decreases fuel, 0nat,
{
    if fuel == 0 {
        return 1;
    }
    match e {
        GroupEntry::MemberKey(_) => 1,
        GroupEntry::InlineGroup(_, g) => count_group(c, &g.0, fuel - 1),
        GroupEntry::Groupname(g) => match group_rule_index(c, g.name.ident.as_str()) {
            Some(i) => match &c.rules[i] {
                Rule::Group(gr) => count_entry(c, &gr.entry, fuel - 1),
                _ => 1,
            },
            None => 1,
        },
    }
}

#[verifier::loop_isolation(false)]
fn count_choice(c: &CDDL, es: &Vec<GroupEntry>, fuel: u64) -> (r: u64)
    ensures
        r == choice_count(*c, es@, fuel as nat),
    decreases fuel, 1nat,
{
    let mut sum: u64 = 0;
    let mut i: usize = 0;
    while i < es.len()
        invariant
            i <= es@.len(),
            sum == choice_count(*c, es@.take(i as int), fuel as nat),
        decreases es@.len() - i,
    {
        assert(es@.take(i as int + 1).drop_last() =~= es@.take(i as int));
        assert(es@.take(i as int + 1).last() == es@[i as int]);
        let part = count_entry(c, &es[i], fuel);
        sum = sum.saturating_add(part);
        i += 1;
    }
    assert(es@.take(es@.len() as int) =~= es@);
    sum
}

#[verifier::loop_isolation(false)]
fn count_group(c: &CDDL, gcs: &Vec<GroupChoice>, fuel: u64) -> (r: u64)
    ensures
        r == group_count(*c, gcs@, fuel as nat),
    decreases fuel, 2nat,
{
    let mut sum: u64 = 0;
    let mut i: usize = 0;
    while i < gcs.len()
        invariant
            i <= gcs@.len(),
            sum == group_count(*c, gcs@.take(i as int), fuel as nat),
        decreases gcs@.len() - i,
    {
        assert(gcs@.take(i as int + 1).drop_last() =~= gcs@.take(i as int));
        assert(gcs@.take(i as int + 1).last() == gcs@[i as int]);
        let part = count_choice(c, &gcs[i].0, fuel);
        sum = sum.saturating_add(part);
        i += 1;
    }
    assert(gcs@.take(gcs@.len() as int) =~= gcs@);
    sum
}

/// The index of the first primary group rule of a name.
#[verifier::loop_isolation(false)]
pub(crate) fn group_rule_index(c: &CDDL, name: &str) -> (r: Option<usize>)
    ensures
        match r {
            Some(i) => first_group_rule(c.rules@, name@) == Some(i as int) && i < c.rules@.len(),
            None => first_group_rule(c.rules@, name@) is None,
        },
{
    let n = c.rules.len();
    let mut i: usize = 0;
    assert(c.rules@.subrange(0, n as int) =~= c.rules@);
    while i < n
        invariant
            n == c.rules@.len(),
            i <= n,
            match first_group_rule(c.rules@.subrange(i as int, n as int), name@) {
                Some(k) => first_group_rule(c.rules@, name@) == Some(k + i),
                None => first_group_rule(c.rules@, name@) is None,
            },
        decreases n - i,
    {
        let ghost rest = c.rules@.subrange(i as int, n as int);
        assert(rest[0] == c.rules@[i as int]);
        assert(rest.drop_first() =~= c.rules@.subrange(i as int + 1, n as int));
        match &c.rules[i] {
            Rule::Group(gr) => {
                if str_eq(gr.name.ident.as_str(), name) && !gr.is_group_choice_alternate {
                    return Some(i);
                }
            },
            _ => {},
        }
        i += 1;
    }
    None
}

/// The positions a group choice takes in an array (following group rules at
/// most `CLASS_DEPTH` levels deep), and the occurrence on its second entry.
pub fn entry_counts_from_group_choice(cddl: &CDDL, group_choice: &GroupChoice) -> (r: EntryCount)
    ensures
        r.count == choice_count(*cddl, group_choice.0@, CLASS_DEPTH as nat),
        r.entry_occurrence == if group_choice.0@.len() > 1 {
            entry_occur(group_choice.0@[1])
        } else {
            None
        },
{
    let count = count_choice(cddl, &group_choice.0, CLASS_DEPTH);
    let entry_occurrence = if group_choice.0.len() > 1 {
        match &group_choice.0[1] {
            GroupEntry::MemberKey(m) => m.occur,
            GroupEntry::Groupname(g) => g.occur,
            GroupEntry::InlineGroup(o, _) => *o,
        }
    } else {
        None
    };
    EntryCount { count, entry_occurrence }
}

/// Whether an array of `n` items fits one entry count: its exact count, or
/// the occurrence on its second entry.
pub open spec fn count_fits(ec: EntryCount, n: int) -> bool {
    n == ec.count || match ec.entry_occurrence {
        Some(Occur::ZeroOrMore) => true,
        Some(Occur::Optional) => true,
        Some(Occur::OneOrMore) => n > 0,
        Some(Occur::Exact(l, u)) => (l is Some || u is Some) && (l matches Some(x) ==> n >= x) && (u matches Some(
            y,
        ) ==> n <= y),
        None => false,
    }
}

/// Whether an array of `num_entries` items fits one of the entry counts.
pub fn validate_entry_count(valid_entry_counts: &[EntryCount], num_entries: usize) -> (r: bool)
    ensures
        r == exists|i: int|
            0 <= i < valid_entry_counts@.len() && count_fits(#[trigger] valid_entry_counts@[i], num_entries as int),
{
    let mut i: usize = 0;
    while i < valid_entry_counts.len()
        invariant
            i <= valid_entry_counts@.len(),
            forall|j: int| 0 <= j < i ==> !count_fits(#[trigger] valid_entry_counts@[j], num_entries as int),
        decreases valid_entry_counts@.len() - i,
    {
        let ec = valid_entry_counts[i];
        let fits = num_entries as u64 == ec.count || match ec.entry_occurrence {
            Some(Occur::ZeroOrMore) => true,
            Some(Occur::Optional) => true,
            Some(Occur::OneOrMore) => num_entries > 0,
            Some(Occur::Exact(l, u)) => {
                let lo_ok = match l {
                    Some(x) => num_entries >= x,
                    None => true,
                };
                let hi_ok = match u {
                    Some(y) => num_entries <= y,
                    None => true,
                };
                (l.is_some() || u.is_some()) && lo_ok && hi_ok
            },
            None => false,
        };
        if fits {
            assert(count_fits(valid_entry_counts@[i as int], num_entries as int));
            return true;
        }
        i += 1;
    }
    false
}

/// Whether an occurrence indicator on an array's entry is broken by a length.
pub open spec fn occurrence_broken(o: Option<Occur>, n: int) -> bool {
    match o {
        Some(Occur::ZeroOrMore) => false,
        Some(Occur::OneOrMore) => n == 0,
        Some(Occur::Exact(l, u)) => (l matches Some(x) && n < x) || (u matches Some(y) && n > y),
        Some(Occur::Optional) => n > 1,
        None => n == 0,
    }
}

/// Whether the items of an array are each checked against the one entry.
pub open spec fn iterates(o: Option<Occur>) -> bool {
    o matches Some(Occur::ZeroOrMore) || o matches Some(Occur::OneOrMore) || o matches Some(Occur::Exact(_, _))
}

/// Checks an array's length against an optional occurrence indicator and,
/// where the items are taken position by position, against the entry
/// counts. On success it says whether the items are to be checked one by one
/// against a single entry, and whether an empty array is allowed.
pub fn validate_array_occurrence(
    occurrence: Option<&Occur>,
    entry_counts: Option<&[EntryCount]>,
    values: &[Value],
) -> (r: Result<(bool, bool), Vec<String>>)
    ensures
        r is Err <==> occurrence_broken(opt_occur(occurrence), values@.len() as int) || (!iterates(
            opt_occur(occurrence),
        ) && !empty_allowed(opt_occur(occurrence)) && (entry_counts matches Some(ecs)
            && !exists|i: int| 0 <= i < ecs@.len() && count_fits(#[trigger] ecs@[i], values@.len() as int))),
        r matches Ok((items, empty)) ==> items == iterates(opt_occur(occurrence)) && empty == empty_allowed(
            opt_occur(occurrence),
        ),
{
    let len = values.len();
    let o: Option<Occur> = match occurrence {
        Some(x) => Some(*x),
        None => None,
    };
    let allow_empty_array = match o {
        Some(Occur::Optional) => true,
        Some(Occur::ZeroOrMore) => true,
        Some(Occur::Exact(lower, _)) => match lower {
            Some(l) => l == 0,
            None => true,
        },
        _ => false,
    };
    let mut errors: Vec<String> = Vec::new();
    let iter_items = match o {
        Some(Occur::ZeroOrMore) => true,
        Some(Occur::OneOrMore) => {
            if len == 0 {
                errors.push("array must have at least one item".to_owned());
            }
            true
        },
        Some(Occur::Exact(lower, upper)) => {
            let too_few = match lower {
                Some(l) => len < l,
                None => false,
            };
            let too_many = match upper {
                Some(u) => len > u,
                None => false,
            };
            if too_few || too_many {
                errors.push("array length lies outside the occurrence bounds".to_owned());
            }
            true
        },
        Some(Occur::Optional) => {
            if len > 1 {
                errors.push("array must have 0 or 1 items".to_owned());
            }
            false
        },
        None => {
            if len == 0 {
                errors.push("array must have exactly one item".to_owned());
            }
            false
        },
    };
    if !iter_items && !allow_empty_array {
        match entry_counts {
            Some(ecs) => {
                if !validate_entry_count(ecs, len) {
                    errors.push("array length fits none of the group's entry counts".to_owned());
                }
            },
            None => {},
        }
    }
    if errors.len() > 0 {
        Err(errors)
    } else {
        Ok((iter_items, allow_empty_array))
    }
}

/// Whether an occurrence indicator lets an array be empty: `?`, `*`, and
/// `n*m` with no lower bound or a lower bound of zero.
pub open spec fn empty_allowed(o: Option<Occur>) -> bool {
    match o {
        Some(Occur::Optional) => true,
        Some(Occur::ZeroOrMore) => true,
        Some(Occur::Exact(l, _)) => l is None || l == Some(0usize),
        _ => false,
    }
}

/// The occurrence behind an optional reference.
pub open spec fn opt_occur(o: Option<&Occur>) -> Option<Occur> {
    match o {
        Some(x) => Some(*x),
        None => None,
    }
}

} // verus!
