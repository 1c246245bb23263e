//! Lookups of rules by name, and the classification of names into prelude
//! kinds, following rule definitions.
use crate::ast::{GenericParm, GroupChoice, GroupEntry, GroupRule, Identifier, Rule, Type, Type1, Type2, TypeRule, CDDL};
use crate::lookup::{ident_in_class_at, opt_ref, type_rule_named};
use crate::prelude::Class;
use crate::semantics::{first_container, first_typename, ident_in_class, type_rule_from};
use crate::text::str_eq;
use vstd::prelude::*;

verus! {

/// How far the name predicates follow rule definitions.
pub const CLASS_DEPTH: u64 = 256;

/// Whether a rule is a primary (not a `/=` or `//=`) definition of a name.
pub open spec fn is_primary_named(r: Rule, name: Seq<char>) -> bool {
    r.spec_name() == name && !r.spec_is_alternate()
}

/// The index of the first rule satisfying the primary-definition test.
pub open spec fn first_primary(rules: Seq<Rule>, name: Seq<char>) -> Option<int>
    decreases rules.len(),
{
    if rules.len() == 0 {
        None
    } else if is_primary_named(rules[0], name) {
        Some(0)
    } else {
        match first_primary(rules.drop_first(), name) {
            Some(i) => Some(i + 1),
            None => None,
        }
    }
}

/// The index of the first primary group rule of a name.
pub open spec fn first_group_rule(rules: Seq<Rule>, name: Seq<char>) -> Option<int>
    decreases rules.len(),
{
    if rules.len() == 0 {
        None
    } else if rules[0] is Group && is_primary_named(rules[0], name) {
        Some(0)
    } else {
        match first_group_rule(rules.drop_first(), name) {
            Some(i) => Some(i + 1),
            None => None,
        }
    }
}

/// The right-hand sides of all type rules of a name, primary and `/=`, in
/// document order.
pub open spec fn type_values_named(rules: Seq<Rule>, name: Seq<char>) -> Seq<Type>
    decreases rules.len(),
{
    if rules.len() == 0 {
        Seq::empty()
    } else {
        let prev = type_values_named(rules.drop_last(), name);
        match rules.last() {
            Rule::Type(tr) => if tr.name.ident@ == name {
                prev.push(tr.value)
            } else {
                prev
            },
            _ => prev,
        }
    }
}

/// The entries of all group rules of a name, primary and `//=`, in document
/// order.
pub open spec fn group_entries_named(rules: Seq<Rule>, name: Seq<char>) -> Seq<GroupEntry>
    decreases rules.len(),
{
    if rules.len() == 0 {
        Seq::empty()
    } else {
        let prev = group_entries_named(rules.drop_last(), name);
        match rules.last() {
            Rule::Group(gr) => if gr.name.ident@ == name {
                prev.push(gr.entry)
            } else {
                prev
            },
            _ => prev,
        }
    }
}

proof fn lemma_first_step(rules: Seq<Rule>, i: int, name: Seq<char>)
    requires
        0 <= i < rules.len(),
    ensures
        rules.subrange(i, rules.len() as int)[0] == rules[i],
        rules.subrange(i, rules.len() as int).drop_first() =~= rules.subrange(i + 1, rules.len() as int),
{
}

/// The first rule of a name that is not a `/=` or `//=` extension.
#[verifier::loop_isolation(false)]
pub fn rule_from_ident<'a>(cddl: &'a CDDL, ident: &Identifier) -> (r: Option<&'a Rule>)
    ensures
        match first_primary(cddl.rules@, ident.ident@) {
            Some(i) => r == Some(&cddl.rules@[i]),
            None => r is None,
        },
{
    let mut i: usize = 0;
    let n = cddl.rules.len();
    assert(cddl.rules@.subrange(0, n as int) =~= cddl.rules@);
    while i < n
        invariant
            n == cddl.rules@.len(),
            i <= n,
            match first_primary(cddl.rules@.subrange(i as int, n as int), ident.ident@) {
                Some(k) => first_primary(cddl.rules@, ident.ident@) == Some(k + i),
                None => first_primary(cddl.rules@, ident.ident@) is None,
            },
        decreases n - i,
    {
        proof {
            lemma_first_step(cddl.rules@, i as int, ident.ident@);
        }
        let r = &cddl.rules[i];
        let alt = match r {
            Rule::Type(tr) => tr.is_type_choice_alternate,
            Rule::Group(gr) => gr.is_group_choice_alternate,
        };
        if str_eq(r.name().ident.as_str(), ident.ident.as_str()) && !alt {
            return Some(r);
        }
        i += 1;
    }
    None
}

/// The first group rule of a name that is not a `//=` extension.
#[verifier::loop_isolation(false)]
pub fn group_rule_from_ident<'a>(cddl: &'a CDDL, ident: &Identifier) -> (r: Option<&'a GroupRule>)
    ensures
        match first_group_rule(cddl.rules@, ident.ident@) {
            Some(i) => r matches Some(g) && cddl.rules@[i] == Rule::Group(Box::new(*g)),
            None => r is None,
        },
{
    let mut i: usize = 0;
    let n = cddl.rules.len();
    assert(cddl.rules@.subrange(0, n as int) =~= cddl.rules@);
    while i < n
        invariant
            n == cddl.rules@.len(),
            i <= n,
            match first_group_rule(cddl.rules@.subrange(i as int, n as int), ident.ident@) {
                Some(k) => first_group_rule(cddl.rules@, ident.ident@) == Some(k + i),
                None => first_group_rule(cddl.rules@, ident.ident@) is None,
            },
        decreases n - i,
    {
        proof {
            lemma_first_step(cddl.rules@, i as int, ident.ident@);
        }
        match &cddl.rules[i] {
            Rule::Group(gr) => {
                if str_eq(gr.name.ident.as_str(), ident.ident.as_str()) && !gr.is_group_choice_alternate {
                    return Some(&**gr);
                }
            },
            _ => {},
        }
        i += 1;
    }
    None
}

/// The first type rule of a name that is not a `/=` extension.
pub fn type_rule_from_ident<'a>(cddl: &'a CDDL, ident: &Identifier) -> (r: Option<&'a TypeRule>)
    ensures
        opt_ref(r) == type_rule_from(cddl.rules@, ident.ident@),
{
    type_rule_named(cddl, ident.ident.as_str())
}

/// The generic parameter names of a rule, if it has any.
pub fn generic_params_from_rule(rule: &Rule) -> (r: Option<Vec<String>>)
    ensures
        match (match rule {
            Rule::Type(tr) => tr.generic_param,
            Rule::Group(gr) => gr.generic_para,
        }) {
            Some(gp) => r matches Some(names) && names@.len() == gp.0@.len() && forall|k: int|
                0 <= k < names@.len() ==> (#[trigger] names@[k])@ == gp.0@[k].ident@,
            None => r is None,
        },
{
    let gp: &Option<GenericParm> = match rule {
        Rule::Type(tr) => &tr.generic_param,
        Rule::Group(gr) => &gr.generic_para,
    };
    match gp {
        None => None,
        Some(p) => {
            let mut names: Vec<String> = Vec::new();
            let mut k: usize = 0;
            while k < p.0.len()
                invariant
                    k <= p.0@.len(),
                    names@.len() == k,
                    forall|q: int| 0 <= q < k ==> (#[trigger] names@[q])@ == p.0@[q].ident@,
                decreases p.0@.len() - k,
            {
                names.push(p.0[k].ident.clone());
                k += 1;
            }
            Some(names)
        },
    }
}

/// The right-hand sides of all type rules of a name, the primary one and its
/// `/=` extensions, in document order.
#[verifier::loop_isolation(false)]
pub fn type_choice_alternates_from_ident<'a>(cddl: &'a CDDL, ident: &Identifier) -> (r: Vec<&'a Type>)
    ensures
        r@.map_values(|t: &Type| *t) == type_values_named(cddl.rules@, ident.ident@),
{
    let mut out: Vec<&Type> = Vec::new();
    let mut i: usize = 0;
    let n = cddl.rules.len();
    while i < n
        invariant
            n == cddl.rules@.len(),
            i <= n,
            out@.map_values(|t: &Type| *t) == type_values_named(cddl.rules@.take(i as int), ident.ident@),
        decreases n - i,
    {
        assert(cddl.rules@.take(i as int + 1).drop_last() =~= cddl.rules@.take(i as int));
        assert(cddl.rules@.take(i as int + 1).last() == cddl.rules@[i as int]);
        let ghost before = out@;
        match &cddl.rules[i] {
            Rule::Type(tr) => {
                if str_eq(tr.name.ident.as_str(), ident.ident.as_str()) {
                    out.push(&tr.value);
                    assert(out@.map_values(|t: &Type| *t) =~= before.map_values(|t: &Type| *t).push(tr.value));
                }
            },
            _ => {},
        }
        i += 1;
    }
    assert(cddl.rules@.take(n as int) =~= cddl.rules@);
    out
}

/// The entries of all group rules of a name, the primary one and its `//=`
/// extensions, in document order.
#[verifier::loop_isolation(false)]
pub fn group_choice_alternates_from_ident<'a>(cddl: &'a CDDL, ident: &Identifier) -> (r: Vec<&'a GroupEntry>)
    ensures
        r@.map_values(|e: &GroupEntry| *e) == group_entries_named(cddl.rules@, ident.ident@),
{
    let mut out: Vec<&GroupEntry> = Vec::new();
    let mut i: usize = 0;
    let n = cddl.rules.len();
    while i < n
        invariant
            n == cddl.rules@.len(),
            i <= n,
            out@.map_values(|e: &GroupEntry| *e) == group_entries_named(cddl.rules@.take(i as int), ident.ident@),
        decreases n - i,
    {
        assert(cddl.rules@.take(i as int + 1).drop_last() =~= cddl.rules@.take(i as int));
        assert(cddl.rules@.take(i as int + 1).last() == cddl.rules@[i as int]);
        let ghost before = out@;
        match &cddl.rules[i] {
            Rule::Group(gr) => {
                if str_eq(gr.name.ident.as_str(), ident.ident.as_str()) {
                    out.push(&gr.entry);
                    assert(out@.map_values(|e: &GroupEntry| *e) =~= before.map_values(|e: &GroupEntry| *e).push(gr.entry));
                }
            },
            _ => {},
        }
        i += 1;
    }
    assert(cddl.rules@.take(n as int) =~= cddl.rules@);
    out
}

/// Whether a name is `null`/`nil`, or a rule whose choices lead to one.
pub fn is_ident_null_data_type(cddl: &CDDL, ident: &Identifier) -> (r: bool)
    ensures
        r == ident_in_class(*cddl, ident.ident@, Class::Null, CLASS_DEPTH as nat),
{
    ident_in_class_at(cddl, ident.ident.as_str(), Class::Null, CLASS_DEPTH)
}

/// Whether a name is `bool`, `true` or `false`, or a rule whose choices lead
/// to one of them.
pub fn is_ident_bool_data_type(cddl: &CDDL, ident: &Identifier) -> (r: bool)
    ensures
        r == ident_in_class(*cddl, ident.ident@, Class::Bool, CLASS_DEPTH as nat),
{
    ident_in_class_at(cddl, ident.ident.as_str(), Class::Bool, CLASS_DEPTH)
}

/// Whether a name is `uri`, or a rule whose choices lead to it.
pub fn is_ident_uri_data_type(cddl: &CDDL, ident: &Identifier) -> (r: bool)
    ensures
        r == ident_in_class(*cddl, ident.ident@, Class::Uri, CLASS_DEPTH as nat),
{
    ident_in_class_at(cddl, ident.ident.as_str(), Class::Uri, CLASS_DEPTH)
}

/// Whether a name is `b64url`, or a rule whose choices lead to it.
pub fn is_ident_b64url_data_type(cddl: &CDDL, ident: &Identifier) -> (r: bool)
    ensures
        r == ident_in_class(*cddl, ident.ident@, Class::B64url, CLASS_DEPTH as nat),
{
    ident_in_class_at(cddl, ident.ident.as_str(), Class::B64url, CLASS_DEPTH)
}

/// Whether a name is `tdate`, or a rule whose choices lead to it.
pub fn is_ident_tdate_data_type(cddl: &CDDL, ident: &Identifier) -> (r: bool)
    ensures
        r == ident_in_class(*cddl, ident.ident@, Class::Tdate, CLASS_DEPTH as nat),
{
    ident_in_class_at(cddl, ident.ident.as_str(), Class::Tdate, CLASS_DEPTH)
}

/// Whether a name is `time`, or a rule whose choices lead to it.
pub fn is_ident_time_data_type(cddl: &CDDL, ident: &Identifier) -> (r: bool)
    ensures
        r == ident_in_class(*cddl, ident.ident@, Class::Time, CLASS_DEPTH as nat),
{
    ident_in_class_at(cddl, ident.ident.as_str(), Class::Time, CLASS_DEPTH)
}

/// Whether a name is a numeric prelude type, or a rule whose choices lead to
/// one.
pub fn is_ident_numeric_data_type(cddl: &CDDL, ident: &Identifier) -> (r: bool)
    ensures
        r == ident_in_class(*cddl, ident.ident@, Class::Numeric, CLASS_DEPTH as nat),
{
    ident_in_class_at(cddl, ident.ident.as_str(), Class::Numeric, CLASS_DEPTH)
}

/// Whether a name is `uint`, or a rule whose choices lead to it.
pub fn is_ident_uint_data_type(cddl: &CDDL, ident: &Identifier) -> (r: bool)
    ensures
        r == ident_in_class(*cddl, ident.ident@, Class::Uint, CLASS_DEPTH as nat),
{
    ident_in_class_at(cddl, ident.ident.as_str(), Class::Uint, CLASS_DEPTH)
}

/// Whether a name is `nint`, or a rule whose choices lead to it.
pub fn is_ident_nint_data_type(cddl: &CDDL, ident: &Identifier) -> (r: bool)
    ensures
        r == ident_in_class(*cddl, ident.ident@, Class::Nint, CLASS_DEPTH as nat),
{
    ident_in_class_at(cddl, ident.ident.as_str(), Class::Nint, CLASS_DEPTH)
}

/// Whether a name is an integer prelude type, or a rule whose choices lead to
/// one.
pub fn is_ident_integer_data_type(cddl: &CDDL, ident: &Identifier) -> (r: bool)
    ensures
        r == ident_in_class(*cddl, ident.ident@, Class::Integer, CLASS_DEPTH as nat),
{
    ident_in_class_at(cddl, ident.ident.as_str(), Class::Integer, CLASS_DEPTH)
}

/// Whether a name is a float prelude type, or a rule whose choices lead to
/// one.
pub fn is_ident_float_data_type(cddl: &CDDL, ident: &Identifier) -> (r: bool)
    ensures
        r == ident_in_class(*cddl, ident.ident@, Class::Float, CLASS_DEPTH as nat),
{
    ident_in_class_at(cddl, ident.ident.as_str(), Class::Float, CLASS_DEPTH)
}

/// Whether a name is `tstr`/`text`, or a rule whose choices lead to it.
pub fn is_ident_string_data_type(cddl: &CDDL, ident: &Identifier) -> (r: bool)
    ensures
        r == ident_in_class(*cddl, ident.ident@, Class::Text, CLASS_DEPTH as nat),
{
    ident_in_class_at(cddl, ident.ident.as_str(), Class::Text, CLASS_DEPTH)
}

/// Whether a name is `any`, or a rule whose choices lead to it.
pub fn is_ident_any_type(cddl: &CDDL, ident: &Identifier) -> (r: bool)
    ensures
        r == ident_in_class(*cddl, ident.ident@, Class::Any, CLASS_DEPTH as nat),
{
    ident_in_class_at(cddl, ident.ident.as_str(), Class::Any, CLASS_DEPTH)
}

/// Whether a name is `bstr`/`bytes`, or a rule whose choices lead to it.
pub fn is_ident_byte_string_data_type(cddl: &CDDL, ident: &Identifier) -> (r: bool)
    ensures
        r == ident_in_class(*cddl, ident.ident@, Class::Bytes, CLASS_DEPTH as nat),
{
    ident_in_class_at(cddl, ident.ident.as_str(), Class::Bytes, CLASS_DEPTH)
}

/// Whether a name is the boolean literal `value` (`true` or `false`), or a
/// rule whose choices lead to it.
pub fn ident_matches_bool_value(cddl: &CDDL, ident: &Identifier, value: bool) -> (r: bool)
    ensures
        r == ident_in_class(*cddl, ident.ident@, if value { Class::True } else { Class::False }, CLASS_DEPTH as nat),
{
    if value {
        ident_in_class_at(cddl, ident.ident.as_str(), Class::True, CLASS_DEPTH)
    } else {
        ident_in_class_at(cddl, ident.ident.as_str(), Class::False, CLASS_DEPTH)
    }
}

/// Whether a type is a text or byte string literal.
pub open spec fn is_string_literal(t: Type2) -> bool {
    t is TextValue || t is UTF8ByteString || t is B16ByteString || t is B64ByteString
}

/// The string literals among the choices of the type rules of a name, in
/// document order, with names among those choices replaced by their own
/// literals.
pub open spec fn literal_seq(c: CDDL, name: Seq<char>, fuel: nat) -> Seq<Type2>
    decreases fuel, 0nat, 0nat,
{
    if fuel == 0 {
        Seq::empty()
    } else {
        rules_literals(c, c.rules@, name, (fuel - 1) as nat)
    }
}

pub open spec fn rules_literals(c: CDDL, rs: Seq<Rule>, name: Seq<char>, fuel: nat) -> Seq<Type2>
    decreases fuel, 2nat, rs.len(),
{
    if rs.len() == 0 {
        Seq::empty()
    } else {
        rules_literals(c, rs.drop_last(), name, fuel) + match rs.last() {
            Rule::Type(tr) => if tr.name.ident@ == name {
                choices_literals(c, tr.value.0@, fuel)
            } else {
                Seq::empty()
            },
            _ => Seq::empty(),
        }
    }
}

pub open spec fn choice_literals(c: CDDL, t2: Type2, fuel: nat) -> Seq<Type2>
    decreases fuel, 1nat, 0nat,
{
    if is_string_literal(t2) {
        seq![t2]
    } else {
        match t2 {
            Type2::Typename(id, _) => literal_seq(c, id.ident@, fuel),
            _ => Seq::empty(),
        }
    }
}

pub open spec fn choices_literals(c: CDDL, ts: Seq<Type1>, fuel: nat) -> Seq<Type2>
    decreases fuel, 1nat, ts.len() + 1,
{
    if ts.len() == 0 {
        Seq::empty()
    } else {
        choices_literals(c, ts.drop_last(), fuel) + choice_literals(c, ts.last().type2, fuel)
    }
}

/// The text and byte string literals among the choices of the type rules of
/// a name, in document order, following names among those choices at most
/// `CLASS_DEPTH` levels deep.
pub fn string_literals_from_ident<'a>(cddl: &'a CDDL, ident: &Identifier) -> (r: Vec<&'a Type2>)
    ensures
        r@.map_values(|t: &Type2| *t) == literal_seq(*cddl, ident.ident@, CLASS_DEPTH as nat),
{
    literals_of(cddl, ident.ident.as_str(), CLASS_DEPTH)
}

/// The string literals a name stands for.
#[verifier::loop_isolation(false)]
pub fn literals_of<'a>(c: &'a CDDL, name: &str, fuel: u64) -> (r: Vec<&'a Type2>)
    ensures
        r@.map_values(|t: &Type2| *t) == literal_seq(*c, name@, fuel as nat),
    decreases fuel,
{
    let mut out: Vec<&'a Type2> = Vec::new();
    if fuel == 0 {
        assert(out@.map_values(|t: &Type2| *t) =~= Seq::<Type2>::empty());
        return out;
    }
    let f = fuel - 1;
    let mut i: usize = 0;
    assert(out@.map_values(|t: &Type2| *t) =~= rules_literals(*c, c.rules@.take(0), name@, f as nat));
    while i < c.rules.len()
        invariant
            i <= c.rules@.len(),
            f == fuel - 1,
            out@.map_values(|t: &Type2| *t) == rules_literals(*c, c.rules@.take(i as int), name@, f as nat),
        decreases c.rules@.len() - i,
    {
        assert(c.rules@.take(i as int + 1).drop_last() =~= c.rules@.take(i as int));
        assert(c.rules@.take(i as int + 1).last() == c.rules@[i as int]);
        let ghost start = out@.map_values(|t: &Type2| *t);
        match &c.rules[i] {
            Rule::Type(tr) => {
                if str_eq(tr.name.ident.as_str(), name) {
                    let mut j: usize = 0;
                    assert(start + choices_literals(*c, tr.value.0@.take(0), f as nat) =~= start);
                    while j < tr.value.0.len()
                        invariant
                            j <= tr.value.0@.len(),
                            out@.map_values(|t: &Type2| *t) == start + choices_literals(*c, tr.value.0@.take(j as int), f as nat),
                        decreases tr.value.0@.len() - j,
                    {
                        assert(tr.value.0@.take(j as int + 1).drop_last() =~= tr.value.0@.take(j as int));
                        assert(tr.value.0@.take(j as int + 1).last() == tr.value.0@[j as int]);
                        let t2 = &tr.value.0[j].type2;
                        let ghost before = out@.map_values(|t: &Type2| *t);
                        let is_lit = match t2 {
                            Type2::TextValue(_) => true,
                            Type2::UTF8ByteString(_) => true,
                            Type2::B16ByteString(_) => true,
                            Type2::B64ByteString(_) => true,
                            _ => false,
                        };
                        if is_lit {
                            out.push(t2);
                            assert(out@.map_values(|t: &Type2| *t) =~= before + seq![*t2]);
                        } else {
                            match t2 {
                                Type2::Typename(id, _) => {
                                    let mut part = literals_of(c, id.ident.as_str(), f);
                                    let ghost p = part@.map_values(|t: &Type2| *t);
                                    out.append(&mut part);
                                    assert(out@.map_values(|t: &Type2| *t) =~= before + p);
                                },
                                _ => {
                                    assert(before + Seq::<Type2>::empty() =~= before);
                                },
                            }
                        }
                        assert(out@.map_values(|t: &Type2| *t) == before + choice_literals(*c, *t2, f as nat));
                        assert(start + choices_literals(*c, tr.value.0@.take(j as int + 1), f as nat) =~= before
                            + choice_literals(*c, *t2, f as nat));
                        j += 1;
                    }
                    assert(tr.value.0@.take(tr.value.0@.len() as int) =~= tr.value.0@);
                } else {
                    assert(start + Seq::<Type2>::empty() =~= start);
                }
            },
            _ => {
                assert(start + Seq::<Type2>::empty() =~= start);
            },
        }
        i += 1;
    }
    assert(c.rules@.take(c.rules@.len() as int) =~= c.rules@);
    out
}

/// The rule that `~name` unwraps: the name's first type rule (not a `/=`
/// extension) when one of its choices is an array, a map or a tag, else the
/// rule its first name choice leads to.
pub open spec fn unwrap_rule(c: CDDL, name: Seq<char>, fuel: nat) -> Option<TypeRule>
    decreases fuel,
{
    if fuel == 0 {
        None
    } else {
        match type_rule_from(c.rules@, name) {
            None => None,
            Some(tr) => if first_container(tr.value.0@) is Some {
                Some(tr)
            } else {
                match first_typename(tr.value.0@) {
                    Some(n) => unwrap_rule(c, n, (fuel - 1) as nat),
                    None => None,
                }
            },
        }
    }
}

/// The type rule that `~ident` unwraps, following name choices at most
/// `CLASS_DEPTH` levels deep.
pub fn unwrap_rule_from_ident<'a>(cddl: &'a CDDL, ident: &Identifier) -> (r: Option<&'a TypeRule>)
    ensures
        opt_ref(r) == unwrap_rule(*cddl, ident.ident@, CLASS_DEPTH as nat),
{
    unwrap_rule_at(cddl, ident.ident.as_str(), CLASS_DEPTH)
}

fn unwrap_rule_at<'a>(c: &'a CDDL, name: &str, fuel: u64) -> (r: Option<&'a TypeRule>)
    ensures
        opt_ref(r) == unwrap_rule(*c, name@, fuel as nat),
    decreases fuel,
{
    if fuel == 0 {
        return None;
    }
    match type_rule_named(c, name) {
        None => None,
        Some(tr) => match crate::lookup::first_container_of(&tr.value.0) {
            Some(_) => Some(tr),
            None => match crate::lookup::first_typename_of(&tr.value.0) {
                Some(n) => unwrap_rule_at(c, n.as_str(), fuel - 1),
                None => None,
            },
        },
    }
}

/// The type choices that the entries of a group choice stand for, in order:
/// a member's value type, the type (or group) rule a name refers to, and the
/// choices of an inline group.
pub open spec fn entries_type_choices(c: CDDL, es: Seq<GroupEntry>, fuel: nat) -> Seq<Type1>
    decreases fuel, 1nat, es.len(),
{
    if es.len() == 0 {
        Seq::empty()
    } else {
        entries_type_choices(c, es.drop_last(), fuel) + entry_type_choices(c, es.last(), fuel)
    }
}

pub open spec fn entry_type_choices(c: CDDL, e: GroupEntry, fuel: nat) -> Seq<Type1>
    decreases fuel, 0nat, 0nat,
{
    if fuel == 0 {
        Seq::empty()
    } else {
        match e {
            GroupEntry::MemberKey(m) => m.entry_type.0@,
            GroupEntry::Groupname(g) => match first_primary(c.rules@, g.name.ident@) {
                Some(i) => match c.rules@[i] {
                    Rule::Type(tr) => tr.value.0@,
                    Rule::Group(gr) => entry_type_choices(c, gr.entry, (fuel - 1) as nat),
                },
                None => Seq::empty(),
            },
            GroupEntry::InlineGroup(_, g) => groups_type_choices(c, g.0@, (fuel - 1) as nat),
        }
    }
}

pub open spec fn groups_type_choices(c: CDDL, gcs: Seq<GroupChoice>, fuel: nat) -> Seq<Type1>
    decreases fuel, 2nat, gcs.len(),
{
    if gcs.len() == 0 {
        Seq::empty()
    } else {
        groups_type_choices(c, gcs.drop_last(), fuel) + entries_type_choices(c, gcs.last().0@, fuel)
    }
}

/// The type choices a group choice stands for, following names at most
/// `CLASS_DEPTH` levels deep.
pub fn type_choices_from_group_choice<'a>(cddl: &'a CDDL, grpchoice: &'a GroupChoice) -> (r: Vec<&'a Type1>)
    ensures
        r@.map_values(|t: &Type1| *t) == entries_type_choices(*cddl, grpchoice.0@, CLASS_DEPTH as nat),
{
    entries_choices_at(cddl, &grpchoice.0, CLASS_DEPTH)
}

#[verifier::loop_isolation(false)]
fn refs_of<'a>(ts: &'a Vec<Type1>) -> (r: Vec<&'a Type1>)
    ensures
        r@.map_values(|t: &Type1| *t) == ts@,
{
    let mut out: Vec<&'a Type1> = Vec::new();
    let mut k: usize = 0;
    while k < ts.len()
        invariant
            k <= ts@.len(),
            out@.map_values(|t: &Type1| *t) == ts@.take(k as int),
        decreases ts@.len() - k,
    {
        let ghost before = out@.map_values(|t: &Type1| *t);
        out.push(&ts[k]);
        assert(out@.map_values(|t: &Type1| *t) =~= before.push(ts@[k as int]));
        assert(ts@.take(k as int + 1) =~= ts@.take(k as int).push(ts@[k as int]));
        k += 1;
    }
    assert(ts@.take(ts@.len() as int) =~= ts@);
    out
}

#[verifier::loop_isolation(false)]
fn entries_choices_at<'a>(c: &'a CDDL, es: &'a Vec<GroupEntry>, fuel: u64) -> (r: Vec<&'a Type1>)
    ensures
        r@.map_values(|t: &Type1| *t) == entries_type_choices(*c, es@, fuel as nat),
    decreases fuel, 1nat,
{
    let mut out: Vec<&'a Type1> = Vec::new();
    let mut i: usize = 0;
    assert(out@.map_values(|t: &Type1| *t) =~= entries_type_choices(*c, es@.take(0), fuel as nat));
    while i < es.len()
        invariant
            i <= es@.len(),
            out@.map_values(|t: &Type1| *t) == entries_type_choices(*c, es@.take(i as int), fuel as nat),
        decreases es@.len() - i,
    {
        assert(es@.take(i as int + 1).drop_last() =~= es@.take(i as int));
        assert(es@.take(i as int + 1).last() == es@[i as int]);
        let ghost before = out@.map_values(|t: &Type1| *t);
        let mut part = entry_choices_at(c, &es[i], fuel);
        let ghost p = part@.map_values(|t: &Type1| *t);
        out.append(&mut part);
        assert(out@.map_values(|t: &Type1| *t) =~= before + p);
        i += 1;
    }
    assert(es@.take(es@.len() as int) =~= es@);
    out
}

fn entry_choices_at<'a>(c: &'a CDDL, e: &'a GroupEntry, fuel: u64) -> (r: Vec<&'a Type1>)
    ensures
        r@.map_values(|t: &Type1| *t) == entry_type_choices(*c, *e, fuel as nat),
    decreases fuel, 0nat,
{
    if fuel == 0 {
        let out: Vec<&'a Type1> = Vec::new();
        assert(out@.map_values(|t: &Type1| *t) =~= Seq::<Type1>::empty());
        return out;
    }
    match e {
        GroupEntry::MemberKey(m) => refs_of(&m.entry_type.0),
        GroupEntry::Groupname(g) => match rule_from_ident(c, &g.name) {
            Some(Rule::Type(tr)) => refs_of(&tr.value.0),
            Some(Rule::Group(gr)) => entry_choices_at(c, &gr.entry, fuel - 1),
            None => {
                let out: Vec<&'a Type1> = Vec::new();
                assert(out@.map_values(|t: &Type1| *t) =~= Seq::<Type1>::empty());
                out
            },
        },
        GroupEntry::InlineGroup(_, g) => groups_choices_at(c, &g.0, fuel - 1),
    }
}

#[verifier::loop_isolation(false)]
fn groups_choices_at<'a>(c: &'a CDDL, gcs: &'a Vec<GroupChoice>, fuel: u64) -> (r: Vec<&'a Type1>)
    ensures
        r@.map_values(|t: &Type1| *t) == groups_type_choices(*c, gcs@, fuel as nat),
    decreases fuel, 2nat,
{
    let mut out: Vec<&'a Type1> = Vec::new();
    let mut i: usize = 0;
    assert(out@.map_values(|t: &Type1| *t) =~= groups_type_choices(*c, gcs@.take(0), fuel as nat));
    while i < gcs.len()
        invariant
            i <= gcs@.len(),
            out@.map_values(|t: &Type1| *t) == groups_type_choices(*c, gcs@.take(i as int), fuel as nat),
        decreases gcs@.len() - i,
    {
        assert(gcs@.take(i as int + 1).drop_last() =~= gcs@.take(i as int));
        assert(gcs@.take(i as int + 1).last() == gcs@[i as int]);
        let ghost before = out@.map_values(|t: &Type1| *t);
        let mut part = entries_choices_at(c, &gcs[i].0, fuel);
        let ghost p = part@.map_values(|t: &Type1| *t);
        out.append(&mut part);
        assert(out@.map_values(|t: &Type1| *t) =~= before + p);
        i += 1;
    }
    assert(gcs@.take(gcs@.len() as int) =~= gcs@);
    out
}

} // verus!
