//! Walks over the rules of a document that collect or classify what a name
//! stands for.
use crate::ast::{GroupEntry, MemberKey, MemberKeyEntry, Rule, Type1, Type2, TypeRule, CDDL};
use crate::numeric::Numeric;
use crate::prelude::{name_in_class, Class};
use crate::semantics::{
    bound_has, choice_declares, choice_in_class, entry_declares, first_container, first_typename,
    ident_in_class, key_literal, literal_key, rule_bound_has, rule_declares, rule_in_class, rule_text_has,
    same_key, text_has, type_rule_from, unwrap_target,
};
use crate::text::str_eq;
use crate::value::Value;
use vstd::prelude::*;

verus! {

/// The value behind an optional reference.
pub open spec fn opt_ref<T>(o: Option<&T>) -> Option<T> {
    match o {
        Some(x) => Some(*x),
        None => None,
    }
}

/// Whether one of the texts is `t`.
pub open spec fn has_text(r: Seq<String>, t: Seq<char>) -> bool {
    exists|k: int| 0 <= k < r.len() && (#[trigger] r[k])@ == t
}

proof fn lemma_contains_append<T>(a: Seq<T>, b: Seq<T>)
    ensures
        forall|x: T| (a + b).contains(x) <==> a.contains(x) || b.contains(x),
{
    assert forall|x: T| (a + b).contains(x) <==> a.contains(x) || b.contains(x) by {
        if (a + b).contains(x) {
            let k = choose|k: int| 0 <= k < (a + b).len() && (a + b)[k] == x;
            if k < a.len() {
                assert(a[k] == x);
            } else {
                assert(b[k - a.len()] == x);
            }
        }
        if a.contains(x) {
            let k = choose|k: int| 0 <= k < a.len() && a[k] == x;
            assert((a + b)[k] == x);
        }
        if b.contains(x) {
            let k = choose|k: int| 0 <= k < b.len() && b[k] == x;
            assert((a + b)[k + a.len()] == x);
        }
    }
}

proof fn lemma_has_text_append(a: Seq<String>, b: Seq<String>)
    ensures
        forall|t: Seq<char>| has_text(a + b, t) <==> has_text(a, t) || has_text(b, t),
{
    assert forall|t: Seq<char>| has_text(a + b, t) <==> has_text(a, t) || has_text(b, t) by {
        if has_text(a + b, t) {
            let k = choose|k: int| 0 <= k < (a + b).len() && (#[trigger] (a + b)[k])@ == t;
            if k < a.len() {
                assert(a[k]@ == t);
            } else {
                assert(b[k - a.len()]@ == t);
            }
        }
        if has_text(a, t) {
            let k = choose|k: int| 0 <= k < a.len() && (#[trigger] a[k])@ == t;
            assert((a + b)[k]@ == t);
        }
        if has_text(b, t) {
            let k = choose|k: int| 0 <= k < b.len() && (#[trigger] b[k])@ == t;
            assert((a + b)[k + a.len()]@ == t);
        }
    }
}

/// Whether a name is a prelude name of a class, or resolves to one through
/// the choices of the type rules of that name.
#[verifier::loop_isolation(false)]
pub fn ident_in_class_at(c: &CDDL, name: &str, class: Class, fuel: u64) -> (r: bool)
    ensures
        r == ident_in_class(*c, name@, class, fuel as nat),
    decreases fuel,
{
    if fuel == 0 {
        return false;
    }
    if name_in_class(name, class) {
        return true;
    }
    let mut i: usize = 0;
    while i < c.rules.len()
        invariant
            fuel > 0,
            i <= c.rules@.len(),
            forall|j: int| 0 <= j < i ==> !rule_in_class(*c, #[trigger] c.rules@[j], name@, class, (fuel - 1) as nat),
        decreases c.rules@.len() - i,
    {
        if rule_in_class_at(c, &c.rules[i], name, class, fuel - 1) {
            assert(rule_in_class(*c, c.rules@[i as int], name@, class, (fuel - 1) as nat));
            return true;
        }
        i += 1;
    }
    false
}

#[verifier::loop_isolation(false)]
fn rule_in_class_at(c: &CDDL, r: &Rule, name: &str, class: Class, fuel: u64) -> (res: bool)
    ensures
        res == rule_in_class(*c, *r, name@, class, fuel as nat),
    decreases fuel,
{
    if fuel == 0 {
        return false;
    }
    match r {
        Rule::Type(tr) => {
            if !str_eq(tr.name.ident.as_str(), name) {
                return false;
            }
            assert(tr.name.ident@ == name@);
            let mut j: usize = 0;
            while j < tr.value.0.len()
                invariant
                    fuel > 0,
                    tr.name.ident@ == name@,
                    j <= tr.value.0@.len(),
                    forall|k: int|
                        0 <= k < j ==> !choice_in_class(*c, #[trigger] tr.value.0@[k], class, (fuel - 1) as nat),
                decreases tr.value.0@.len() - j,
            {
                if choice_in_class_at(c, &tr.value.0[j], class, fuel - 1) {
                    assert(choice_in_class(*c, tr.value.0@[j as int], class, (fuel - 1) as nat));
                    return true;
                }
                j += 1;
            }
            false
        },
        Rule::Group(_) => false,
    }
}

fn choice_in_class_at(c: &CDDL, t1: &Type1, class: Class, fuel: u64) -> (r: bool)
    ensures
        r == choice_in_class(*c, *t1, class, fuel as nat),
    decreases fuel,
{
    if fuel == 0 {
        return false;
    }
    match &t1.type2 {
        Type2::Typename(id, _) => ident_in_class_at(c, id.ident.as_str(), class, fuel - 1),
        _ => false,
    }
}

/// Whether a type is a name that resolves to a prelude name of a class.
pub fn type2_in_class_at(c: &CDDL, t2: &Type2, class: Class, fuel: u64) -> (r: bool)
    ensures
        r == crate::semantics::type2_in_class(*c, *t2, class, fuel as nat),
{
    match t2 {
        Type2::Typename(id, _) => ident_in_class_at(c, id.ident.as_str(), class, fuel),
        _ => false,
    }
}

fn single(x: Numeric) -> (r: Vec<Numeric>)
    ensures
        forall|y: Numeric| r@.contains(y) <==> y == x,
{
    let mut r = Vec::new();
    r.push(x);
    assert(r@[0] == x);
    r
}

/// The numbers a range bound or controller denotes.
#[verifier::loop_isolation(false)]
pub fn bound_values(c: &CDDL, t2: &Type2, fuel: u64) -> (r: Vec<Numeric>)
    ensures
        forall|x: Numeric| #[trigger] r@.contains(x) <==> bound_has(*c, *t2, x, fuel as nat),
    decreases fuel,
{
    if fuel == 0 {
        return Vec::new();
    }
    match t2 {
        Type2::IntValue(n) => {
            assert(bound_has(*c, *t2, Numeric::Int(*n as i128), fuel as nat));
            let r = single(Numeric::Int(*n as i128));
            assert forall|x: Numeric| #[trigger] r@.contains(x) <==> bound_has(*c, *t2, x, fuel as nat) by {
                reveal_with_fuel(bound_has, 1);
            }
            r
        },
        Type2::UintValue(n) => {
            let r = single(Numeric::Int(*n as i128));
            assert forall|x: Numeric| #[trigger] r@.contains(x) <==> bound_has(*c, *t2, x, fuel as nat) by {
                reveal_with_fuel(bound_has, 1);
            }
            r
        },
        Type2::FloatValue(q) => {
            if q.denom == 0 {
                let r: Vec<Numeric> = Vec::new();
                assert forall|x: Numeric| #[trigger] r@.contains(x) <==> bound_has(*c, *t2, x, fuel as nat) by {
                    reveal_with_fuel(bound_has, 1);
                }
                return r;
            }
            let r = single(Numeric::Frac(*q));
            assert forall|x: Numeric| #[trigger] r@.contains(x) <==> bound_has(*c, *t2, x, fuel as nat) by {
                reveal_with_fuel(bound_has, 1);
            }
            r
        },
        Type2::Typename(id, _) => {
            let mut out: Vec<Numeric> = Vec::new();
            let mut i: usize = 0;
            while i < c.rules.len()
                invariant
                    fuel > 0,
                    i <= c.rules@.len(),
                    forall|x: Numeric|
                        #[trigger] out@.contains(x) <==> exists|j: int|
                            0 <= j < i && rule_bound_has(
                                *c,
                                #[trigger] c.rules@[j],
                                id.ident@,
                                x,
                                (fuel - 1) as nat,
                            ),
                decreases c.rules@.len() - i,
            {
                let mut part = rule_bound_values(c, &c.rules[i], id.ident.as_str(), fuel - 1);
                proof {
                    lemma_contains_append(out@, part@);
                }
                let ghost old_out = out@;
                let ghost new_part = part@;
                out.append(&mut part);
                assert forall|x: Numeric| #[trigger] out@.contains(x) <==> exists|j: int|
                    0 <= j < i + 1 && rule_bound_has(
                        *c,
                        #[trigger] c.rules@[j],
                        id.ident@,
                        x,
                        (fuel - 1) as nat,
                    ) by {
                    if out@.contains(x) {
                        if !old_out.contains(x) {
                            assert(new_part.contains(x));
                            assert(rule_bound_has(*c, c.rules@[i as int], id.ident@, x, (fuel - 1) as nat));
                        }
                    }
                    if exists|j: int| 0 <= j < i + 1 && rule_bound_has(
                        *c,
                        #[trigger] c.rules@[j],
                        id.ident@,
                        x,
                        (fuel - 1) as nat,
                    ) {
                        let j = choose|j: int| 0 <= j < i + 1 && rule_bound_has(
                            *c,
                            #[trigger] c.rules@[j],
                            id.ident@,
                            x,
                            (fuel - 1) as nat,
                        );
                        if j == i {
                            assert(new_part.contains(x));
                        } else {
                            assert(old_out.contains(x));
                        }
                    }
                }
                i += 1;
            }
            out
        },
        _ => Vec::new(),
    }
}

#[verifier::loop_isolation(false)]
fn rule_bound_values(c: &CDDL, r: &Rule, name: &str, fuel: u64) -> (res: Vec<Numeric>)
    ensures
        forall|x: Numeric| #[trigger] res@.contains(x) <==> rule_bound_has(*c, *r, name@, x, fuel as nat),
    decreases fuel,
{
    if fuel == 0 {
        return Vec::new();
    }
    match r {
        Rule::Type(tr) => {
            if !str_eq(tr.name.ident.as_str(), name) {
                return Vec::new();
            }
            let mut out: Vec<Numeric> = Vec::new();
            let mut j: usize = 0;
            while j < tr.value.0.len()
                invariant
                    fuel > 0,
                    j <= tr.value.0@.len(),
                    tr.name.ident@ == name@,
                    forall|x: Numeric|
                        #[trigger] out@.contains(x) <==> exists|k: int|
                            0 <= k < j && tr.value.0@[k].operator is None && bound_has(
                                *c,
                                #[trigger] tr.value.0@[k].type2,
                                x,
                                (fuel - 1) as nat,
                            ),
                decreases tr.value.0@.len() - j,
            {
                let t1 = &tr.value.0[j];
                let ghost old_out = out@;
                if t1.operator.is_none() {
                    let mut part = bound_values(c, &t1.type2, fuel - 1);
                    proof {
                        lemma_contains_append(out@, part@);
                    }
                    let ghost new_part = part@;
                    out.append(&mut part);
                    assert forall|x: Numeric| #[trigger] out@.contains(x) <==> exists|k: int|
                        0 <= k < j + 1 && tr.value.0@[k].operator is None && bound_has(
                            *c,
                            #[trigger] tr.value.0@[k].type2,
                            x,
                            (fuel - 1) as nat,
                        ) by {
                        if out@.contains(x) {
                            if !old_out.contains(x) {
                                assert(new_part.contains(x));
                                assert(bound_has(*c, tr.value.0@[j as int].type2, x, (fuel - 1) as nat));
                            }
                        }
                        if exists|k: int| 0 <= k < j + 1 && tr.value.0@[k].operator is None && bound_has(
                            *c,
                            #[trigger] tr.value.0@[k].type2,
                            x,
                            (fuel - 1) as nat,
                        ) {
                            let k = choose|k: int| 0 <= k < j + 1 && tr.value.0@[k].operator is None && bound_has(
                                *c,
                                #[trigger] tr.value.0@[k].type2,
                                x,
                                (fuel - 1) as nat,
                            );
                            if k == j {
                                assert(new_part.contains(x));
                            } else {
                                assert(old_out.contains(x));
                            }
                        }
                    }
                } else {
                    assert forall|x: Numeric| #[trigger] out@.contains(x) <==> exists|k: int|
                        0 <= k < j + 1 && tr.value.0@[k].operator is None && bound_has(
                            *c,
                            #[trigger] tr.value.0@[k].type2,
                            x,
                            (fuel - 1) as nat,
                        ) by {
                        if exists|k: int| 0 <= k < j + 1 && tr.value.0@[k].operator is None && bound_has(
                            *c,
                            #[trigger] tr.value.0@[k].type2,
                            x,
                            (fuel - 1) as nat,
                        ) {
                            let k = choose|k: int| 0 <= k < j + 1 && tr.value.0@[k].operator is None && bound_has(
                                *c,
                                #[trigger] tr.value.0@[k].type2,
                                x,
                                (fuel - 1) as nat,
                            );
                            assert(k != j);
                        }
                    }
                }
                j += 1;
            }
            out
        },
        Rule::Group(_) => Vec::new(),
    }
}

fn single_text(s: &String) -> (r: Vec<String>)
    ensures
        forall|t: Seq<char>| #[trigger] has_text(r@, t) <==> t == s@,
{
    let mut r = Vec::new();
    r.push(s.clone());
    assert(r@[0]@ == s@);
    r
}

/// The texts a controller denotes.
#[verifier::loop_isolation(false)]
pub fn text_values(c: &CDDL, t2: &Type2, fuel: u64) -> (r: Vec<String>)
    ensures
        forall|t: Seq<char>| #[trigger] has_text(r@, t) <==> text_has(*c, *t2, t, fuel as nat),
    decreases fuel,
{
    if fuel == 0 {
        return Vec::new();
    }
    match t2 {
        Type2::TextValue(s) => single_text(s),
        Type2::Typename(id, args) => {
            let mut out: Vec<String> = Vec::new();
            let mut i: usize = 0;
            while i < c.rules.len()
                invariant
                    fuel > 0,
                    i <= c.rules@.len(),
                    forall|t: Seq<char>|
                        #[trigger] has_text(out@, t) <==> exists|j: int|
                            0 <= j < i && rule_text_has(
                                *c,
                                #[trigger] c.rules@[j],
                                id.ident@,
                                t,
                                (fuel - 1) as nat,
                            ),
                decreases c.rules@.len() - i,
            {
                let mut part = rule_text_values(c, &c.rules[i], id.ident.as_str(), fuel - 1);
                proof {
                    lemma_has_text_append(out@, part@);
                }
                let ghost old_out = out@;
                let ghost new_part = part@;
                out.append(&mut part);
                assert forall|t: Seq<char>| #[trigger] has_text(out@, t) <==> exists|j: int|
                    0 <= j < i + 1 && rule_text_has(
                        *c,
                        #[trigger] c.rules@[j],
                        id.ident@,
                        t,
                        (fuel - 1) as nat,
                    ) by {
                    if has_text(out@, t) {
                        if !has_text(old_out, t) {
                            assert(has_text(new_part, t));
                            assert(rule_text_has(*c, c.rules@[i as int], id.ident@, t, (fuel - 1) as nat));
                        }
                    }
                    if exists|j: int| 0 <= j < i + 1 && rule_text_has(
                        *c,
                        #[trigger] c.rules@[j],
                        id.ident@,
                        t,
                        (fuel - 1) as nat,
                    ) {
                        let j = choose|j: int| 0 <= j < i + 1 && rule_text_has(
                            *c,
                            #[trigger] c.rules@[j],
                            id.ident@,
                            t,
                            (fuel - 1) as nat,
                        );
                        if j == i {
                            assert(has_text(new_part, t));
                        } else {
                            assert(has_text(old_out, t));
                        }
                    }
                }
                i += 1;
            }
            assert forall|t: Seq<char>| #[trigger] has_text(out@, t) <==> text_has(*c, *t2, t, fuel as nat) by {
                assert(*t2 == Type2::Typename(*id, *args));
                if has_text(out@, t) {
                    let j = choose|j: int|
                        0 <= j < c.rules@.len() && rule_text_has(
                            *c,
                            #[trigger] c.rules@[j],
                            id.ident@,
                            t,
                            (fuel - 1) as nat,
                        );
                    assert(rule_text_has(*c, c.rules@[j], id.ident@, t, (fuel - 1) as nat));
                }
            }
            out
        },
        _ => Vec::new(),
    }
}

#[verifier::loop_isolation(false)]
fn rule_text_values(c: &CDDL, r: &Rule, name: &str, fuel: u64) -> (res: Vec<String>)
    ensures
        forall|t: Seq<char>| #[trigger] has_text(res@, t) <==> rule_text_has(*c, *r, name@, t, fuel as nat),
    decreases fuel,
{
    if fuel == 0 {
        return Vec::new();
    }
    match r {
        Rule::Type(tr) => {
            if !str_eq(tr.name.ident.as_str(), name) {
                return Vec::new();
            }
            let mut out: Vec<String> = Vec::new();
            let mut j: usize = 0;
            while j < tr.value.0.len()
                invariant
                    fuel > 0,
                    j <= tr.value.0@.len(),
                    tr.name.ident@ == name@,
                    forall|t: Seq<char>|
                        #[trigger] has_text(out@, t) <==> exists|k: int|
                            0 <= k < j && tr.value.0@[k].operator is None && text_has(
                                *c,
                                #[trigger] tr.value.0@[k].type2,
                                t,
                                (fuel - 1) as nat,
                            ),
                decreases tr.value.0@.len() - j,
            {
                let t1 = &tr.value.0[j];
                let ghost old_out = out@;
                if t1.operator.is_none() {
                    let mut part = text_values(c, &t1.type2, fuel - 1);
                    proof {
                        lemma_has_text_append(out@, part@);
                    }
                    let ghost new_part = part@;
                    out.append(&mut part);
                    assert forall|t: Seq<char>| #[trigger] has_text(out@, t) <==> exists|k: int|
                        0 <= k < j + 1 && tr.value.0@[k].operator is None && text_has(
                            *c,
                            #[trigger] tr.value.0@[k].type2,
                            t,
                            (fuel - 1) as nat,
                        ) by {
                        if has_text(out@, t) {
                            if !has_text(old_out, t) {
                                assert(has_text(new_part, t));
                                assert(text_has(*c, tr.value.0@[j as int].type2, t, (fuel - 1) as nat));
                            }
                        }
                        if exists|k: int| 0 <= k < j + 1 && tr.value.0@[k].operator is None && text_has(
                            *c,
                            #[trigger] tr.value.0@[k].type2,
                            t,
                            (fuel - 1) as nat,
                        ) {
                            let k = choose|k: int| 0 <= k < j + 1 && tr.value.0@[k].operator is None && text_has(
                                *c,
                                #[trigger] tr.value.0@[k].type2,
                                t,
                                (fuel - 1) as nat,
                            );
                            if k == j {
                                assert(has_text(new_part, t));
                            } else {
                                assert(has_text(old_out, t));
                            }
                        }
                    }
                } else {
                    assert forall|t: Seq<char>| #[trigger] has_text(out@, t) <==> exists|k: int|
                        0 <= k < j + 1 && tr.value.0@[k].operator is None && text_has(
                            *c,
                            #[trigger] tr.value.0@[k].type2,
                            t,
                            (fuel - 1) as nat,
                        ) by {
                        if exists|k: int| 0 <= k < j + 1 && tr.value.0@[k].operator is None && text_has(
                            *c,
                            #[trigger] tr.value.0@[k].type2,
                            t,
                            (fuel - 1) as nat,
                        ) {
                            let k = choose|k: int| 0 <= k < j + 1 && tr.value.0@[k].operator is None && text_has(
                                *c,
                                #[trigger] tr.value.0@[k].type2,
                                t,
                                (fuel - 1) as nat,
                            );
                            assert(k != j);
                        }
                    }
                }
                j += 1;
            }
            out
        },
        Rule::Group(_) => Vec::new(),
    }
}

/// A literal key of a member entry: a text or an integer.
pub enum KeyLit<'a> {
    Text(&'a String),
    Int(i128),
}

/// The instance key a literal key stands for.
pub open spec fn key_view(k: KeyLit) -> Value {
    match k {
        KeyLit::Text(s) => Value::Text(*s),
        KeyLit::Int(n) => Value::Integer(n),
    }
}

fn key_literal_at<'a>(t: &'a Type2) -> (r: Option<KeyLit<'a>>)
    ensures
        match r {
            Some(x) => key_literal(*t) == Some(key_view(x)),
            None => key_literal(*t) is None,
        },
{
    match t {
        Type2::TextValue(s) => Some(KeyLit::Text(s)),
        Type2::IntValue(n) => Some(KeyLit::Int(*n as i128)),
        Type2::UintValue(n) => Some(KeyLit::Int(*n as i128)),
        _ => None,
    }
}

/// The key that a member entry names literally.
pub fn literal_key_of<'a>(m: &'a MemberKeyEntry) -> (r: Option<KeyLit<'a>>)
    ensures
        match r {
            Some(x) => literal_key(*m) == Some(key_view(x)),
            None => literal_key(*m) is None,
        },
{
    match &m.member_key {
        Some(MemberKey::Bareword(id)) => Some(KeyLit::Text(&id.ident)),
        Some(MemberKey::Value(t)) => key_literal_at(t),
        Some(MemberKey::Type1(b)) => if b.0.operator.is_none() {
            key_literal_at(&b.0.type2)
        } else {
            None
        },
        _ => None,
    }
}

/// Whether an instance key is the literal key.
pub fn same_key_at(a: &Value, k: &KeyLit) -> (r: bool)
    ensures
        r == same_key(*a, key_view(*k)),
{
    match (a, k) {
        (Value::Text(x), KeyLit::Text(y)) => str_eq(x.as_str(), y.as_str()),
        (Value::Integer(m), KeyLit::Int(n)) => *m == *n,
        _ => false,
    }
}

/// Whether an entry declares the key `k`, directly or through the groups it
/// refers to.
#[verifier::loop_isolation(false)]
pub fn entry_declares_at(c: &CDDL, e: &GroupEntry, k: &Value, fuel: u64) -> (r: bool)
    ensures
        r == entry_declares(*c, *e, *k, fuel as nat),
    decreases fuel,
{
    if fuel == 0 {
        return false;
    }
    match e {
        GroupEntry::MemberKey(m) => match literal_key_of(m) {
            Some(x) => same_key_at(k, &x),
            None => false,
        },
        GroupEntry::Groupname(g) => {
            let mut i: usize = 0;
            while i < c.rules.len()
                invariant
                    i <= c.rules@.len(),
                    forall|j: int|
                        0 <= j < i ==> !rule_declares(*c, #[trigger] c.rules@[j], g.name.ident@, *k, (fuel - 1) as nat),
                decreases c.rules@.len() - i,
            {
                if rule_declares_at(c, &c.rules[i], g.name.ident.as_str(), k, fuel - 1) {
                    assert(rule_declares(*c, c.rules@[i as int], g.name.ident@, *k, (fuel - 1) as nat));
                    return true;
                }
                i += 1;
            }
            false
        },
        GroupEntry::InlineGroup(_, g) => {
            let mut i: usize = 0;
            while i < g.0.len()
                invariant
                    i <= g.0@.len(),
                    forall|j: int| 0 <= j < i ==> !choice_declares(*c, #[trigger] g.0@[j].0@, *k, (fuel - 1) as nat),
                decreases g.0@.len() - i,
            {
                if choice_declares_at(c, &g.0[i].0, k, fuel - 1) {
                    assert(choice_declares(*c, g.0@[i as int].0@, *k, (fuel - 1) as nat));
                    return true;
                }
                i += 1;
            }
            false
        },
    }
}

fn rule_declares_at(c: &CDDL, r: &Rule, name: &str, k: &Value, fuel: u64) -> (res: bool)
    ensures
        res == rule_declares(*c, *r, name@, *k, fuel as nat),
    decreases fuel,
{
    if fuel == 0 {
        return false;
    }
    match r {
        Rule::Group(gr) => str_eq(gr.name.ident.as_str(), name) && entry_declares_at(c, &gr.entry, k, fuel - 1),
        Rule::Type(_) => false,
    }
}

/// Whether some entry of a group choice declares the key `k`.
#[verifier::loop_isolation(false)]
pub fn choice_declares_at(c: &CDDL, es: &Vec<GroupEntry>, k: &Value, fuel: u64) -> (r: bool)
    ensures
        r == choice_declares(*c, es@, *k, fuel as nat),
    decreases fuel,
{
    if fuel == 0 {
        return false;
    }
    let mut j: usize = 0;
    while j < es.len()
        invariant
            j <= es@.len(),
            forall|i: int| 0 <= i < j ==> !entry_declares(*c, #[trigger] es@[i], *k, (fuel - 1) as nat),
        decreases es@.len() - j,
    {
        if entry_declares_at(c, &es[j], k, fuel - 1) {
            assert(entry_declares(*c, es@[j as int], *k, (fuel - 1) as nat));
            return true;
        }
        j += 1;
    }
    false
}

/// The first type rule with this name that does not extend an earlier one.
#[verifier::loop_isolation(false)]
pub fn type_rule_named<'a>(c: &'a CDDL, name: &str) -> (r: Option<&'a TypeRule>)
    ensures
        opt_ref(r) == type_rule_from(c.rules@, name@),
{
    let mut i: usize = 0;
    assert(c.rules@.subrange(0, c.rules@.len() as int) =~= c.rules@);
    while i < c.rules.len()
        invariant
            i <= c.rules@.len(),
            type_rule_from(c.rules@, name@) == type_rule_from(c.rules@.subrange(i as int, c.rules@.len() as int), name@),
        decreases c.rules@.len() - i,
    {
        let ghost rest = c.rules@.subrange(i as int, c.rules@.len() as int);
        assert(rest[0] == c.rules@[i as int]);
        assert(rest.drop_first() =~= c.rules@.subrange(i as int + 1, c.rules@.len() as int));
        match &c.rules[i] {
            Rule::Type(tr) => {
                if str_eq(tr.name.ident.as_str(), name) && !tr.is_type_choice_alternate {
                    return Some(tr);
                }
            },
            _ => {},
        }
        i += 1;
    }
    assert(c.rules@.subrange(i as int, c.rules@.len() as int).len() == 0);
    None
}

/// The first choice that is an array, a map or a tag.
#[verifier::loop_isolation(false)]
pub fn first_container_of(ts: &Vec<Type1>) -> (r: Option<&Type2>)
    ensures
        opt_ref(r) == first_container(ts@),
{
    let mut i: usize = 0;
    assert(ts@.subrange(0, ts@.len() as int) =~= ts@);
    while i < ts.len()
        invariant
            i <= ts@.len(),
            first_container(ts@) == first_container(ts@.subrange(i as int, ts@.len() as int)),
        decreases ts@.len() - i,
    {
        let ghost rest = ts@.subrange(i as int, ts@.len() as int);
        assert(rest[0] == ts@[i as int]);
        assert(rest.drop_first() =~= ts@.subrange(i as int + 1, ts@.len() as int));
        let t2 = &ts[i].type2;
        match t2 {
            Type2::Array(_) => return Some(t2),
            Type2::MapDef(_) => return Some(t2),
            Type2::TaggedData(_, _) => return Some(t2),
            _ => {},
        }
        i += 1;
    }
    assert(ts@.subrange(i as int, ts@.len() as int).len() == 0);
    None
}

/// The name of the first choice that is a name without generic arguments.
#[verifier::loop_isolation(false)]
pub fn first_typename_of(ts: &Vec<Type1>) -> (r: Option<&String>)
    ensures
        match r {
            Some(x) => first_typename(ts@) == Some(x@),
            None => first_typename(ts@) is None,
        },
{
    let mut i: usize = 0;
    assert(ts@.subrange(0, ts@.len() as int) =~= ts@);
    while i < ts.len()
        invariant
            i <= ts@.len(),
            first_typename(ts@) == first_typename(ts@.subrange(i as int, ts@.len() as int)),
        decreases ts@.len() - i,
    {
        let ghost rest = ts@.subrange(i as int, ts@.len() as int);
        assert(rest[0] == ts@[i as int]);
        assert(rest.drop_first() =~= ts@.subrange(i as int + 1, ts@.len() as int));
        match &ts[i].type2 {
            Type2::Typename(id, args) => if args.is_none() {
                return Some(&id.ident);
            },
            _ => {},
        }
        i += 1;
    }
    assert(ts@.subrange(i as int, ts@.len() as int).len() == 0);
    None
}

/// The container that `~name` unwraps.
pub fn unwrap_target_at<'a>(c: &'a CDDL, name: &str, fuel: u64) -> (r: Option<&'a Type2>)
    ensures
        opt_ref(r) == unwrap_target(*c, name@, fuel as nat),
    decreases fuel,
{
    if fuel == 0 {
        return None;
    }
    match type_rule_named(c, name) {
        None => None,
        Some(tr) => match first_container_of(&tr.value.0) {
            Some(t2) => Some(t2),
            None => match first_typename_of(&tr.value.0) {
                Some(n) => unwrap_target_at(c, n.as_str(), fuel - 1),
                None => None,
            },
        },
    }
}

} // verus!
