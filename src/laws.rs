//! Properties of validation that hold for every document and instance.
use crate::ast::{Group, GroupEntry, MemberKeyEntry, Type, Type2, CDDL};
use crate::error::Error;
use crate::numeric::{num_lt, Numeric};
use crate::semantics::{
    enum_choice_ok, enum_group_ok, group_value_ok, in_range, is_cut, key_is, literal_key,
    map_choice_ok, pairs_of, range_ok, type1_ok, type2_ok, type_ok, Env,
    unwrap_target,
};
use crate::validator::accepts;
use crate::value::{Target, Value};
use vstd::prelude::*;

verus! {

/// A type accepts a value exactly when one of its choices does: a value that
/// some choice accepts is accepted, and a rejection means that every choice
/// rejected it.
pub proof fn lemma_alternation_sound(c: CDDL, tg: Target, env: Env, t: Type, v: Value, fuel: nat)
    ensures
        type_ok(c, tg, env, t, v, fuel + 1) <==> exists|i: int|
            0 <= i < t.0@.len() && type1_ok(c, tg, env, #[trigger] t.0@[i], v, fuel),
        !type_ok(c, tg, env, t, v, fuel + 1) ==> forall|i: int|
            0 <= i < t.0@.len() ==> !type1_ok(c, tg, env, #[trigger] t.0@[i], v, fuel),
{
}

/// The verdict of a type does not depend on the order of its choices: two
/// types with the same choices accept the same values.
pub proof fn lemma_type_choice_order(c: CDDL, tg: Target, env: Env, t: Type, u: Type, v: Value, fuel: nat)
    requires
        forall|x| t.0@.contains(x) <==> u.0@.contains(x),
    ensures
        type_ok(c, tg, env, t, v, fuel) == type_ok(c, tg, env, u, v, fuel),
{
    if fuel > 0 {
        if type_ok(c, tg, env, t, v, fuel) {
            let i = choose|i: int| 0 <= i < t.0@.len() && type1_ok(c, tg, env, #[trigger] t.0@[i], v, (fuel - 1) as nat);
            assert(t.0@.contains(t.0@[i]));
            let j = choose|j: int| 0 <= j < u.0@.len() && u.0@[j] == t.0@[i];
            assert(type1_ok(c, tg, env, u.0@[j], v, (fuel - 1) as nat));
        }
        if type_ok(c, tg, env, u, v, fuel) {
            let i = choose|i: int| 0 <= i < u.0@.len() && type1_ok(c, tg, env, #[trigger] u.0@[i], v, (fuel - 1) as nat);
            assert(u.0@.contains(u.0@[i]));
            let j = choose|j: int| 0 <= j < t.0@.len() && t.0@[j] == u.0@[i];
            assert(type1_ok(c, tg, env, t.0@[j], v, (fuel - 1) as nat));
        }
    }
}

/// The verdict of a group does not depend on the order of its choices.
pub proof fn lemma_group_choice_order(c: CDDL, tg: Target, env: Env, g: Group, h: Group, v: Value, fuel: nat)
    requires
        forall|x| g.0@.contains(x) <==> h.0@.contains(x),
    ensures
        group_value_ok(c, tg, env, g, v, fuel) == group_value_ok(c, tg, env, h, v, fuel),
{
    if fuel > 0 {
        let f = (fuel - 1) as nat;
        match v {
            Value::Object(_) => {
                if group_value_ok(c, tg, env, g, v, fuel) {
                    let i = choose|i: int| 0 <= i < g.0@.len() && map_choice_ok(c, tg, env, (#[trigger] g.0@[i]).0@, v, f);
                    assert(g.0@.contains(g.0@[i]));
                    let j = choose|j: int| 0 <= j < h.0@.len() && h.0@[j] == g.0@[i];
                    assert(map_choice_ok(c, tg, env, h.0@[j].0@, v, f));
                }
                if group_value_ok(c, tg, env, h, v, fuel) {
                    let i = choose|i: int| 0 <= i < h.0@.len() && map_choice_ok(c, tg, env, (#[trigger] h.0@[i]).0@, v, f);
                    assert(h.0@.contains(h.0@[i]));
                    let j = choose|j: int| 0 <= j < g.0@.len() && g.0@[j] == h.0@[i];
                    assert(map_choice_ok(c, tg, env, g.0@[j].0@, v, f));
                }
            },
            Value::Array(items) => {
                if group_value_ok(c, tg, env, g, v, fuel) {
                    let i = choose|i: int|
                        0 <= i < g.0@.len() && crate::semantics::array_choice_ok(c, tg, env, (#[trigger] g.0@[i]).0@, items@, f);
                    assert(g.0@.contains(g.0@[i]));
                    let j = choose|j: int| 0 <= j < h.0@.len() && h.0@[j] == g.0@[i];
                    assert(crate::semantics::array_choice_ok(c, tg, env, h.0@[j].0@, items@, f));
                }
                if group_value_ok(c, tg, env, h, v, fuel) {
                    let i = choose|i: int|
                        0 <= i < h.0@.len() && crate::semantics::array_choice_ok(c, tg, env, (#[trigger] h.0@[i]).0@, items@, f);
                    assert(h.0@.contains(h.0@[i]));
                    let j = choose|j: int| 0 <= j < g.0@.len() && g.0@[j] == h.0@[i];
                    assert(crate::semantics::array_choice_ok(c, tg, env, g.0@[j].0@, items@, f));
                }
            },
            _ => {},
        }
    }
}

/// Validating the same instance against the same document twice gives the
/// same verdict, which depends on the document, the instance, whether it is
/// JSON or CBOR, and the depth limit, and on nothing else.
pub proof fn lemma_validation_deterministic(
    c: CDDL,
    tg: Target,
    v: Value,
    depth: nat,
    first: Result<(), Error>,
    second: Result<(), Error>,
)
    requires
        first is Ok <==> accepts(c, tg, v, depth),
        second is Ok <==> accepts(c, tg, v, depth),
    ensures
        first is Ok <==> second is Ok,
{
}

/// Adding an entry to a group choice can only enlarge what `&group` accepts.
pub proof fn lemma_enumeration_monotone(
    c: CDDL,
    tg: Target,
    env: Env,
    es: Seq<GroupEntry>,
    e: GroupEntry,
    v: Value,
    fuel: nat,
)
    requires
        enum_choice_ok(c, tg, env, es, v, fuel),
    ensures
        enum_choice_ok(c, tg, env, es.push(e), v, fuel),
{
    let f = (fuel - 1) as nat;
    let j = choose|j: int| 0 <= j < es.len() && crate::semantics::enum_entry_ok(c, tg, env, #[trigger] es[j], v, f);
    assert(es.push(e)[j] == es[j]);
    assert(crate::semantics::enum_entry_ok(c, tg, env, es.push(e)[j], v, f));
}

/// The same for a whole group: extending one of its choices by an entry can
/// only enlarge what `&group` accepts.
pub proof fn lemma_enumeration_group_monotone(
    c: CDDL,
    tg: Target,
    env: Env,
    g: Group,
    h: Group,
    k: int,
    e: GroupEntry,
    v: Value,
    fuel: nat,
)
    requires
        0 <= k < g.0@.len(),
        h.0@.len() == g.0@.len(),
        h.0@[k].0@ == g.0@[k].0@.push(e),
        forall|i: int| 0 <= i < g.0@.len() && i != k ==> h.0@[i] == g.0@[i],
        enum_group_ok(c, tg, env, g, v, fuel),
    ensures
        enum_group_ok(c, tg, env, h, v, fuel),
{
    let f = (fuel - 1) as nat;
    let i = choose|i: int| 0 <= i < g.0@.len() && enum_choice_ok(c, tg, env, (#[trigger] g.0@[i]).0@, v, f);
    if i == k {
        lemma_enumeration_monotone(c, tg, env, g.0@[k].0@, e, v, f);
        assert(enum_choice_ok(c, tg, env, h.0@[k].0@, v, f));
    } else {
        assert(enum_choice_ok(c, tg, env, h.0@[i].0@, v, f));
    }
}

/// Whether a pair breaks a cut entry: the entry carries a cut, the pair has
/// its literal key, and the value is not of the entry's type.
pub open spec fn cut_broken(c: CDDL, tg: Target, env: Env, e: GroupEntry, p: (Value, Value), fuel: nat) -> bool {
    match e {
        GroupEntry::MemberKey(m) => is_cut(*m) && match literal_key(*m) {
            Some(k) => key_is(p, k) && !type_ok(c, tg, env, m.entry_type, p.1, fuel),
            None => false,
        },
        _ => false,
    }
}

/// A cut entry `k ^ => T` whose key is present with a value that `T`
/// rejects makes its group choice reject the map, wildcard or not.
pub proof fn lemma_cut_is_final(
    c: CDDL,
    tg: Target,
    env: Env,
    es: Seq<GroupEntry>,
    i: int,
    m: MemberKeyEntry,
    k: Value,
    v: Value,
    j: int,
    fuel: nat,
)
    requires
        0 <= i < es.len(),
        es[i] == GroupEntry::MemberKey(Box::new(m)),
        literal_key(m) == Some(k),
        is_cut(m),
        0 <= j < pairs_of(v).len(),
        key_is(pairs_of(v)[j], k),
        !type_ok(c, tg, env, m.entry_type, pairs_of(v)[j].1, fuel),
    ensures
        !map_choice_ok(c, tg, env, es, v, fuel + 3),
{
    let w = crate::semantics::wildcard_of(es);
    assert(!crate::semantics::member_value_ok(c, tg, env, m, w, pairs_of(v)[j].1, fuel + 1));
    assert(crate::semantics::has_key(pairs_of(v), k));
    assert(!crate::semantics::map_entry_ok(c, tg, env, es[i], v, w, fuel + 2));
}

/// An integer range accepts both of its bounds when inclusive, and its lower
/// bound but not its upper bound when exclusive.
pub proof fn lemma_range_bounds(lo: i128, hi: i128)
    requires
        lo < hi,
    ensures
        in_range(Numeric::Int(lo), Numeric::Int(hi), true, Value::Integer(lo)),
        in_range(Numeric::Int(lo), Numeric::Int(hi), true, Value::Integer(hi)),
        in_range(Numeric::Int(lo), Numeric::Int(hi), false, Value::Integer(lo)),
        !in_range(Numeric::Int(lo), Numeric::Int(hi), false, Value::Integer(hi)),
{
}

/// The same for literal bounds as written in a schema: `lo .. hi` accepts
/// both, `lo ... hi` accepts `lo` and rejects `hi`.
pub proof fn lemma_literal_range_bounds(c: CDDL, lower: Type2, upper: Type2, lo: i64, hi: i64, fuel: nat)
    requires
        lower == Type2::IntValue(lo),
        upper == Type2::IntValue(hi),
        lo < hi,
        fuel > 0,
    ensures
        range_ok(c, lower, upper, true, Value::Integer(lo as i128), fuel),
        range_ok(c, lower, upper, true, Value::Integer(hi as i128), fuel),
        range_ok(c, lower, upper, false, Value::Integer(lo as i128), fuel),
        !range_ok(c, lower, upper, false, Value::Integer(hi as i128), fuel),
{
    let a = Numeric::Int(lo as i128);
    let b = Numeric::Int(hi as i128);
    assert(crate::semantics::bound_has(c, lower, a, fuel));
    assert(crate::semantics::bound_has(c, upper, b, fuel));
    lemma_range_bounds(lo as i128, hi as i128);
}

/// A fractional range accepts both of its bounds when inclusive, and its
/// lower bound but not its upper bound when exclusive.
pub proof fn lemma_fraction_range_bounds(lo: crate::value::Fraction, hi: crate::value::Fraction)
    requires
        lo.denom > 0,
        hi.denom > 0,
        num_lt(Numeric::Frac(lo), Numeric::Frac(hi)),
    ensures
        in_range(Numeric::Frac(lo), Numeric::Frac(hi), true, Value::Float(lo)),
        in_range(Numeric::Frac(lo), Numeric::Frac(hi), true, Value::Float(hi)),
        in_range(Numeric::Frac(lo), Numeric::Frac(hi), false, Value::Float(lo)),
        !in_range(Numeric::Frac(lo), Numeric::Frac(hi), false, Value::Float(hi)),
{
}

/// `~name` accepts exactly what the interior of the container that `name`
/// leads to accepts (the interior is read outside any generic bindings).
pub proof fn lemma_unwrap_identity(c: CDDL, tg: Target, env: Env, t2: Type2, v: Value, fuel: nat)
    requires
        t2 is Unwrap,
    ensures
        match unwrap_target(c, t2->Unwrap_0.ident@, fuel) {
            Some(Type2::Array(g)) => type2_ok(c, tg, env, t2, v, fuel + 2) == group_value_ok(c, tg, Seq::empty(), g, v, fuel),
            Some(Type2::MapDef(g)) => type2_ok(c, tg, env, t2, v, fuel + 2) == group_value_ok(c, tg, Seq::empty(), g, v, fuel),
            Some(Type2::TaggedData(_, t)) => type2_ok(c, tg, env, t2, v, fuel + 2) == type_ok(c, tg, Seq::empty(), t, v, fuel),
            _ => !type2_ok(c, tg, env, t2, v, fuel + 2),
        },
{
}

} // verus!
