//! The validator: a walk over the schema that decides, for an instance,
//! exactly what `semantics` says, and reports why when the answer is no.
use crate::ast::{
    GenericArg, GenericParm, Group, GroupEntry, MemberKey, MemberKeyEntry, Occur, RangeCtlOp, Rule, Type, Type1, Type2, CDDL,
};
use crate::error::Error;
use crate::foreign::{decode_b64url, decode_hex, parses_as_rfc3339, parses_as_uri_reference, regex_match};
use crate::lookup::{
    bound_values, choice_declares_at, has_text, key_view, literal_key_of, opt_ref, same_key_at,
    text_values, type2_in_class_at, unwrap_target_at, KeyLit,
};
use crate::numeric::{compare, value_numeric, Numeric};
use crate::pattern::format_regex;
use crate::prelude::{prelude_from_str, Class, Prelude};
use crate::semantics::{
    absent_ok, array_choice_ok, compares, control_ok, count_ok, entry_occur, entry_value_ok,
    enum_choice_ok, enum_entry_ok, enum_group_ok, enum_rule_ok, enum_via_rule, env_lookup,
    group_value_ok, in_range, inline_map_ok, is_cut, is_wildcard, key_is, leftover_ok,
    map_choice_ok, map_entry_ok, member_value_ok, pairs_of, pow2, pow256, prelude_ok, range_ok,
    resolve_arg, rule_env, rule_map_ok, rule_value_ok, size_ok, text_type_key, type1_ok, type2_ok,
    type_ok, typename_ok, unwrap_ok, wildcard_of, bit_set, byte_bit_set, Env, lengths_fit, max_take,
    min_len, max_len, min_take, seq_ok, takes, computed_key, takes_pair, rep_group, reps_ok,
};
use crate::text::{bytes_eq, str_eq};
use crate::value::{Target, Value};
use vstd::prelude::*;

verus! {

fn note(s: &str) -> (r: String) {
    s.to_owned()
}

/// What a prelude type accepts.
pub fn validate_prelude(tg: Target, p: Prelude, v: &Value) -> (r: Result<(), Error>)
    ensures
        r is Ok <==> prelude_ok(tg, p, *v),
        r matches Err(e) ==> e is ValueMismatch,
{
    let ok = match p {
        Prelude::Any => true,
        Prelude::Bool => matches!(v, Value::Bool(_)),
        Prelude::True => matches!(v, Value::Bool(true)),
        Prelude::False => matches!(v, Value::Bool(false)),
        Prelude::Null => matches!(v, Value::Null),
        Prelude::Uint => match v {
            Value::Integer(n) => *n >= 0,
            _ => false,
        },
        Prelude::Nint => match v {
            Value::Integer(n) => *n < 0,
            _ => false,
        },
        Prelude::Int => matches!(v, Value::Integer(_)),
        Prelude::Number => value_numeric(v).is_some() || matches!(v, Value::OtherFloat),
        Prelude::Float => (matches!(v, Value::Float(_)) && value_numeric(v).is_some()) || matches!(v, Value::OtherFloat)
            || (matches!(tg, Target::Json) && matches!(v, Value::Integer(_))),
        Prelude::Text => matches!(v, Value::Text(_)),
        Prelude::Bytes => matches!(v, Value::Bytes(_)),
        Prelude::Tdate => match v {
            Value::Text(s) => parses_as_rfc3339(s.as_str()),
            _ => false,
        },
        Prelude::Time => value_numeric(v).is_some() || matches!(v, Value::OtherFloat),
        Prelude::Uri => match v {
            Value::Text(s) => parses_as_uri_reference(s.as_str()),
            _ => false,
        },
        Prelude::B64url => matches!(v, Value::Text(_)),
    };
    if ok {
        Ok(())
    } else {
        Err(Error::ValueMismatch(note("value is not of the prelude type")))
    }
}

/// Whether a number lies between two bounds of one domain.
pub fn in_range_at(lo: Numeric, hi: Numeric, inclusive: bool, v: &Value) -> (r: bool)
    ensures
        r == in_range(lo, hi, inclusive, *v),
{
    match value_numeric(v) {
        None => false,
        Some(n) => {
            let lo_int = matches!(lo, Numeric::Int(_));
            let hi_int = matches!(hi, Numeric::Int(_));
            let n_int = matches!(n, Numeric::Int(_));
            if !((lo_int && hi_int && n_int) || (!lo_int && !hi_int)) {
                return false;
            }
            if compare(lo, n) > 0 {
                return false;
            }
            let up = compare(n, hi);
            if inclusive {
                up <= 0
            } else {
                up < 0
            }
        },
    }
}

/// `lower .. upper` / `lower ... upper`.
#[verifier::loop_isolation(false)]
pub fn validate_range(c: &CDDL, lower: &Type2, upper: &Type2, inclusive: bool, v: &Value, fuel: u64) -> (r:
    Result<(), Error>)
    ensures
        r is Ok <==> range_ok(*c, *lower, *upper, inclusive, *v, fuel as nat),
        r matches Err(e) ==> e is ValueMismatch,
        fuel > 0 && *lower is IntValue && *upper is IntValue && lower->IntValue_0 < upper->IntValue_0 ==> ((*v
            == Value::Integer(lower->IntValue_0 as i128) ==> r is Ok) && (*v == Value::Integer(
            upper->IntValue_0 as i128,
        ) ==> (r is Ok <==> inclusive))),
{
    proof {
        if fuel > 0 && *lower is IntValue && *upper is IntValue && lower->IntValue_0 < upper->IntValue_0 {
            crate::laws::lemma_literal_range_bounds(*c, *lower, *upper, lower->IntValue_0, upper->IntValue_0, fuel as nat);
        }
    }
    let los = bound_values(c, lower, fuel);
    let his = bound_values(c, upper, fuel);
    let mut i: usize = 0;
    while i < los.len()
        invariant
            i <= los@.len(),
            forall|a: int, b: int|
                0 <= a < i && 0 <= b < his@.len() ==> !in_range(#[trigger] los@[a], #[trigger] his@[b], inclusive, *v),
        decreases los@.len() - i,
    {
        let mut j: usize = 0;
        while j < his.len()
            invariant
                i < los@.len(),
                j <= his@.len(),
                forall|a: int, b: int|
                    0 <= a < i && 0 <= b < his@.len() ==> !in_range(#[trigger] los@[a], #[trigger] his@[b], inclusive, *v),
                forall|b: int| 0 <= b < j ==> !in_range(los@[i as int], #[trigger] his@[b], inclusive, *v),
            decreases his@.len() - j,
        {
            if in_range_at(los[i], his[j], inclusive, v) {
                assert(los@.contains(los@[i as int]));
                assert(his@.contains(his@[j as int]));
                return Ok(());
            }
            j += 1;
        }
        i += 1;
    }
    assert forall|lo: Numeric, hi: Numeric|
        #![trigger crate::semantics::bound_has(*c, *lower, lo, fuel as nat), crate::semantics::bound_has(*c, *upper, hi, fuel as nat)]
        crate::semantics::bound_has(*c, *lower, lo, fuel as nat) && crate::semantics::bound_has(*c, *upper, hi, fuel as nat)
            implies !in_range(lo, hi, inclusive, *v) by {
        assert(los@.contains(lo));
        assert(his@.contains(hi));
        let a = choose|a: int| 0 <= a < los@.len() && los@[a] == lo;
        let b = choose|b: int| 0 <= b < his@.len() && his@[b] == hi;
        assert(!in_range(los@[a], his@[b], inclusive, *v));
    }
    Err(Error::ValueMismatch(note("value lies outside the range")))
}

/// Whether an entry is the wildcard entry `* tstr => type`.
fn entry_is_wildcard(e: &GroupEntry) -> (r: bool)
    ensures
        r == is_wildcard(*e),
{
    match e {
        GroupEntry::MemberKey(m) => {
            let me: &MemberKeyEntry = &**m;
            matches!(me.occur, Some(Occur::ZeroOrMore)) && text_key(me) && !cut_of(me)
        },
        _ => false,
    }
}

/// Whether a member entry's key is the type `tstr` (or `text`).
fn text_key(m: &MemberKeyEntry) -> (r: bool)
    ensures
        r == text_type_key(*m),
{
    match &m.member_key {
        Some(MemberKey::Type1(b)) => match &b.0.type2 {
            Type2::Typename(id, _) => b.0.operator.is_none() && (str_eq(id.ident.as_str(), "tstr") || str_eq(
                id.ident.as_str(),
                "text",
            )),
            _ => false,
        },
        _ => false,
    }
}

fn cut_of(m: &MemberKeyEntry) -> (r: bool)
    ensures
        r == is_cut(*m),
{
    match &m.member_key {
        Some(MemberKey::Type1(b)) => b.1,
        _ => false,
    }
}

/// The value type of the first wildcard entry of a group choice.
#[verifier::loop_isolation(false)]
fn wildcard_entry(es: &Vec<GroupEntry>) -> (r: Option<&Type>)
    ensures
        opt_ref(r) == wildcard_of(es@),
{
    let mut i: usize = 0;
    assert(es@.subrange(0, es@.len() as int) =~= es@);
    while i < es.len()
        invariant
            i <= es@.len(),
            wildcard_of(es@) == wildcard_of(es@.subrange(i as int, es@.len() as int)),
        decreases es@.len() - i,
    {
        let ghost rest = es@.subrange(i as int, es@.len() as int);
        assert(rest[0] == es@[i as int]);
        assert(rest.drop_first() =~= es@.subrange(i as int + 1, es@.len() as int));
        if entry_is_wildcard(&es[i]) {
            match &es[i] {
                GroupEntry::MemberKey(m) => return Some(&m.entry_type),
                _ => {},
            }
        }
        i += 1;
    }
    assert(es@.subrange(i as int, es@.len() as int).len() == 0);
    None
}

fn absent_ok_at(o: &Option<Occur>) -> (r: bool)
    ensures
        r == absent_ok(*o),
{
    match o {
        Some(Occur::Optional) => true,
        Some(Occur::ZeroOrMore) => true,
        Some(Occur::Exact(l, _)) => match l {
            None => true,
            Some(x) => *x == 0,
        },
        _ => false,
    }
}

/// Whether a type carries a `.default`.
#[verifier::loop_isolation(false)]
fn type_has_default(t: &Type) -> (r: bool)
    ensures
        r == crate::semantics::has_default(*t),
{
    let mut i: usize = 0;
    while i < t.0.len()
        invariant
            i <= t.0@.len(),
            forall|j: int| 0 <= j < i ==> !crate::semantics::is_default_choice(#[trigger] t.0@[j]),
        decreases t.0@.len() - i,
    {
        match &t.0[i].operator {
            Some((RangeCtlOp::CtlOp(name), _)) => {
                if str_eq(name.as_str(), "default") {
                    assert(crate::semantics::is_default_choice(t.0@[i as int]));
                    return true;
                }
            },
            _ => {},
        }
        i += 1;
    }
    false
}

fn count_ok_at(o: &Occur, n: usize) -> (r: bool)
    ensures
        r == count_ok(*o, n as int),
{
    match o {
        Occur::Optional => n <= 1,
        Occur::ZeroOrMore => true,
        Occur::OneOrMore => n >= 1,
        Occur::Exact(l, u) => {
            let lo_ok = match l {
                Some(x) => *x <= n,
                None => true,
            };
            let hi_ok = match u {
                Some(y) => n <= *y,
                None => true,
            };
            lo_ok && hi_ok
        },
    }
}

fn occur_of(e: &GroupEntry) -> (r: &Option<Occur>)
    ensures
        *r == entry_occur(*e),
{
    match e {
        GroupEntry::MemberKey(m) => &m.occur,
        GroupEntry::Groupname(g) => &g.occur,
        GroupEntry::InlineGroup(o, _) => o,
    }
}

fn pair_key_is(p: &(Value, Value), k: &KeyLit) -> (r: bool)
    ensures
        r == key_is(*p, key_view(*k)),
{
    same_key_at(&p.0, k)
}

/// A literal key as an error message names it.
fn key_text(k: &KeyLit) -> String {
    match k {
        KeyLit::Text(s) => (*s).clone(),
        KeyLit::Int(_) => note("an integer key"),
    }
}

/// The bindings as the semantics reads them.
pub open spec fn env_view(e: Seq<(&String, &Type1)>) -> Env {
    e.map_values(|p: (&String, &Type1)| (p.0@, *p.1))
}

/// The type a generic parameter is bound to.
#[verifier::loop_isolation(false)]
fn env_lookup_at<'a>(env: &Vec<(&'a String, &'a Type1)>, name: &str) -> (r: Option<&'a Type1>)
    ensures
        opt_ref(r) == env_lookup(env_view(env@), name@),
{
    let ghost ev = env_view(env@);
    let mut i: usize = 0;
    assert(ev.subrange(0, ev.len() as int) =~= ev);
    while i < env.len()
        invariant
            i <= env@.len(),
            ev == env_view(env@),
            env_lookup(ev, name@) == env_lookup(ev.subrange(i as int, ev.len() as int), name@),
        decreases env@.len() - i,
    {
        let ghost rest = ev.subrange(i as int, ev.len() as int);
        assert(rest[0] == ev[i as int]);
        assert(rest.drop_first() =~= ev.subrange(i as int + 1, ev.len() as int));
        let (n, t) = env[i];
        if str_eq(n.as_str(), name) {
            return Some(t);
        }
        i += 1;
    }
    assert(ev.subrange(i as int, ev.len() as int).len() == 0);
    None
}

/// An argument as bound: a bare bound name gives way to its binding.
fn resolve_arg_at<'a>(a: &'a Type1, env: &Vec<(&'a String, &'a Type1)>) -> (r: &'a Type1)
    ensures
        *r == resolve_arg(*a, env_view(env@)),
{
    match &a.type2 {
        Type2::Typename(n, args) => {
            if a.operator.is_none() && args.is_none() {
                match env_lookup_at(env, n.ident.as_str()) {
                    Some(b) => b,
                    None => a,
                }
            } else {
                a
            }
        },
        _ => a,
    }
}

/// The bindings under which a rule's body is read.
#[verifier::loop_isolation(false)]
fn rule_env_at<'a>(r: &'a Rule, args: &'a Option<GenericArg>, env: &Vec<(&'a String, &'a Type1)>) -> (res: Option<
    Vec<(&'a String, &'a Type1)>,
>)
    ensures
        match rule_env(*r, *args, env_view(env@)) {
            Some(e) => res matches Some(x) && env_view(x@) == e,
            None => res is None,
        },
{
    let params: &'a Option<GenericParm> = match r {
        Rule::Type(tr) => &tr.generic_param,
        Rule::Group(gr) => &gr.generic_para,
    };
    match (params, args) {
        (None, None) => {
            let out: Vec<(&'a String, &'a Type1)> = Vec::new();
            assert(env_view(out@) =~= Seq::<(Seq<char>, Type1)>::empty());
            Some(out)
        },
        (Some(p), Some(a)) => {
            if p.0.len() != a.0.len() {
                return None;
            }
            let ghost want = Seq::new(p.0@.len(), |k: int| (p.0@[k].ident@, resolve_arg(a.0@[k], env_view(env@))));
            let mut out: Vec<(&'a String, &'a Type1)> = Vec::new();
            let mut k: usize = 0;
            while k < p.0.len()
                invariant
                    k <= p.0@.len(),
                    p.0@.len() == a.0@.len(),
                    env_view(out@) == want.take(k as int),
                decreases p.0@.len() - k,
            {
                let b = resolve_arg_at(&a.0[k], env);
                let ghost before = env_view(out@);
                out.push((&p.0[k].ident, b));
                assert(env_view(out@) =~= before.push((p.0@[k as int].ident@, *b)));
                assert(want.take(k as int + 1) =~= want.take(k as int).push(want[k as int]));
                k += 1;
            }
            assert(want.take(p.0@.len() as int) =~= want);
            Some(out)
        },
        _ => None,
    }
}

/// A type: its choices are tried in order, and their failures collected.
#[verifier::loop_isolation(false)]
pub fn validate_type<'a>(c: &'a CDDL, tg: Target, env: &Vec<(&'a String, &'a Type1)>, t: &'a Type, v: &Value, fuel: u64) -> (r: Result<(), Error>)
    ensures
        r is Ok <==> type_ok(*c, tg, env_view(env@), *t, *v, fuel as nat),
        fuel > 0 ==> (r is Ok <==> exists|i: int|
            0 <= i < t.0@.len() && type1_ok(*c, tg, env_view(env@), #[trigger] t.0@[i], *v, (fuel - 1) as nat)),
        r matches Err(e) ==> e is RecursionLimit || e is MultiError,
        fuel > 0 ==> (r matches Err(e) ==> (e matches Error::MultiError(es) && es@.len() == t.0@.len())),
    decreases fuel,
{
    if fuel == 0 {
        return Err(Error::RecursionLimit);
    }
    let mut errors: Vec<Error> = Vec::new();
    let mut i: usize = 0;
    while i < t.0.len()
        invariant
            i <= t.0@.len(),
            errors@.len() == i,
            forall|j: int| 0 <= j < i ==> !type1_ok(*c, tg, env_view(env@), #[trigger] t.0@[j], *v, (fuel - 1) as nat),
        decreases t.0@.len() - i,
    {
        match validate_type1(c, tg, env, &t.0[i], v, fuel - 1) {
            Ok(()) => {
                assert(type1_ok(*c, tg, env_view(env@), t.0@[i as int], *v, (fuel - 1) as nat));
                return Ok(());
            },
            Err(e) => errors.push(e),
        }
        i += 1;
    }
    Err(Error::MultiError(errors))
}

pub fn validate_type1<'a>(c: &'a CDDL, tg: Target, env: &Vec<(&'a String, &'a Type1)>, t1: &'a Type1, v: &Value, fuel: u64) -> (r: Result<(), Error>)
    ensures
        r is Ok <==> type1_ok(*c, tg, env_view(env@), *t1, *v, fuel as nat),
    decreases fuel,
{
    if fuel == 0 {
        return Err(Error::RecursionLimit);
    }
    match &t1.operator {
        None => validate_type2(c, tg, env, &t1.type2, v, fuel - 1),
        Some((op, rhs)) => match op {
            RangeCtlOp::RangeOp(inclusive) => validate_range(c, &t1.type2, rhs, *inclusive, v, fuel - 1),
            RangeCtlOp::CtlOp(name) => validate_control_operator(c, tg, env, &t1.type2, name.as_str(), rhs, v, fuel - 1),
        },
    }
}

fn mismatch() -> (r: Result<(), Error>)
    ensures
        r matches Err(e) && e is ValueMismatch,
{
    Err(Error::ValueMismatch(note("value differs from the literal")))
}

fn literal_num(x: Numeric, v: &Value) -> (r: Result<(), Error>)
    ensures
        r is Ok <==> crate::semantics::literal_num_ok(x, *v),
        r matches Err(e) ==> e is ValueMismatch,
{
    match value_numeric(v) {
        Some(n) => if compare(n, x) == 0 {
            Ok(())
        } else {
            mismatch()
        },
        None => mismatch(),
    }
}

pub fn validate_type2<'a>(c: &'a CDDL, tg: Target, env: &Vec<(&'a String, &'a Type1)>, t2: &'a Type2, v: &Value, fuel: u64) -> (r: Result<(), Error>)
    ensures
        r is Ok <==> type2_ok(*c, tg, env_view(env@), *t2, *v, fuel as nat),
        fuel > 1 && (*t2 is ChoiceFromGroup || *t2 is ChoiceFromInlineGroup) ==> (r matches Err(e)
            ==> e is NoEnumeratedMemberMatched),
        (*t2 is TextValue || *t2 is UTF8ByteString || *t2 is IntValue || *t2 is UintValue || *t2 is FloatValue
            || *t2 is BoolValue) && fuel > 0 ==> (r matches Err(e) ==> e is ValueMismatch),
        fuel >= 2 && *t2 is Unwrap ==> match crate::semantics::unwrap_target(*c, t2->Unwrap_0.ident@, (fuel - 2) as nat) {
            Some(Type2::Array(g)) => (r is Ok <==> group_value_ok(*c, tg, Seq::empty(), g, *v, (fuel - 2) as nat)),
            Some(Type2::MapDef(g)) => (r is Ok <==> group_value_ok(*c, tg, Seq::empty(), g, *v, (fuel - 2) as nat)),
            Some(Type2::TaggedData(_, t)) => (r is Ok <==> type_ok(*c, tg, Seq::empty(), t, *v, (fuel - 2) as nat)),
            _ => r is Err,
        },
    decreases fuel,
{
    proof {
        if fuel >= 2 && *t2 is Unwrap {
            crate::laws::lemma_unwrap_identity(*c, tg, env_view(env@), *t2, *v, (fuel - 2) as nat);
        }
    }
    if fuel == 0 {
        return Err(Error::RecursionLimit);
    }
    let f = fuel - 1;
    match t2 {
        Type2::TextValue(s) => match v {
            Value::Text(x) => if str_eq(x.as_str(), s.as_str()) {
                Ok(())
            } else {
                mismatch()
            },
            _ => mismatch(),
        },
        Type2::UTF8ByteString(b) => match v {
            Value::Bytes(x) => if bytes_eq(x.as_slice(), b.as_slice()) {
                Ok(())
            } else {
                mismatch()
            },
            _ => mismatch(),
        },
        Type2::B16ByteString(b) => match v {
            Value::Bytes(x) => match decode_hex(b.as_slice()) {
                Some(d) => if bytes_eq(d.as_slice(), x.as_slice()) {
                    Ok(())
                } else {
                    mismatch()
                },
                None => Err(Error::Syntax(note("byte string literal is not valid base16"))),
            },
            _ => mismatch(),
        },
        Type2::B64ByteString(b) => match v {
            Value::Bytes(x) => if b.len() > usize::MAX - 3 {
                Err(Error::Syntax(note("byte string literal is too long")))
            } else {
                match decode_b64url(b.as_slice()) {
                Some(d) => if bytes_eq(d.as_slice(), x.as_slice()) {
                    Ok(())
                } else {
                    mismatch()
                },
                None => Err(Error::Syntax(note("byte string literal is not valid base64"))),
                }
            },
            _ => mismatch(),
        },
        Type2::IntValue(n) => literal_num(Numeric::Int(*n as i128), v),
        Type2::UintValue(n) => literal_num(Numeric::Int(*n as i128), v),
        Type2::FloatValue(q) => if q.denom == 0 {
            mismatch()
        } else {
            literal_num(Numeric::Frac(*q), v)
        },
        Type2::BoolValue(b) => match v {
            Value::Bool(x) => if *x == *b {
                Ok(())
            } else {
                mismatch()
            },
            _ => mismatch(),
        },
        Type2::Typename(id, args) => validate_typename(c, tg, env, &id.ident, args, v, f),
        Type2::ParenthesizedType(t) => validate_type(c, tg, env, t, v, f),
        Type2::MapDef(g) => match v {
            Value::Object(_) => validate_group(c, tg, env, g, v, f),
            _ => Err(Error::StructureMismatch(note("expected a map"))),
        },
        Type2::Array(g) => match v {
            Value::Array(_) => validate_group(c, tg, env, g, v, f),
            _ => Err(Error::StructureMismatch(note("expected an array"))),
        },
        Type2::Unwrap(id, _) => validate_unwrap(c, tg, env, &id.ident, v, f),
        Type2::ChoiceFromInlineGroup(g) => validate_group_to_choice_enum(c, tg, env, g, v, f),
        Type2::ChoiceFromGroup(id, args) => validate_enum_rule(c, tg, env, &id.ident, args, v, f),
        Type2::TaggedData(tag, t) => match v {
            Value::Tag(n, inner) => {
                match tag {
                    Some(x) => if *x != *n {
                        return Err(Error::TagMismatch(*n));
                    },
                    None => {},
                }
                validate_type(c, tg, env, t, &**inner, f)
            },
            _ => match tg {
                Target::Json => validate_type(c, tg, env, t, v, f),
                Target::Cbor => Err(Error::StructureMismatch(note("expected a tagged value"))),
            },
        },
        Type2::Any => Ok(()),
    }
}

/// A name: a generic parameter bound in the environment, a prelude type, or
/// the union of the rules that carry it.
#[verifier::loop_isolation(false)]
pub fn validate_typename<'a>(
    c: &'a CDDL,
    tg: Target,
    env: &Vec<(&'a String, &'a Type1)>,
    name: &'a String,
    args: &'a Option<GenericArg>,
    v: &Value,
    fuel: u64,
) -> (r: Result<(), Error>)
    ensures
        r is Ok <==> typename_ok(*c, tg, env_view(env@), name@, *args, *v, fuel as nat),
        fuel > 0 ==> ((r matches Err(e) && e is UnknownIdentifier) <==> (env_lookup(env_view(env@), name@) is None
            && crate::prelude::prelude_of(name@) is None && forall|j: int|
            0 <= j < c.rules@.len() ==> (#[trigger] c.rules@[j]).spec_name() != name@)),
    decreases fuel,
{
    if fuel == 0 {
        return Err(Error::RecursionLimit);
    }
    match env_lookup_at(env, name.as_str()) {
        Some(bound) => {
            let empty: Vec<(&'a String, &'a Type1)> = Vec::new();
            assert(env_view(empty@) =~= Seq::<(Seq<char>, Type1)>::empty());
            match validate_type1(c, tg, &empty, bound, v, fuel - 1) {
                Ok(()) => Ok(()),
                Err(e) => Err(Error::MultiError(vec![e])),
            }
        },
        None => match prelude_from_str(name.as_str()) {
            Some(p) => validate_prelude(tg, p, v),
            None => validate_rule_for_ident(c, tg, env, name, args, v, fuel),
        },
    }
}

/// The rules that carry a name, taken as one union.
#[verifier::loop_isolation(false)]
fn validate_rule_for_ident<'a>(
    c: &'a CDDL,
    tg: Target,
    env: &Vec<(&'a String, &'a Type1)>,
    name: &'a String,
    args: &'a Option<GenericArg>,
    v: &Value,
    fuel: u64,
) -> (r: Result<(), Error>)
    requires
        fuel > 0,
        env_lookup(env_view(env@), name@) is None,
        crate::prelude::prelude_of(name@) is None,
    ensures
        r is Ok <==> typename_ok(*c, tg, env_view(env@), name@, *args, *v, fuel as nat),
        (r matches Err(e) && e is UnknownIdentifier) <==> forall|j: int|
            0 <= j < c.rules@.len() ==> (#[trigger] c.rules@[j]).spec_name() != name@,
    decreases fuel, 0nat,
{
    let mut errors: Vec<Error> = Vec::new();
    let mut i: usize = 0;
    while i < c.rules.len()
        invariant
            i <= c.rules@.len(),
            errors@.len() == 0 <==> forall|j: int| 0 <= j < i ==> (#[trigger] c.rules@[j]).spec_name() != name@,
            forall|j: int|
                0 <= j < i && (#[trigger] c.rules@[j]).spec_name() == name@ ==> !rule_value_ok(
                    *c,
                    tg,
                    env_view(env@),
                    c.rules@[j],
                    *args,
                    *v,
                    (fuel - 1) as nat,
                ),
        decreases c.rules@.len() - i,
    {
        let r = &c.rules[i];
        if str_eq(r.name().ident.as_str(), name.as_str()) {
            match validate_rule_value(c, tg, env, r, args, v, fuel - 1) {
                Ok(()) => {
                    assert(rule_value_ok(*c, tg, env_view(env@), c.rules@[i as int], *args, *v, (fuel - 1) as nat));
                    return Ok(());
                },
                Err(e) => {
                    errors.push(e);
                    assert(c.rules@[i as int].spec_name() == name@);
                },
            }
        }
        i += 1;
    }
    if errors.len() == 0 {
        Err(Error::UnknownIdentifier(name.clone()))
    } else {
        Err(Error::MultiError(errors))
    }
}

/// A rule invoked with arguments: its body under its parameters' bindings.
fn validate_rule_value<'a>(
    c: &'a CDDL,
    tg: Target,
    env: &Vec<(&'a String, &'a Type1)>,
    r: &'a Rule,
    args: &'a Option<GenericArg>,
    v: &Value,
    fuel: u64,
) -> (res: Result<(), Error>)
    ensures
        res is Ok <==> rule_value_ok(*c, tg, env_view(env@), *r, *args, *v, fuel as nat),
    decreases fuel,
{
    if fuel == 0 {
        return Err(Error::RecursionLimit);
    }
    match rule_env_at(r, args, env) {
        Some(inner) => match r {
            Rule::Type(tr) => validate_type(c, tg, &inner, &tr.value, v, fuel - 1),
            Rule::Group(gr) => validate_entry_value(c, tg, &inner, &gr.entry, v, fuel - 1),
        },
        None => Err(Error::Syntax(note("generic arguments do not fit the rule's parameters"))),
    }
}

/// A group entry taken as the type of one whole value.
fn validate_entry_value<'a>(c: &'a CDDL, tg: Target, env: &Vec<(&'a String, &'a Type1)>, e: &'a GroupEntry, v: &Value, fuel: u64) -> (r: Result<(), Error>)
    ensures
        r is Ok <==> entry_value_ok(*c, tg, env_view(env@), *e, *v, fuel as nat),
    decreases fuel,
{
    if fuel == 0 {
        return Err(Error::RecursionLimit);
    }
    match e {
        GroupEntry::MemberKey(m) => validate_type(c, tg, env, &m.entry_type, v, fuel - 1),
        GroupEntry::Groupname(g) => validate_typename(c, tg, env, &g.name.ident, &g.generic_arg, v, fuel - 1),
        GroupEntry::InlineGroup(_, g) => validate_group(c, tg, env, g, v, fuel - 1),
    }
}

/// A map or an array against a group: its choices are tried in order.
#[verifier::loop_isolation(false)]
pub fn validate_group<'a>(c: &'a CDDL, tg: Target, env: &Vec<(&'a String, &'a Type1)>, g: &'a Group, v: &Value, fuel: u64) -> (r: Result<(), Error>)
    ensures
        r is Ok <==> group_value_ok(*c, tg, env_view(env@), *g, *v, fuel as nat),
        r matches Err(e) ==> e is RecursionLimit || e is MultiError || e is StructureMismatch,
        fuel > 0 && (*v is Object || *v is Array) ==> (r matches Err(e) ==> (e matches Error::MultiError(es)
            && es@.len() == g.0@.len())),
    decreases fuel,
{
    if fuel == 0 {
        return Err(Error::RecursionLimit);
    }
    let mut errors: Vec<Error> = Vec::new();
    match v {
        Value::Object(_) => {
            let mut i: usize = 0;
            while i < g.0.len()
                invariant
                    i <= g.0@.len(),
                    errors@.len() == i,
                    forall|j: int| 0 <= j < i ==> !map_choice_ok(*c, tg, env_view(env@), (#[trigger] g.0@[j]).0@, *v, (fuel - 1) as nat),
                decreases g.0@.len() - i,
            {
                match validate_group_choice_map(c, tg, env, &g.0[i].0, v, fuel - 1) {
                    Ok(()) => {
                        assert(map_choice_ok(*c, tg, env_view(env@), g.0@[i as int].0@, *v, (fuel - 1) as nat));
                        return Ok(());
                    },
                    Err(e) => errors.push(e),
                }
                i += 1;
            }
            Err(Error::MultiError(errors))
        },
        Value::Array(items) => {
            let mut i: usize = 0;
            while i < g.0.len()
                invariant
                    i <= g.0@.len(),
                    errors@.len() == i,
                    forall|j: int|
                        0 <= j < i ==> !array_choice_ok(*c, tg, env_view(env@), (#[trigger] g.0@[j]).0@, items@, (fuel - 1) as nat),
                decreases g.0@.len() - i,
            {
                match validate_group_choice_array(c, tg, env, &g.0[i].0, items, fuel - 1) {
                    Ok(()) => {
                        assert(array_choice_ok(*c, tg, env_view(env@), g.0@[i as int].0@, items@, (fuel - 1) as nat));
                        return Ok(());
                    },
                    Err(e) => errors.push(e),
                }
                i += 1;
            }
            Err(Error::MultiError(errors))
        },
        _ => Err(Error::StructureMismatch(note("expected a map or an array"))),
    }
}

/// A map against one group choice: every entry, then every pair.
#[verifier::loop_isolation(false)]
fn validate_group_choice_map<'a>(c: &'a CDDL, tg: Target, env: &Vec<(&'a String, &'a Type1)>, es: &Vec<GroupEntry>, v: &Value, fuel: u64) -> (r: Result<(), Error>)
    ensures
        r is Ok <==> map_choice_ok(*c, tg, env_view(env@), es@, *v, fuel as nat),
        fuel >= 3 && (exists|a: int, b: int|
            0 <= a < es@.len() && 0 <= b < pairs_of(*v).len() && crate::laws::cut_broken(
                *c,
                tg,
                env_view(env@),
                #[trigger] es@[a],
                #[trigger] pairs_of(*v)[b],
                (fuel - 3) as nat,
            )) ==> r is Err,
    decreases fuel,
{
    proof {
        if fuel >= 3 && (exists|a: int, b: int|
            0 <= a < es@.len() && 0 <= b < pairs_of(*v).len() && crate::laws::cut_broken(
                *c,
                tg,
                env_view(env@),
                #[trigger] es@[a],
                #[trigger] pairs_of(*v)[b],
                (fuel - 3) as nat,
            )) {
            let (a, b) = choose|a: int, b: int|
                0 <= a < es@.len() && 0 <= b < pairs_of(*v).len() && crate::laws::cut_broken(
                    *c,
                    tg,
                    env_view(env@),
                    #[trigger] es@[a],
                    #[trigger] pairs_of(*v)[b],
                    (fuel - 3) as nat,
                );
            let m = *es@[a]->MemberKey_0;
            assert(es@[a] == GroupEntry::MemberKey(Box::new(m)));
            crate::laws::lemma_cut_is_final(
                *c,
                tg,
                env_view(env@),
                es@,
                a,
                m,
                crate::semantics::literal_key(m)->0,
                *v,
                b,
                (fuel - 3) as nat,
            );
        }
    }
    if fuel == 0 {
        return Err(Error::RecursionLimit);
    }
    let w = wildcard_entry(es);
    let mut i: usize = 0;
    while i < es.len()
        invariant
            i <= es@.len(),
            forall|j: int| 0 <= j < i ==> map_entry_ok(*c, tg, env_view(env@), #[trigger] es@[j], *v, opt_ref(w), (fuel - 1) as nat),
        decreases es@.len() - i,
    {
        match validate_group_entry(c, tg, env, &es[i], v, w, fuel - 1) {
            Ok(()) => {},
            Err(e) => {
                assert(!map_entry_ok(*c, tg, env_view(env@), es@[i as int], *v, opt_ref(w), (fuel - 1) as nat));
                return Err(e);
            },
        }
        i += 1;
    }
    match v {
        Value::Object(ps) => {
            let mut j: usize = 0;
            while j < ps.len()
                invariant
                    j <= ps@.len(),
                    pairs_of(*v) == ps@,
                    forall|k: int| 0 <= k < j ==> leftover_ok(*c, tg, env_view(env@), es@, #[trigger] ps@[k], (fuel - 1) as nat),
                decreases ps@.len() - j,
            {
                match validate_leftover(c, tg, env, es, &ps[j], fuel - 1) {
                    Ok(()) => {},
                    Err(e) => {
                        assert(!leftover_ok(*c, tg, env_view(env@), es@, ps@[j as int], (fuel - 1) as nat));
                        return Err(e);
                    },
                }
                j += 1;
            }
            Ok(())
        },
        _ => Ok(()),
    }
}

/// A pair that no entry declares must be taken by an entry keyed by a type.
#[verifier::loop_isolation(false)]
fn validate_leftover<'a>(
    c: &'a CDDL,
    tg: Target,
    env: &Vec<(&'a String, &'a Type1)>,
    es: &'a Vec<GroupEntry>,
    p: &(Value, Value),
    fuel: u64,
) -> (r: Result<(), Error>)
    ensures
        r is Ok <==> leftover_ok(*c, tg, env_view(env@), es@, *p, fuel as nat),
    decreases fuel,
{
    if fuel == 0 {
        return Err(Error::RecursionLimit);
    }
    if choice_declares_at(c, es, &p.0, fuel - 1) {
        return Ok(());
    }
    let mut i: usize = 0;
    while i < es.len()
        invariant
            i <= es@.len(),
            forall|q: int| 0 <= q < i ==> !takes_pair(*c, tg, env_view(env@), #[trigger] es@[q], *p, (fuel - 1) as nat),
        decreases es@.len() - i,
    {
        if validate_takes_pair(c, tg, env, &es[i], p, fuel - 1) {
            assert(takes_pair(*c, tg, env_view(env@), es@[i as int], *p, (fuel - 1) as nat));
            return Ok(());
        }
        i += 1;
    }
    match &p.0 {
        Value::Text(k) => Err(Error::UnexpectedKey(k.clone())),
        _ => Err(Error::UnexpectedKey(note("an undeclared key that is not text"))),
    }
}

/// The key type of a member entry keyed by a type.
fn computed_key_of<'a>(m: &'a MemberKeyEntry) -> (r: Option<&'a Type1>)
    ensures
        opt_ref(r) == computed_key(*m),
{
    match &m.member_key {
        Some(MemberKey::Type1(b)) => if literal_key_of(m).is_none() {
            Some(&b.0)
        } else {
            None
        },
        _ => None,
    }
}

/// Whether an entry keyed by a type takes a pair.
fn validate_takes_pair<'a>(
    c: &'a CDDL,
    tg: Target,
    env: &Vec<(&'a String, &'a Type1)>,
    e: &'a GroupEntry,
    p: &(Value, Value),
    fuel: u64,
) -> (r: bool)
    ensures
        r == takes_pair(*c, tg, env_view(env@), *e, *p, fuel as nat),
    decreases fuel,
{
    if fuel == 0 {
        return false;
    }
    match e {
        GroupEntry::MemberKey(m) => {
            let me: &MemberKeyEntry = &**m;
            match computed_key_of(me) {
                Some(k) => validate_type1(c, tg, env, k, &p.0, fuel - 1).is_ok() && validate_type(
                    c,
                    tg,
                    env,
                    &me.entry_type,
                    &p.1,
                    fuel - 1,
                ).is_ok(),
                None => false,
            }
        },
        _ => false,
    }
}

/// One entry of a map group.
#[verifier::loop_isolation(false)]
fn validate_group_entry<'a>(c: &'a CDDL, tg: Target, env: &Vec<(&'a String, &'a Type1)>, e: &'a GroupEntry, v: &Value, w: Option<&'a Type>, fuel: u64) -> (r: Result<(), Error>)
    ensures
        r is Ok <==> map_entry_ok(*c, tg, env_view(env@), *e, *v, opt_ref(w), fuel as nat),
    decreases fuel,
{
    if fuel == 0 {
        return Err(Error::RecursionLimit);
    }
    match e {
        GroupEntry::MemberKey(m) => {
            let me: &MemberKeyEntry = &**m;
            match literal_key_of(me) {
                Some(k) => {
                    let ps: &Vec<(Value, Value)> = match v {
                        Value::Object(ps) => ps,
                        _ => {
                            return if absent_ok_at(&me.occur) || type_has_default(&me.entry_type) {
                                Ok(())
                            } else {
                                Err(Error::MissingKey(key_text(&k)))
                            };
                        },
                    };
                    let mut found = false;
                    let mut j: usize = 0;
                    while j < ps.len()
                        invariant
                            j <= ps@.len(),
                            pairs_of(*v) == ps@,
                            found == exists|q: int| 0 <= q < j && #[trigger] key_is(ps@[q], key_view(k)),
                            forall|q: int|
                                0 <= q < j && key_is(ps@[q], key_view(k)) ==> member_value_ok(*c, tg, env_view(env@),
                                    *me,
                                    opt_ref(w),
                                    (#[trigger] ps@[q]).1,
                                    (fuel - 1) as nat,
                                ),
                        decreases ps@.len() - j,
                    {
                        if pair_key_is(&ps[j], &k) {
                            found = true;
                            match validate_member_value(c, tg, env, me, w, &ps[j].1, fuel - 1) {
                                Ok(()) => {},
                                Err(e) => {
                                    assert(!member_value_ok(*c, tg, env_view(env@), *me, opt_ref(w), ps@[j as int].1, (fuel - 1) as nat));
                                    return Err(e);
                                },
                            }
                        }
                        j += 1;
                    }
                    if found {
                        Ok(())
                    } else if absent_ok_at(&me.occur) || type_has_default(&me.entry_type) {
                        Ok(())
                    } else {
                        Err(Error::MissingKey(key_text(&k)))
                    }
                },
                None => {
                    if computed_key_of(me).is_some() {
                        if absent_ok_at(&me.occur) {
                            return Ok(());
                        }
                        let ps: &Vec<(Value, Value)> = match v {
                            Value::Object(ps) => ps,
                            _ => return Err(Error::MissingKey(note("a key of the entry's key type"))),
                        };
                        let mut j: usize = 0;
                        while j < ps.len()
                            invariant
                                j <= ps@.len(),
                                pairs_of(*v) == ps@,
                                forall|q: int|
                                    0 <= q < j ==> !takes_pair(*c, tg, env_view(env@), *e, #[trigger] ps@[q], (fuel - 1) as nat),
                            decreases ps@.len() - j,
                        {
                            if validate_takes_pair(c, tg, env, e, &ps[j], fuel - 1) {
                                assert(takes_pair(*c, tg, env_view(env@), *e, ps@[j as int], (fuel - 1) as nat));
                                return Ok(());
                            }
                            j += 1;
                        }
                        Err(Error::MissingKey(note("a key of the entry's key type")))
                    } else if me.member_key.is_none() {
                        validate_type(c, tg, env, &me.entry_type, v, fuel - 1)
                    } else {
                        Err(Error::Syntax(note("map keys must be literals, barewords or the wildcard")))
                    }
                },
            }
        },
        GroupEntry::Groupname(g) => {
            let mut errors: Vec<Error> = Vec::new();
            let mut i: usize = 0;
            while i < c.rules.len()
                invariant
                    i <= c.rules@.len(),
                    forall|j: int|
                        0 <= j < i && (#[trigger] c.rules@[j]).spec_name() == g.name.ident@ ==> !rule_map_ok(*c, tg, env_view(env@),
                            c.rules@[j],
                            g.generic_arg,
                            *v,
                            opt_ref(w),
                            (fuel - 1) as nat,
                        ),
                decreases c.rules@.len() - i,
            {
                let r = &c.rules[i];
                if str_eq(r.name().ident.as_str(), g.name.ident.as_str()) {
                    match validate_rule_map(c, tg, env, r, &g.generic_arg, v, w, fuel - 1) {
                        Ok(()) => {
                            assert(rule_map_ok(*c, tg, env_view(env@), c.rules@[i as int], g.generic_arg, *v, opt_ref(w), (fuel - 1) as nat));
                            return Ok(());
                        },
                        Err(e) => errors.push(e),
                    }
                }
                i += 1;
            }
            if errors.len() == 0 {
                Err(Error::UnknownIdentifier(g.name.ident.clone()))
            } else {
                Err(Error::MultiError(errors))
            }
        },
        GroupEntry::InlineGroup(_, g) => {
            let mut errors: Vec<Error> = Vec::new();
            let mut i: usize = 0;
            while i < g.0.len()
                invariant
                    i <= g.0@.len(),
                    forall|j: int|
                        0 <= j < i ==> !inline_map_ok(*c, tg, env_view(env@), (#[trigger] g.0@[j]).0@, *v, opt_ref(w), (fuel - 1) as nat),
                decreases g.0@.len() - i,
            {
                match validate_inline_map(c, tg, env, &g.0[i].0, v, w, fuel - 1) {
                    Ok(()) => {
                        assert(inline_map_ok(*c, tg, env_view(env@), g.0@[i as int].0@, *v, opt_ref(w), (fuel - 1) as nat));
                        return Ok(());
                    },
                    Err(e) => errors.push(e),
                }
                i += 1;
            }
            Err(Error::MultiError(errors))
        },
    }
}

/// The value of a present key: the entry's type, else (without a cut) the
/// wildcard type.
fn validate_member_value<'a>(
    c: &'a CDDL,
    tg: Target,
    env: &Vec<(&'a String, &'a Type1)>,
    m: &'a MemberKeyEntry,
    w: Option<&'a Type>,
    x: &Value,
    fuel: u64,
) -> (r: Result<(), Error>)
    ensures
        r is Ok <==> member_value_ok(*c, tg, env_view(env@), *m, opt_ref(w), *x, fuel as nat),
    decreases fuel,
{
    if fuel == 0 {
        return Err(Error::RecursionLimit);
    }
    match validate_type(c, tg, env, &m.entry_type, x, fuel - 1) {
        Ok(()) => Ok(()),
        Err(e) => {
            if cut_of(m) {
                return Err(e);
            }
            match w {
                Some(wt) => validate_type(c, tg, env, wt, x, fuel - 1),
                None => Err(e),
            }
        },
    }
}

fn validate_rule_map<'a>(
    c: &'a CDDL,
    tg: Target,
    env: &Vec<(&'a String, &'a Type1)>,
    r: &'a Rule,
    args: &'a Option<GenericArg>,
    v: &Value,
    w: Option<&'a Type>,
    fuel: u64,
) -> (res: Result<(), Error>)
    ensures
        res is Ok <==> rule_map_ok(*c, tg, env_view(env@), *r, *args, *v, opt_ref(w), fuel as nat),
    decreases fuel,
{
    if fuel == 0 {
        return Err(Error::RecursionLimit);
    }
    match rule_env_at(r, args, env) {
        Some(inner) => match r {
            Rule::Group(gr) => validate_group_entry(c, tg, &inner, &gr.entry, v, w, fuel - 1),
            Rule::Type(tr) => validate_type(c, tg, &inner, &tr.value, v, fuel - 1),
        },
        None => Err(Error::Syntax(note("generic arguments do not fit the rule's parameters"))),
    }
}

#[verifier::loop_isolation(false)]
fn validate_inline_map<'a>(c: &'a CDDL, tg: Target, env: &Vec<(&'a String, &'a Type1)>, es: &Vec<GroupEntry>, v: &Value, w: Option<&'a Type>, fuel: u64) -> (r:
    Result<(), Error>)
    ensures
        r is Ok <==> inline_map_ok(*c, tg, env_view(env@), es@, *v, opt_ref(w), fuel as nat),
    decreases fuel,
{
    if fuel == 0 {
        return Err(Error::RecursionLimit);
    }
    let mut i: usize = 0;
    while i < es.len()
        invariant
            i <= es@.len(),
            forall|j: int| 0 <= j < i ==> map_entry_ok(*c, tg, env_view(env@), #[trigger] es@[j], *v, opt_ref(w), (fuel - 1) as nat),
        decreases es@.len() - i,
    {
        match validate_group_entry(c, tg, env, &es[i], v, w, fuel - 1) {
            Ok(()) => {},
            Err(e) => {
                assert(!map_entry_ok(*c, tg, env_view(env@), es@[i as int], *v, opt_ref(w), (fuel - 1) as nat));
                return Err(e);
            },
        }
        i += 1;
    }
    Ok(())
}

/// The entries of a group choice as they stand in an array.
#[verifier::loop_isolation(false)]
fn flatten_entries<'a>(c: &'a CDDL, es: &'a Vec<GroupEntry>, fuel: u64) -> (r: Vec<&'a GroupEntry>)
    ensures
        r@.map_values(|e: &GroupEntry| *e) == crate::semantics::flat_entries(*c, es@, fuel as nat),
    decreases fuel, 1nat,
{
    let mut out: Vec<&'a GroupEntry> = Vec::new();
    let mut i: usize = 0;
    assert(out@.map_values(|e: &GroupEntry| *e) =~= crate::semantics::flat_entries(*c, es@.take(0), fuel as nat));
    while i < es.len()
        invariant
            i <= es@.len(),
            out@.map_values(|e: &GroupEntry| *e) == crate::semantics::flat_entries(*c, es@.take(i as int), fuel as nat),
        decreases es@.len() - i,
    {
        assert(es@.take(i as int + 1).drop_last() =~= es@.take(i as int));
        assert(es@.take(i as int + 1).last() == es@[i as int]);
        let ghost before = out@.map_values(|e: &GroupEntry| *e);
        let mut part = flatten_entry(c, &es[i], fuel);
        let ghost p = part@.map_values(|e: &GroupEntry| *e);
        out.append(&mut part);
        assert(out@.map_values(|e: &GroupEntry| *e) =~= before + p);
        i += 1;
    }
    assert(es@.take(es@.len() as int) =~= es@);
    out
}

fn flatten_entry<'a>(c: &'a CDDL, e: &'a GroupEntry, fuel: u64) -> (r: Vec<&'a GroupEntry>)
    ensures
        r@.map_values(|x: &GroupEntry| *x) == crate::semantics::flat_entry(*c, *e, fuel as nat),
    decreases fuel, 0nat,
{
    let mut single: Vec<&'a GroupEntry> = Vec::new();
    single.push(e);
    assert(single@.map_values(|x: &GroupEntry| *x) =~= seq![*e]);
    if fuel == 0 {
        return single;
    }
    match e {
        GroupEntry::Groupname(g) => {
            if g.occur.is_some() {
                return single;
            }
            match crate::occurrence::group_rule_index(c, g.name.ident.as_str()) {
                Some(i) => match &c.rules[i] {
                    Rule::Group(gr) => flatten_entry(c, &gr.entry, fuel - 1),
                    _ => single,
                },
                None => single,
            }
        },
        GroupEntry::InlineGroup(o, g) => {
            if o.is_none() && g.0.len() == 1 {
                flatten_entries(c, &g.0[0].0, fuel - 1)
            } else {
                single
            }
        },
        _ => single,
    }
}

/// The occurrence and the repeated entries of an inline group with an
/// occurrence and one choice.
fn rep_group_of<'a>(e: &'a GroupEntry) -> (r: Option<(&'a Occur, &'a Vec<GroupEntry>)>)
    ensures
        match rep_group(*e) {
            Some((o, sub)) => r matches Some((x, y)) && *x == o && y@ == sub,
            None => r is None,
        },
{
    match e {
        GroupEntry::InlineGroup(Some(o), g) => if g.0.len() == 1 {
            Some((o, &g.0[0].0))
        } else {
            None
        },
        _ => None,
    }
}

/// References to each entry, in order.
#[verifier::loop_isolation(false)]
fn entry_refs<'a>(es: &'a Vec<GroupEntry>) -> (r: Vec<&'a GroupEntry>)
    ensures
        r@.map_values(|e: &GroupEntry| *e) == es@,
{
    let mut out: Vec<&'a GroupEntry> = Vec::new();
    let mut k: usize = 0;
    while k < es.len()
        invariant
            k <= es@.len(),
            out@.map_values(|e: &GroupEntry| *e) == es@.take(k as int),
        decreases es@.len() - k,
    {
        let ghost before = out@.map_values(|e: &GroupEntry| *e);
        out.push(&es[k]);
        assert(out@.map_values(|e: &GroupEntry| *e) =~= before.push(es@[k as int]));
        assert(es@.take(k as int + 1) =~= es@.take(k as int).push(es@[k as int]));
        k += 1;
    }
    assert(es@.take(es@.len() as int) =~= es@);
    out
}

/// Items `lo..hi` as repetitions of the entries `sub`, with `r` already
/// taken.
#[verifier::loop_isolation(false)]
fn validate_reps<'a>(
    c: &'a CDDL,
    tg: Target,
    env: &Vec<(&'a String, &'a Type1)>,
    sub: &Vec<&'a GroupEntry>,
    o: &Occur,
    items: &Vec<Value>,
    lo: usize,
    hi: usize,
    r: usize,
    fuel: u64,
) -> (res: bool)
    requires
        lo <= hi <= items@.len(),
        r <= lo,
    ensures
        res == reps_ok(
            *c,
            tg,
            env_view(env@),
            sub@.map_values(|e: &GroupEntry| *e),
            *o,
            items@.subrange(lo as int, hi as int),
            r as int,
            fuel as nat,
        ),
    decreases fuel, hi - lo,
{
    let ghost subv = sub@.map_values(|e: &GroupEntry| *e);
    let ghost xs = items@.subrange(lo as int, hi as int);
    if fuel == 0 {
        return false;
    }
    if lo == hi {
        return count_ok_at(o, r);
    }
    let mut m: usize = 1;
    loop
        invariant
            1 <= m <= hi - lo,
            lo < hi,
            forall|q: int|
                1 <= q < m ==> !(seq_ok(*c, tg, env_view(env@), subv, #[trigger] xs.take(q), (fuel - 1) as nat) && reps_ok(
                    *c,
                    tg,
                    env_view(env@),
                    subv,
                    *o,
                    xs.skip(q),
                    r + 1,
                    fuel as nat,
                )),
        decreases hi - lo + 1 - m,
    {
        assert(xs.take(m as int) =~= items@.subrange(lo as int, (lo + m) as int));
        assert(xs.skip(m as int) =~= items@.subrange((lo + m) as int, hi as int));
        assert(subv.subrange(0, subv.len() as int) =~= subv);
        if validate_seq(c, tg, env, sub, 0, items, lo, lo + m, fuel - 1).is_ok() && validate_reps(
            c,
            tg,
            env,
            sub,
            o,
            items,
            lo + m,
            hi,
            r + 1,
            fuel,
        ) {
            return true;
        }
        if m == hi - lo {
            assert forall|q: int| #![trigger xs.take(q)] 1 <= q <= xs.len() implies !(seq_ok(*c, tg, env_view(env@), subv, xs.take(q), (fuel - 1) as nat) && reps_ok(
                *c,
                tg,
                env_view(env@),
                subv,
                *o,
                xs.skip(q),
                r + 1,
                fuel as nat,
            )) by {
            }
            return false;
        }
        m += 1;
    }
}

/// The fewest and the most items an entry takes, as the semantics counts
/// them.
fn take_bounds(e: &GroupEntry) -> (r: (usize, Option<usize>))
    ensures
        r.0 as int == min_take(*e),
        match max_take(*e) {
            Some(m) => r.1 matches Some(x) && x as int == m,
            None => r.1 is None,
        },
{
    let lo: usize = match occur_of(e) {
        None => 1,
        Some(Occur::Optional) => 0,
        Some(Occur::ZeroOrMore) => 0,
        Some(Occur::OneOrMore) => 1,
        Some(Occur::Exact(l, _)) => match l {
            Some(x) => *x,
            None => 0,
        },
    };
    if rep_group_of(e).is_some() {
        return (lo, None);
    }
    match occur_of(e) {
        None => (1, Some(1)),
        Some(Occur::Optional) => (0, Some(1)),
        Some(Occur::ZeroOrMore) => (0, None),
        Some(Occur::OneOrMore) => (1, None),
        Some(Occur::Exact(l, u)) => (
            match l {
                Some(x) => *x,
                None => 0,
            },
            *u,
        ),
    }
}

proof fn lemma_takes_bounds(e: GroupEntry, n: int)
    requires
        takes(e, n),
    ensures
        min_take(e) <= n,
        max_take(e) matches Some(m) ==> n <= m,
{
}

/// The least count an occurrence allows.
spec fn least(o: Occur) -> int {
    match o {
        Occur::Optional => 0,
        Occur::ZeroOrMore => 0,
        Occur::OneOrMore => 1,
        Occur::Exact(l, _) => match l {
            Some(x) => x as int,
            None => 0,
        },
    }
}

/// Each repetition takes at least one item.
proof fn lemma_reps_len(c: CDDL, tg: Target, env: Env, sub: Seq<GroupEntry>, o: Occur, xs: Seq<Value>, r: int, fuel: nat)
    requires
        r >= 0,
        reps_ok(c, tg, env, sub, o, xs, r, fuel),
    ensures
        xs.len() + r >= least(o),
    decreases xs.len(),
{
    if xs.len() > 0 {
        let m = choose|m: int|
            1 <= m <= xs.len() && seq_ok(c, tg, env, sub, #[trigger] xs.take(m), (fuel - 1) as nat) && reps_ok(
                c,
                tg,
                env,
                sub,
                o,
                xs.skip(m),
                r + 1,
                fuel,
            );
        lemma_reps_len(c, tg, env, sub, o, xs.skip(m), r + 1, fuel);
        assert(xs.skip(m).len() == xs.len() - m);
    } else {
        assert(count_ok(o, r));
    }
}

/// Matching items against entries needs as many items as the entries take
/// together.
proof fn lemma_seq_fits(c: CDDL, tg: Target, env: Env, es: Seq<GroupEntry>, items: Seq<Value>, fuel: nat)
    requires
        seq_ok(c, tg, env, es, items, fuel),
    ensures
        lengths_fit(es, items.len() as int),
    decreases es.len(),
{
    if es.len() > 0 && rep_group(es[0]) is Some {
        let f = (fuel - 1) as nat;
        let (o, sub) = rep_group(es[0])->0;
        let n = choose|n: int|
            0 <= n <= items.len() && reps_ok(c, tg, env, sub, o, items.take(n), 0, f) && seq_ok(
                c,
                tg,
                env,
                es.drop_first(),
                #[trigger] items.subrange(n, items.len() as int),
                f,
            );
        lemma_seq_fits(c, tg, env, es.drop_first(), items.subrange(n, items.len() as int), f);
        lemma_reps_len(c, tg, env, sub, o, items.take(n), 0, f);
    } else if es.len() > 0 {
        let f = (fuel - 1) as nat;
        let n = choose|n: int|
            0 <= n <= items.len() && takes(es[0], n) && (forall|k: int|
                0 <= k < n ==> entry_value_ok(c, tg, env, es[0], #[trigger] items[k], f)) && seq_ok(
                c,
                tg,
                env,
                es.drop_first(),
                #[trigger] items.subrange(n, items.len() as int),
                f,
            );
        lemma_seq_fits(c, tg, env, es.drop_first(), items.subrange(n, items.len() as int), f);
        lemma_takes_bounds(es[0], n);
    }
}

/// Whether `n` items lie within the fewest and the most the entries take.
#[verifier::loop_isolation(false)]
fn lengths_fit_at(es: &Vec<&GroupEntry>, n: usize) -> (r: bool)
    ensures
        r == lengths_fit(es@.map_values(|e: &GroupEntry| *e), n as int),
{
    let ghost ev = es@.map_values(|e: &GroupEntry| *e);
    let mut lo: u128 = 0;
    let mut hi: Option<u128> = Some(0);
    let mut k: usize = 0;
    assert(ev.subrange(0, ev.len() as int) =~= ev);
    while k < es.len()
        invariant
            k <= es@.len(),
            ev == es@.map_values(|e: &GroupEntry| *e),
            lo <= k * 0xffff_ffff_ffff_ffff,
            hi matches Some(h) ==> h <= k * 0xffff_ffff_ffff_ffff,
            min_len(ev) == lo + min_len(ev.subrange(k as int, ev.len() as int)),
            max_len(ev) == match (hi, max_len(ev.subrange(k as int, ev.len() as int))) {
                (Some(a), Some(b)) => Some(a + b),
                _ => None,
            },
        decreases es@.len() - k,
    {
        let ghost rest = ev.subrange(k as int, ev.len() as int);
        assert(rest[0] == ev[k as int]);
        assert(rest.drop_first() =~= ev.subrange(k as int + 1, ev.len() as int));
        let (a, b) = take_bounds(es[k]);
        assert(lo + a <= (k + 1) * 0xffff_ffff_ffff_ffff) by (nonlinear_arith)
            requires
                lo <= k * 0xffff_ffff_ffff_ffff,
                a <= 0xffff_ffff_ffff_ffff,
        ;
        lo = lo + a as u128;
        hi = match (hi, b) {
            (Some(h), Some(x)) => {
                assert(h + x <= (k + 1) * 0xffff_ffff_ffff_ffff) by (nonlinear_arith)
                    requires
                        h <= k * 0xffff_ffff_ffff_ffff,
                        x <= 0xffff_ffff_ffff_ffff,
                ;
                Some(h + x as u128)
            },
            _ => None,
        };
        k += 1;
    }
    assert(ev.subrange(k as int, ev.len() as int).len() == 0);
    let upper_ok = match hi {
        Some(h) => (n as u128) <= h,
        None => true,
    };
    (n as u128) >= lo && upper_ok
}

/// The first entry taking the first `n` items, and the rest matching.
spec fn part_ok(c: CDDL, tg: Target, env: Env, e: GroupEntry, rest: Seq<Value>, tail: Seq<GroupEntry>, n: int, f: nat) -> bool {
    0 <= n <= rest.len() && takes(e, n) && (forall|k: int|
        0 <= k < n ==> entry_value_ok(c, tg, env, e, #[trigger] rest[k], f)) && seq_ok(
        c,
        tg,
        env,
        tail,
        rest.subrange(n, rest.len() as int),
        f,
    )
}

/// A repeated group taking the first `n` items, and the rest matching.
spec fn rep_part_ok(
    c: CDDL,
    tg: Target,
    env: Env,
    o: Occur,
    sub: Seq<GroupEntry>,
    rest: Seq<Value>,
    tail: Seq<GroupEntry>,
    n: int,
    f: nat,
) -> bool {
    0 <= n <= rest.len() && reps_ok(c, tg, env, sub, o, rest.take(n), 0, f) && seq_ok(
        c,
        tg,
        env,
        tail,
        rest.subrange(n, rest.len() as int),
        f,
    )
}

/// Items `j..end` against entries `i..`: the entry takes the first `n`
/// items, trying each `n` it allows in turn until the rest match.
#[verifier::loop_isolation(false)]
fn validate_seq<'a>(
    c: &'a CDDL,
    tg: Target,
    env: &Vec<(&'a String, &'a Type1)>,
    es: &Vec<&'a GroupEntry>,
    i: usize,
    items: &Vec<Value>,
    j: usize,
    end: usize,
    fuel: u64,
) -> (r: Result<(), Error>)
    requires
        i <= es@.len(),
        j <= end <= items@.len(),
    ensures
        r is Ok <==> seq_ok(
            *c,
            tg,
            env_view(env@),
            es@.map_values(|e: &GroupEntry| *e).subrange(i as int, es@.len() as int),
            items@.subrange(j as int, end as int),
            fuel as nat,
        ),
    decreases fuel, 0nat,
{
    let ghost ev = es@.map_values(|e: &GroupEntry| *e);
    let ghost rest_es = ev.subrange(i as int, ev.len() as int);
    let ghost rest = items@.subrange(j as int, end as int);
    if fuel == 0 {
        return Err(Error::RecursionLimit);
    }
    if i == es.len() {
        return if j == end {
            Ok(())
        } else {
            Err(Error::Occurrence(note("more items than the entries take")))
        };
    }
    let f = fuel - 1;
    let e: &GroupEntry = es[i];
    assert(rest_es[0] == *e);
    assert(rest_es.drop_first() =~= ev.subrange(i as int + 1, ev.len() as int));
    let avail = end - j;
    let ghost tail = rest_es.drop_first();
    let ghost ev2 = env_view(env@);
    match rep_group_of(e) {
        Some((o, sub_entries)) => {
            let sub = entry_refs(sub_entries);
            let ghost subv = sub@.map_values(|x: &GroupEntry| *x);
            let mut n: usize = 0;
            loop
                invariant
                    n <= avail,
                    avail == rest.len(),
                    rep_group(*e) == Some((*o, subv)),
                    forall|m: int| 0 <= m < n ==> !#[trigger] rep_part_ok(*c, tg, ev2, *o, subv, rest, tail, m, f as nat),
                decreases avail - n,
            {
                assert(rest.take(n as int) =~= items@.subrange(j as int, (j + n) as int));
                assert(rest.subrange(n as int, rest.len() as int) =~= items@.subrange((j + n) as int, end as int));
                if validate_reps(c, tg, env, &sub, o, items, j, j + n, 0, f) {
                    if validate_seq(c, tg, env, es, i + 1, items, j + n, end, f).is_ok() {
                        assert(rep_part_ok(*c, tg, ev2, *o, subv, rest, tail, n as int, f as nat));
                        return Ok(());
                    }
                }
                assert(!rep_part_ok(*c, tg, ev2, *o, subv, rest, tail, n as int, f as nat));
                if n == avail {
                    assert forall|m: int| #![trigger rest.subrange(m, rest.len() as int)] !rep_part_ok(*c, tg, ev2, *o, subv, rest, tail, m, f as nat) by {
                    }
                    return Err(Error::ValueMismatch(note("no repetition of the group fits the items")));
                }
                n += 1;
            }
        },
        None => {
            let mut n: usize = 0;
            let mut last: Error = Error::Occurrence(note("the items fit no split among the entries"));
            loop
                invariant
                    n <= avail,
                    avail == rest.len(),
                    rep_group(*e) is None,
                    forall|k: int| 0 <= k < n ==> entry_value_ok(*c, tg, ev2, *e, #[trigger] rest[k], f as nat),
                    forall|m: int| 0 <= m < n ==> !#[trigger] part_ok(*c, tg, ev2, *e, rest, tail, m, f as nat),
                decreases avail - n,
            {
                let allowed = match occur_of(e) {
                    None => n == 1,
                    Some(o) => count_ok_at(o, n),
                };
                assert(allowed == takes(*e, n as int));
                if allowed {
                    assert(rest.subrange(n as int, rest.len() as int) =~= items@.subrange((j + n) as int, end as int));
                    match validate_seq(c, tg, env, es, i + 1, items, j + n, end, f) {
                        Ok(()) => {
                            assert(part_ok(*c, tg, ev2, *e, rest, tail, n as int, f as nat));
                            return Ok(());
                        },
                        Err(err) => {
                            last = err;
                        },
                    }
                }
                assert(!part_ok(*c, tg, ev2, *e, rest, tail, n as int, f as nat));
                if n == avail {
                    assert forall|m: int| #![trigger rest.subrange(m, rest.len() as int)] !part_ok(*c, tg, ev2, *e, rest, tail, m, f as nat) by {
                    }
                    return Err(last);
                }
                assert(rest[n as int] == items@[j + n]);
                match validate_entry_value(c, tg, env, e, &items[j + n], f) {
                    Ok(()) => {},
                    Err(err) => {
                        assert forall|m: int| #![trigger rest.subrange(m, rest.len() as int)] !part_ok(*c, tg, ev2, *e, rest, tail, m, f as nat) by {
                            if m > n && m <= rest.len() {
                                assert(!entry_value_ok(*c, tg, ev2, *e, rest[n as int], f as nat));
                            }
                        }
                        return Err(err);
                    },
                }
                n += 1;
            }
        },
    }
}

/// An array against one group choice.
fn validate_group_choice_array<'a>(
    c: &'a CDDL,
    tg: Target,
    env: &Vec<(&'a String, &'a Type1)>,
    es: &'a Vec<GroupEntry>,
    items: &Vec<Value>,
    fuel: u64,
) -> (r: Result<(), Error>)
    ensures
        r is Ok <==> array_choice_ok(*c, tg, env_view(env@), es@, items@, fuel as nat),
        fuel > 0 && !lengths_fit(crate::semantics::flat_entries(*c, es@, (fuel - 1) as nat), items@.len() as int)
            ==> (r matches Err(e) && e is Occurrence),
    decreases fuel,
{
    if fuel == 0 {
        return Err(Error::RecursionLimit);
    }
    let fl = flatten_entries(c, es, fuel - 1);
    let ghost flv = fl@.map_values(|e: &GroupEntry| *e);
    if !lengths_fit_at(&fl, items.len()) {
        proof {
            if seq_ok(*c, tg, env_view(env@), flv, items@, (fuel - 1) as nat) {
                lemma_seq_fits(*c, tg, env_view(env@), flv, items@, (fuel - 1) as nat);
            }
        }
        return Err(Error::Occurrence(note("array length lies outside what the entries take")));
    }
    assert(flv.subrange(0, flv.len() as int) =~= flv);
    assert(items@.subrange(0, items@.len() as int) =~= items@);
    validate_seq(c, tg, env, &fl, 0, items, 0, items.len(), fuel - 1)
}

/// `&(group)`: some member type of some choice accepts the value.
#[verifier::loop_isolation(false)]
pub fn validate_group_to_choice_enum<'a>(c: &'a CDDL, tg: Target, env: &Vec<(&'a String, &'a Type1)>, g: &'a Group, v: &Value, fuel: u64) -> (r: Result<(), Error>)
    ensures
        r is Ok <==> enum_group_ok(*c, tg, env_view(env@), *g, *v, fuel as nat),
        fuel > 0 ==> (r matches Err(e) ==> e is NoEnumeratedMemberMatched),
    decreases fuel,
{
    if fuel == 0 {
        return Err(Error::RecursionLimit);
    }
    let mut i: usize = 0;
    while i < g.0.len()
        invariant
            i <= g.0@.len(),
            forall|j: int| 0 <= j < i ==> !enum_choice_ok(*c, tg, env_view(env@), (#[trigger] g.0@[j]).0@, *v, (fuel - 1) as nat),
        decreases g.0@.len() - i,
    {
        if validate_enum_choice(c, tg, env, &g.0[i].0, v, fuel - 1) {
            assert(enum_choice_ok(*c, tg, env_view(env@), g.0@[i as int].0@, *v, (fuel - 1) as nat));
            return Ok(());
        }
        i += 1;
    }
    Err(Error::NoEnumeratedMemberMatched)
}

#[verifier::loop_isolation(false)]
fn validate_enum_choice<'a>(c: &'a CDDL, tg: Target, env: &Vec<(&'a String, &'a Type1)>, es: &Vec<GroupEntry>, v: &Value, fuel: u64) -> (r: bool)
    ensures
        r == enum_choice_ok(*c, tg, env_view(env@), es@, *v, fuel as nat),
    decreases fuel,
{
    if fuel == 0 {
        return false;
    }
    let mut j: usize = 0;
    while j < es.len()
        invariant
            j <= es@.len(),
            forall|q: int| 0 <= q < j ==> !enum_entry_ok(*c, tg, env_view(env@), #[trigger] es@[q], *v, (fuel - 1) as nat),
        decreases es@.len() - j,
    {
        if validate_enum_entry(c, tg, env, &es[j], v, fuel - 1) {
            assert(enum_entry_ok(*c, tg, env_view(env@), es@[j as int], *v, (fuel - 1) as nat));
            return true;
        }
        j += 1;
    }
    false
}

fn validate_enum_entry<'a>(c: &'a CDDL, tg: Target, env: &Vec<(&'a String, &'a Type1)>, e: &'a GroupEntry, v: &Value, fuel: u64) -> (r: bool)
    ensures
        r == enum_entry_ok(*c, tg, env_view(env@), *e, *v, fuel as nat),
    decreases fuel,
{
    if fuel == 0 {
        return false;
    }
    match e {
        GroupEntry::MemberKey(m) => validate_type(c, tg, env, &m.entry_type, v, fuel - 1).is_ok(),
        GroupEntry::InlineGroup(_, g) => validate_group_to_choice_enum(c, tg, env, g, v, fuel - 1).is_ok(),
        GroupEntry::Groupname(g) => validate_enum_rule(c, tg, env, &g.name.ident, &g.generic_arg, v, fuel - 1).is_ok(),
    }
}

/// `&name`: the enumeration over the group rules of that name.
#[verifier::loop_isolation(false)]
fn validate_enum_rule<'a>(
    c: &'a CDDL,
    tg: Target,
    env: &Vec<(&'a String, &'a Type1)>,
    name: &'a String,
    args: &'a Option<GenericArg>,
    v: &Value,
    fuel: u64,
) -> (r: Result<(), Error>)
    ensures
        r is Ok <==> enum_rule_ok(*c, tg, env_view(env@), name@, *args, *v, fuel as nat),
        fuel > 0 ==> (r matches Err(e) ==> e is NoEnumeratedMemberMatched),
    decreases fuel,
{
    if fuel == 0 {
        return Err(Error::RecursionLimit);
    }
    let mut i: usize = 0;
    while i < c.rules.len()
        invariant
            i <= c.rules@.len(),
            forall|j: int|
                0 <= j < i ==> !enum_via_rule(*c, tg, env_view(env@), #[trigger] c.rules@[j], name@, *args, *v, (fuel - 1) as nat),
        decreases c.rules@.len() - i,
    {
        if validate_enum_via_rule(c, tg, env, &c.rules[i], name, args, v, fuel - 1) {
            assert(enum_via_rule(*c, tg, env_view(env@), c.rules@[i as int], name@, *args, *v, (fuel - 1) as nat));
            return Ok(());
        }
        i += 1;
    }
    Err(Error::NoEnumeratedMemberMatched)
}

fn validate_enum_via_rule<'a>(
    c: &'a CDDL,
    tg: Target,
    env: &Vec<(&'a String, &'a Type1)>,
    r: &'a Rule,
    name: &'a String,
    args: &'a Option<GenericArg>,
    v: &Value,
    fuel: u64,
) -> (res: bool)
    ensures
        res == enum_via_rule(*c, tg, env_view(env@), *r, name@, *args, *v, fuel as nat),
    decreases fuel,
{
    if fuel == 0 {
        return false;
    }
    match r {
        Rule::Group(gr) => {
            if !str_eq(gr.name.ident.as_str(), name.as_str()) {
                return false;
            }
            match rule_env_at(r, args, env) {
                Some(inner) => validate_enum_entry(c, tg, &inner, &gr.entry, v, fuel - 1),
                None => false,
            }
        },
        Rule::Type(_) => false,
    }
}

/// `~name`: the interior of the container the name leads to.
fn validate_unwrap<'a>(c: &'a CDDL, tg: Target, env: &Vec<(&'a String, &'a Type1)>, name: &'a String, v: &Value, fuel: u64) -> (r: Result<(), Error>)
    ensures
        r is Ok <==> unwrap_ok(*c, tg, env_view(env@), name@, *v, fuel as nat),
        fuel > 0 ==> ((r matches Err(e) && e is UnwrapNotContainer) <==> !(crate::semantics::unwrap_target(
            *c,
            name@,
            (fuel - 1) as nat,
        ) matches Some(t) && crate::semantics::is_container(t))),
    decreases fuel,
{
    if fuel == 0 {
        return Err(Error::RecursionLimit);
    }
    let empty: Vec<(&'a String, &'a Type1)> = Vec::new();
    assert(env_view(empty@) =~= Seq::<(Seq<char>, Type1)>::empty());
    match unwrap_target_at(c, name.as_str(), fuel - 1) {
        Some(Type2::Array(g)) => validate_group(c, tg, &empty, g, v, fuel - 1),
        Some(Type2::MapDef(g)) => validate_group(c, tg, &empty, g, v, fuel - 1),
        Some(Type2::TaggedData(_, t)) => validate_type(c, tg, &empty, t, v, fuel - 1),
        _ => Err(Error::UnwrapNotContainer(name.clone())),
    }
}

proof fn lemma_pow256_mono(a: nat, b: nat)
    requires
        a <= b,
    ensures
        pow256(a) <= pow256(b),
        pow256(a) >= 1,
    decreases b,
{
    if a < b {
        lemma_pow256_mono(a, (b - 1) as nat);
    } else if a > 0 {
        lemma_pow256_mono((a - 1) as nat, (a - 1) as nat);
    }
}

/// Whether `0 <= n` fits in `k` bytes.
fn fits_in_bytes(n: i128, k: i128) -> (r: bool)
    requires
        n >= 0,
        k >= 0,
    ensures
        r == (n < pow256(k as nat)),
{
    if k >= 16 {
        proof {
            reveal_with_fuel(pow256, 17);
            lemma_pow256_mono(16, k as nat);
        }
        return true;
    }
    let mut p: u128 = 1;
    let mut i: i128 = 0;
    while i < k
        invariant
            0 <= i <= k <= 15,
            p == pow256(i as nat),
        decreases k - i,
    {
        proof {
            reveal_with_fuel(pow256, 16);
            lemma_pow256_mono(i as nat, 14);
        }
        p = p * 256;
        i += 1;
    }
    (n as u128) < p
}

fn compares_at(op: &str, n: Numeric, x: Numeric) -> (r: bool)
    ensures
        r == compares(op@, n, x),
{
    let s = compare(n, x);
    if str_eq(op, "lt") {
        s < 0
    } else if str_eq(op, "le") {
        s <= 0
    } else if str_eq(op, "gt") {
        s > 0
    } else {
        s >= 0
    }
}

/// Whether some controller number relates to `n` by `op`.
#[verifier::loop_isolation(false)]
fn some_number(c: &CDDL, ctrl: &Type2, op: &str, n: Numeric, fuel: u64) -> (r: bool)
    ensures
        r == crate::semantics::compare_holds(*c, *ctrl, op@, n, fuel as nat),
{
    let xs = bound_values(c, ctrl, fuel);
    let mut i: usize = 0;
    while i < xs.len()
        invariant
            i <= xs@.len(),
            forall|k: int| 0 <= k < i ==> !compares(op@, n, #[trigger] xs@[k]),
        decreases xs@.len() - i,
    {
        if compares_at(op, n, xs[i]) {
            assert(xs@.contains(xs@[i as int]));
            return true;
        }
        i += 1;
    }
    assert forall|x: Numeric| #[trigger] crate::semantics::bound_has(*c, *ctrl, x, fuel as nat) implies !compares(op@, n, x) by {
        assert(xs@.contains(x));
        let k = choose|k: int| 0 <= k < xs@.len() && xs@[k] == x;
        assert(!compares(op@, n, xs@[k]));
    }
    false
}

/// Whether some controller number equals `n`.
#[verifier::loop_isolation(false)]
fn some_equal_number(c: &CDDL, ctrl: &Type2, n: Numeric, fuel: u64) -> (r: bool)
    ensures
        r == crate::semantics::equal_number(*c, *ctrl, n, fuel as nat),
{
    let xs = bound_values(c, ctrl, fuel);
    let mut i: usize = 0;
    while i < xs.len()
        invariant
            i <= xs@.len(),
            forall|k: int| 0 <= k < i ==> !crate::numeric::num_eq(n, #[trigger] xs@[k]),
        decreases xs@.len() - i,
    {
        if compare(n, xs[i]) == 0 {
            assert(xs@.contains(xs@[i as int]));
            return true;
        }
        i += 1;
    }
    assert forall|x: Numeric| #[trigger] crate::semantics::bound_has(*c, *ctrl, x, fuel as nat) implies !crate::numeric::num_eq(n, x) by {
        assert(xs@.contains(x));
        let k = choose|k: int| 0 <= k < xs@.len() && xs@[k] == x;
        assert(!crate::numeric::num_eq(n, xs@[k]));
    }
    false
}

/// Whether some controller text equals `s`.
#[verifier::loop_isolation(false)]
fn some_equal_text(c: &CDDL, ctrl: &Type2, s: &String, fuel: u64) -> (r: bool)
    ensures
        r == crate::semantics::equal_text(*c, *ctrl, s@, fuel as nat),
{
    let ts = text_values(c, ctrl, fuel);
    let mut i: usize = 0;
    while i < ts.len()
        invariant
            i <= ts@.len(),
            forall|k: int| 0 <= k < i ==> s@ != (#[trigger] ts@[k])@,
        decreases ts@.len() - i,
    {
        if str_eq(s.as_str(), ts[i].as_str()) {
            assert(has_text(ts@, ts@[i as int]@));
            return true;
        }
        i += 1;
    }
    assert forall|t: Seq<char>| #[trigger] crate::semantics::text_has(*c, *ctrl, t, fuel as nat) implies s@ != t by {
        assert(has_text(ts@, t));
        let k = choose|k: int| 0 <= k < ts@.len() && (#[trigger] ts@[k])@ == t;
        assert(s@ != ts@[k]@);
    }
    false
}

/// Whether some literal the controller stands for has the bytes `x`.
#[verifier::loop_isolation(false)]
fn some_equal_bytes(c: &CDDL, ctrl: &Type2, x: &Vec<u8>, fuel: u64) -> (r: bool)
    ensures
        r == crate::semantics::equal_bytes(*c, *ctrl, x@, fuel as nat),
{
    let lits: Vec<&Type2> = match ctrl {
        Type2::Typename(id, _) => crate::rules::literals_of(c, id.ident.as_str(), fuel),
        _ => {
            let mut one: Vec<&Type2> = Vec::new();
            one.push(ctrl);
            one
        },
    };
    let ghost ls = crate::semantics::controller_literals(*c, *ctrl, fuel as nat);
    assert(lits@.map_values(|t: &Type2| *t) =~= ls);
    let mut k: usize = 0;
    while k < lits.len()
        invariant
            k <= lits@.len(),
            lits@.map_values(|t: &Type2| *t) == ls,
            forall|q: int| 0 <= q < k ==> crate::cat::lit_bytes(#[trigger] ls[q]) != Some(x@),
        decreases lits@.len() - k,
    {
        assert(ls[k as int] == *lits@[k as int]);
        match crate::cat::lit_bytes_at(lits[k]) {
            Some(b) => if bytes_eq(b.as_slice(), x.as_slice()) {
                assert(crate::cat::lit_bytes(ls[k as int]) == Some(x@));
                return true;
            },
            None => {},
        }
        k += 1;
    }
    false
}

/// Whether some controller pattern matches `s`; `Err` for a pattern the
/// engine cannot take.
#[verifier::loop_isolation(false)]
fn some_pattern(c: &CDDL, ctrl: &Type2, s: &String, fuel: u64) -> (r: Result<(), Error>)
    ensures
        r is Ok <==> crate::semantics::pattern_holds(*c, *ctrl, s@, fuel as nat),
{
    let ps = text_values(c, ctrl, fuel);
    let mut errors: Vec<Error> = Vec::new();
    let mut i: usize = 0;
    while i < ps.len()
        invariant
            i <= ps@.len(),
            forall|k: int| 0 <= k < i ==> !crate::pattern::pattern_accepts((#[trigger] ps@[k])@, s@),
        decreases ps@.len() - i,
    {
        match format_regex(ps[i].as_str()) {
            Some(q) => {
                if regex_match(q.as_str(), s.as_str()) == Some(true) {
                    assert(has_text(ps@, ps@[i as int]@));
                    return Ok(());
                }
                errors.push(Error::ValueMismatch(note("text does not match the pattern")));
            },
            None => errors.push(Error::PatternUnsupported(ps[i].clone())),
        }
        i += 1;
    }
    assert forall|p: Seq<char>| #[trigger] crate::semantics::text_has(*c, *ctrl, p, fuel as nat) implies !crate::pattern::pattern_accepts(p, s@) by {
        assert(has_text(ps@, p));
        let k = choose|k: int| 0 <= k < ps@.len() && (#[trigger] ps@[k])@ == p;
        assert(!crate::pattern::pattern_accepts(ps@[k]@, s@));
    }
    Err(Error::MultiError(errors))
}

/// A control operator: `target .op controller`.
pub fn validate_control_operator<'a>(
    c: &'a CDDL,
    tg: Target,
    env: &Vec<(&'a String, &'a Type1)>,
    target: &'a Type2,
    op: &str,
    ctrl: &'a Type2,
    v: &Value,
    fuel: u64,
) -> (r: Result<(), Error>)
    ensures
        r is Ok <==> control_ok(*c, tg, env_view(env@), *target, op@, *ctrl, *v, fuel as nat),
    decreases fuel,
{
    if fuel == 0 {
        return Err(Error::RecursionLimit);
    }
    let f = fuel - 1;
    if str_eq(op, "lt") || str_eq(op, "le") || str_eq(op, "gt") || str_eq(op, "ge") {
        if !type2_in_class_at(c, target, Class::Numeric, f) {
            return Err(Error::Syntax(note("comparison controls need a numeric target")));
        }
        match validate_type2(c, tg, env, target, v, f) {
            Ok(()) => {},
            Err(e) => return Err(e),
        }
        match value_numeric(v) {
            Some(n) => if some_number(c, ctrl, op, n, f) {
                Ok(())
            } else {
                Err(Error::ValueMismatch(note("comparison with the controller fails")))
            },
            None => Err(Error::ValueMismatch(note("expected a number"))),
        }
    } else if str_eq(op, "eq") || str_eq(op, "ne") {
        let want_equal = str_eq(op, "eq");
        match validate_type2(c, tg, env, target, v, f) {
            Ok(()) => {},
            Err(e) => return Err(e),
        }
        let equal = if type2_in_class_at(c, target, Class::Numeric, f) {
            match value_numeric(v) {
                Some(n) => some_equal_number(c, ctrl, n, f),
                None => return Err(Error::ValueMismatch(note("expected a number"))),
            }
        } else if type2_in_class_at(c, target, Class::Text, f) {
            match v {
                Value::Text(s) => some_equal_text(c, ctrl, s, f),
                _ => return Err(Error::ValueMismatch(note("expected text"))),
            }
        } else if type2_in_class_at(c, target, Class::Bytes, f) {
            match v {
                Value::Bytes(x) => some_equal_bytes(c, ctrl, x, f),
                _ => return Err(Error::ValueMismatch(note("expected bytes"))),
            }
        } else {
            return Err(Error::Syntax(note("equality controls need a numeric, text or byte string target")));
        };
        if equal == want_equal {
            Ok(())
        } else {
            Err(Error::ValueMismatch(note("equality with the controller fails")))
        }
    } else if str_eq(op, "size") {
        match validate_type2(c, tg, env, target, v, f) {
            Ok(()) => {},
            Err(e) => return Err(e),
        }
        validate_size(c, tg, env, ctrl, v, f)
    } else if str_eq(op, "regexp") || str_eq(op, "pcre") {
        if !type2_in_class_at(c, target, Class::Text, f) {
            return Err(Error::Syntax(note("pattern controls need a text target")));
        }
        match v {
            Value::Text(s) => some_pattern(c, ctrl, s, f),
            _ => Err(Error::ValueMismatch(note("expected text"))),
        }
    } else if str_eq(op, "bits") {
        match validate_type2(c, tg, env, target, v, f) {
            Ok(()) => {},
            Err(e) => return Err(e),
        }
        validate_bits(c, tg, env, ctrl, v, f)
    } else if str_eq(op, "cat") {
        match crate::cat::cat_at(c, target, ctrl, f) {
            Ok(outs) => if crate::cat::cat_accepts_at(&outs, v) {
                Ok(())
            } else {
                Err(Error::ValueMismatch(note("value is none of the concatenations")))
            },
            Err(m) => Err(Error::Syntax(m)),
        }
    } else if str_eq(op, "and") || str_eq(op, "within") {
        match validate_type2(c, tg, env, target, v, f) {
            Ok(()) => {},
            Err(e) => return Err(e),
        }
        validate_type2(c, tg, env, ctrl, v, f)
    } else if str_eq(op, "default") {
        validate_type2(c, tg, env, target, v, f)
    } else {
        Err(Error::Syntax(note("unsupported control operator")))
    }
}

/// `.size`: the length of text or bytes, or the byte width of an unsigned
/// integer, against the controller.
#[verifier::loop_isolation(false)]
fn validate_size<'a>(c: &'a CDDL, tg: Target, env: &Vec<(&'a String, &'a Type1)>, ctrl: &'a Type2, v: &Value, fuel: u64) -> (r: Result<(), Error>)
    ensures
        r is Ok <==> size_ok(*c, tg, env_view(env@), *ctrl, *v, fuel as nat),
    decreases fuel,
{
    if fuel == 0 {
        return Err(Error::RecursionLimit);
    }
    let f = fuel - 1;
    match v {
        Value::Text(s) => {
            let n = s.as_str().unicode_len();
            let m = Value::Integer(n as i128);
            validate_type2(c, tg, env, ctrl, &m, f)
        },
        Value::Bytes(b) => {
            let m = Value::Integer(b.len() as i128);
            validate_type2(c, tg, env, ctrl, &m, f)
        },
        Value::Integer(n) => {
            if *n < 0 {
                return Err(Error::ValueMismatch(note("expected an unsigned integer")));
            }
            let xs = bound_values(c, ctrl, f);
            let mut i: usize = 0;
            while i < xs.len()
                invariant
                    i <= xs@.len(),
                    *n >= 0,
                    forall|q: int|
                        0 <= q < i ==> !((#[trigger] xs@[q]) matches Numeric::Int(k) && k >= 0 && *n < pow256(k as nat)),
                decreases xs@.len() - i,
            {
                match xs[i] {
                    Numeric::Int(k) => {
                        if k >= 0 && fits_in_bytes(*n, k) {
                            assert(xs@.contains(xs@[i as int]));
                            assert(crate::semantics::bound_has(*c, *ctrl, Numeric::Int(k), (fuel - 1) as nat));
                            return Ok(());
                        }
                    },
                    _ => {},
                }
                i += 1;
            }
            assert forall|k: i128| #[trigger] crate::semantics::bound_has(*c, *ctrl, Numeric::Int(k), f as nat) implies !(k >= 0 && *n < pow256(k as nat)) by {
                assert(xs@.contains(Numeric::Int(k)));
                let q = choose|q: int| 0 <= q < xs@.len() && xs@[q] == Numeric::Int(k);
                assert(!((xs@[q]) matches Numeric::Int(k2) && k2 >= 0 && *n < pow256(k2 as nat)));
            }
            Err(Error::ValueMismatch(note("value does not fit the size")))
        },
        _ => Err(Error::ValueMismatch(note(".size needs text, bytes or an unsigned integer"))),
    }
}

/// The depth limit that validation runs with unless told otherwise.
pub const DEFAULT_DEPTH: u64 = 256;

/// The root of a document: its first type rule that does not extend an
/// earlier one.
pub open spec fn root_rule(rules: Seq<Rule>) -> Option<crate::ast::TypeRule>
    decreases rules.len(),
{
    if rules.len() == 0 {
        None
    } else {
        match rules[0] {
            Rule::Type(tr) => if !tr.is_type_choice_alternate {
                Some(tr)
            } else {
                root_rule(rules.drop_first())
            },
            _ => root_rule(rules.drop_first()),
        }
    }
}

/// Whether an instance conforms to a document: to the rules that carry the
/// root's name, within the depth limit. A document without a type rule
/// constrains nothing.
pub open spec fn accepts(c: CDDL, tg: Target, v: Value, depth: nat) -> bool {
    match root_rule(c.rules@) {
        None => true,
        Some(tr) => typename_ok(c, tg, Seq::empty(), tr.name.ident@, None, v, depth),
    }
}

/// Validates an instance against a document, following rule references at
/// most `depth` levels deep.
#[verifier::loop_isolation(false)]
pub fn validate_at_depth(cddl: &CDDL, tg: Target, value: &Value, depth: u64) -> (r: Result<(), Error>)
    ensures
        r is Ok <==> accepts(*cddl, tg, *value, depth as nat),
{
    let n = cddl.rules.len();
    let mut i: usize = 0;
    assert(cddl.rules@.subrange(0, n as int) =~= cddl.rules@);
    while i < n
        invariant
            n == cddl.rules@.len(),
            i <= n,
            root_rule(cddl.rules@) == root_rule(cddl.rules@.subrange(i as int, n as int)),
        decreases n - i,
    {
        let ghost rest = cddl.rules@.subrange(i as int, n as int);
        assert(rest[0] == cddl.rules@[i as int]);
        assert(rest.drop_first() =~= cddl.rules@.subrange(i as int + 1, n as int));
        match &cddl.rules[i] {
            Rule::Type(tr) => {
                if !tr.is_type_choice_alternate {
                    let empty: Vec<(&String, &Type1)> = Vec::new();
                    assert(env_view(empty@) =~= Seq::<(Seq<char>, Type1)>::empty());
                    let none: Option<GenericArg> = None;
                    return validate_typename(cddl, tg, &empty, &tr.name.ident, &none, value, depth);
                }
            },
            _ => {},
        }
        i += 1;
    }
    assert(cddl.rules@.subrange(n as int, n as int).len() == 0);
    Ok(())
}

/// Validates a JSON instance against a document.
pub fn validate_json(cddl: &CDDL, value: &Value) -> (r: Result<(), Error>)
    ensures
        r is Ok <==> accepts(*cddl, Target::Json, *value, DEFAULT_DEPTH as nat),
{
    validate_at_depth(cddl, Target::Json, value, DEFAULT_DEPTH)
}

/// Validates a CBOR instance against a document.
pub fn validate_cbor(cddl: &CDDL, value: &Value) -> (r: Result<(), Error>)
    ensures
        r is Ok <==> accepts(*cddl, Target::Cbor, *value, DEFAULT_DEPTH as nat),
{
    validate_at_depth(cddl, Target::Cbor, value, DEFAULT_DEPTH)
}

/// A schema that instances can be validated against.
pub trait Validator {
    /// Whether the schema accepts an instance of the given kind.
    spec fn accepts_value(&self, tg: Target, v: Value) -> bool;

    /// Validates an instance against the schema.
    fn validate(&self, tg: Target, value: &Value) -> (r: Result<(), Error>)
        ensures
            r is Ok <==> self.accepts_value(tg, *value),
    ;
}

impl Validator for CDDL {
    open spec fn accepts_value(&self, tg: Target, v: Value) -> bool {
        accepts(*self, tg, v, DEFAULT_DEPTH as nat)
    }

    fn validate(&self, tg: Target, value: &Value) -> (r: Result<(), Error>) {
        validate_at_depth(self, tg, value, DEFAULT_DEPTH)
    }
}

proof fn lemma_pow2_grows(i: nat)
    ensures
        pow2(i) >= i + 1,
    decreases i,
{
    if i > 0 {
        lemma_pow2_grows((i - 1) as nat);
    }
}

proof fn lemma_pow2_mono(a: nat, b: nat)
    requires
        a <= b,
    ensures
        1 <= pow2(a) <= pow2(b),
    decreases b,
{
    if a < b {
        lemma_pow2_mono(a, (b - 1) as nat);
    } else if a > 0 {
        lemma_pow2_mono((a - 1) as nat, (a - 1) as nat);
    }
}

proof fn lemma_shift_step(n: int, i: nat)
    requires
        n >= 0,
    ensures
        (n / pow2(i)) / 2 == n / pow2(i + 1),
{
    lemma_pow2_mono(i, i);
    vstd::arithmetic::div_mod::lemma_div_denominator(n, pow2(i), 2);
    assert(pow2(i + 1) == 2 * pow2(i));
    assert(pow2(i) * 2 == pow2(i + 1)) by (nonlinear_arith)
        requires
            pow2(i + 1) == 2 * pow2(i),
    ;
}

proof fn lemma_high_bits_clear(n: int, i: nat, j: nat)
    requires
        n >= 0,
        n / pow2(i) == 0,
        i <= j,
    ensures
        n / pow2(j) == 0,
{
    lemma_pow2_mono(i, j);
    vstd::arithmetic::div_mod::lemma_div_is_ordered_by_denominator(n, pow2(i), pow2(j));
    vstd::arithmetic::div_mod::lemma_div_pos_is_pos(n, pow2(j));
}

/// The indices of the set bits of a number, from the least significant,
/// each shifted by `base`.
#[verifier::loop_isolation(false)]
fn set_bits(n: i128, base: i128) -> (r: Vec<i128>)
    requires
        n >= 0,
        0 <= base,
        base + n <= i128::MAX,
    ensures
        forall|x: i128| #[trigger] r@.contains(x) <==> (x >= base && bit_set(n as int, (x - base) as nat)),
{
    let mut out: Vec<i128> = Vec::new();
    let mut m: i128 = n;
    let mut i: i128 = 0;
    proof {
        lemma_pow2_mono(0, 0);
        vstd::arithmetic::div_mod::lemma_div_basics(n as int);
    }
    while m > 0
        invariant
            n >= 0,
            0 <= base,
            base + n <= i128::MAX,
            0 <= i,
            0 <= m,
            m == n as int / pow2(i as nat),
            m > 0 ==> i <= n,
            forall|x: i128| #[trigger] out@.contains(x) <==> (base <= x < base + i && bit_set(n as int, (x - base) as nat)),
        decreases m,
    {
        proof {
            lemma_pow2_grows(i as nat);
            if pow2(i as nat) > n {
                vstd::arithmetic::div_mod::lemma_basic_div(n as int, pow2(i as nat));
            }
        }
        let ghost before = out@;
        if m % 2 == 1 {
            out.push(base + i);
        }
        assert forall|x: i128| #[trigger] out@.contains(x) <==> (base <= x < base + i + 1 && bit_set(n as int, (x - base) as nat)) by {
            if x == base + i {
                if m % 2 == 1 {
                    assert(out@[out@.len() - 1] == x);
                }
            } else if out@.contains(x) && !before.contains(x) {
                let k = choose|k: int| 0 <= k < out@.len() && out@[k] == x;
                assert(k == out@.len() - 1 || before.contains(x)) by {
                    if k < before.len() {
                        assert(before[k] == x);
                    }
                }
            } else if before.contains(x) {
                let k = choose|k: int| 0 <= k < before.len() && before[k] == x;
                assert(out@[k] == x);
            }
        }
        proof {
            lemma_shift_step(n as int, i as nat);
        }
        m = m / 2;
        i = i + 1;
    }
    assert forall|x: i128| #[trigger] out@.contains(x) <==> (x >= base && bit_set(n as int, (x - base) as nat)) by {
        if x >= base + i {
            lemma_high_bits_clear(n as int, i as nat, (x - base) as nat);
        }
    }
    out
}

/// Each index against the controller.
#[verifier::loop_isolation(false)]
fn validate_indices<'a>(
    c: &'a CDDL,
    tg: Target,
    env: &Vec<(&'a String, &'a Type1)>,
    ctrl: &'a Type2,
    xs: &Vec<i128>,
    fuel: u64,
) -> (r: Result<(), Error>)
    requires
        fuel > 0,
    ensures
        r is Ok <==> forall|x: i128| #[trigger] xs@.contains(x) ==> type2_ok(*c, tg, env_view(env@), *ctrl, Value::Integer(x), (fuel - 1) as nat),
    decreases fuel,
{
    let mut k: usize = 0;
    while k < xs.len()
        invariant
            k <= xs@.len(),
            forall|q: int| 0 <= q < k ==> type2_ok(*c, tg, env_view(env@), *ctrl, Value::Integer(#[trigger] xs@[q]), (fuel - 1) as nat),
        decreases xs@.len() - k,
    {
        let idx = Value::Integer(xs[k]);
        match validate_type2(c, tg, env, ctrl, &idx, fuel - 1) {
            Ok(()) => {},
            Err(e) => {
                assert(xs@.contains(xs@[k as int]));
                return Err(e);
            },
        }
        k += 1;
    }
    assert forall|x: i128| #[trigger] xs@.contains(x) implies type2_ok(*c, tg, env_view(env@), *ctrl, Value::Integer(x), (fuel - 1) as nat) by {
        let q = choose|q: int| 0 <= q < xs@.len() && xs@[q] == x;
        assert(type2_ok(*c, tg, env_view(env@), *ctrl, Value::Integer(xs@[q]), (fuel - 1) as nat));
    }
    Ok(())
}

/// `.bits` against an unsigned integer or a byte string.
#[verifier::loop_isolation(false)]
fn validate_bits<'a>(c: &'a CDDL, tg: Target, env: &Vec<(&'a String, &'a Type1)>, ctrl: &'a Type2, v: &Value, fuel: u64) -> (r: Result<(), Error>)
    ensures
        r is Ok <==> crate::semantics::bits_ok(*c, tg, env_view(env@), *ctrl, *v, fuel as nat),
    decreases fuel,
{
    if fuel < 2 {
        return Err(Error::RecursionLimit);
    }
    let f = fuel - 2;
    match v {
        Value::Integer(n) => {
            if *n < 0 {
                return Err(Error::ValueMismatch(note(".bits needs an unsigned integer")));
            }
            let xs = set_bits(*n, 0);
            let r = validate_indices(c, tg, env, ctrl, &xs, fuel - 1);
            assert((forall|x: i128| #[trigger] xs@.contains(x) ==> type2_ok(*c, tg, env_view(env@), *ctrl, Value::Integer(x), f as nat))
                <==> (forall|i: nat| #[trigger] bit_set(*n as int, i) ==> type2_ok(*c, tg, env_view(env@), *ctrl, Value::Integer(i as i128), f as nat))) by {
                if forall|x: i128| #[trigger] xs@.contains(x) ==> type2_ok(*c, tg, env_view(env@), *ctrl, Value::Integer(x), f as nat) {
                    assert forall|i: nat| #[trigger] bit_set(*n as int, i) implies type2_ok(*c, tg, env_view(env@), *ctrl, Value::Integer(i as i128), f as nat) by {
                        proof_bit_below(*n as int, i);
                        assert(xs@.contains(i as i128));
                    }
                }
                if forall|i: nat| #[trigger] bit_set(*n as int, i) ==> type2_ok(*c, tg, env_view(env@), *ctrl, Value::Integer(i as i128), f as nat) {
                    assert forall|x: i128| #[trigger] xs@.contains(x) implies type2_ok(*c, tg, env_view(env@), *ctrl, Value::Integer(x), f as nat) by {
                        assert(bit_set(*n as int, x as nat));
                    }
                }
            }
            r
        },
        Value::Bytes(b) => {
            let mut j: usize = 0;
            while j < b.len()
                invariant
                    j <= b@.len(),
                    forall|i: int|
                        i < 8 * j && #[trigger] byte_bit_set(b@, i) ==> type2_ok(*c, tg, env_view(env@), *ctrl, Value::Integer(i as i128), f as nat),
                decreases b@.len() - j,
            {
                let base: i128 = (j as i128) * 8;
                let byte: i128 = b[j] as i128;
                let xs = set_bits(byte, base);
                let ghost bj = b@[j as int] as int;
                match validate_indices(c, tg, env, ctrl, &xs, fuel - 1) {
                    Ok(()) => {
                        assert forall|i: int| i < 8 * (j + 1) && #[trigger] byte_bit_set(b@, i) implies type2_ok(*c, tg, env_view(env@), *ctrl, Value::Integer(i as i128), f as nat) by {
                            if i >= 8 * j {
                                assert(i / 8 == j && i % 8 == i - 8 * j);
                                assert(xs@.contains(i as i128));
                            }
                        }
                    },
                    Err(e) => {
                        assert(!forall|i: int| #[trigger] byte_bit_set(b@, i) ==> type2_ok(*c, tg, env_view(env@), *ctrl, Value::Integer(i as i128), f as nat)) by {
                            let x = choose|x: i128| #[trigger] xs@.contains(x) && !type2_ok(*c, tg, env_view(env@), *ctrl, Value::Integer(x), f as nat);
                            let k = (x - base) as nat;
                            if k >= 8 {
                                proof_high_byte_bits(bj, k);
                            }
                            let i = x as int;
                            assert(i / 8 == j && i % 8 == k);
                            assert(byte_bit_set(b@, i));
                        }
                        return Err(e);
                    },
                }
                j += 1;
            }
            Ok(())
        },
        _ => Err(Error::ValueMismatch(note(".bits needs an unsigned integer or bytes"))),
    }
}

proof fn proof_bit_below(n: int, i: nat)
    requires
        0 <= n < 0x8000_0000_0000_0000_0000_0000_0000_0000,
        bit_set(n, i),
    ensures
        i < n,
{
    lemma_pow2_grows(i);
    if pow2(i) > n {
        vstd::arithmetic::div_mod::lemma_basic_div(n, pow2(i));
    }
}

proof fn proof_high_byte_bits(x: int, k: nat)
    requires
        0 <= x < 256,
        k >= 8,
    ensures
        !bit_set(x, k),
{
    reveal_with_fuel(pow2, 9);
    vstd::arithmetic::div_mod::lemma_basic_div(x, pow2(8));
    lemma_high_bits_clear(x, 8, k);
}

} // verus!
