//! What it means for an instance to conform to a schema.
//!
//! Each predicate takes a depth budget `fuel`, which every step of the walk
//! consumes one unit of: a schema whose rules refer to each other without end
//! conforms to nothing, as the validator then stops with a recursion error.
//! Generic parameters are read through an environment `env` of bindings.
use crate::ast::{
    GenericArg, Group, GroupEntry, MemberKey, MemberKeyEntry, Occur, RangeCtlOp, Rule, Type, Type1, Type2, TypeRule,
    CDDL,
};
use crate::foreign::{b64url_decoded, hex_decoded, rfc3339_date, uri_reference};
use crate::numeric::{num_eq, num_le, num_lt, numeric_of, Numeric};
use crate::prelude::{in_class, prelude_of, Class, Prelude};
use crate::cat::{cat_accepts, cat_spec};
use crate::pattern::pattern_accepts;
use crate::value::{Target, Value};
use vstd::prelude::*;

verus! {

/// The key–value pairs of a map instance (none for any other instance).
pub open spec fn pairs_of(v: Value) -> Seq<(Value, Value)> {
    match v {
        Value::Object(ps) => ps@,
        _ => Seq::empty(),
    }
}

/// A literal key as an instance key: a text or an integer.
pub open spec fn key_literal(t: Type2) -> Option<Value> {
    match t {
        Type2::TextValue(s) => Some(Value::Text(s)),
        Type2::IntValue(n) => Some(Value::Integer(n as i128)),
        Type2::UintValue(n) => Some(Value::Integer(n as i128)),
        _ => None,
    }
}

/// The key that a member entry names literally (`key:`, `"key" =>`,
/// `1 =>`).
pub open spec fn literal_key(m: MemberKeyEntry) -> Option<Value> {
    match m.member_key {
        Some(MemberKey::Bareword(id)) => Some(Value::Text(id.ident)),
        Some(MemberKey::Value(t)) => key_literal(t),
        Some(MemberKey::Type1(b)) => if b.0.operator is None {
            key_literal(b.0.type2)
        } else {
            None
        },
        _ => None,
    }
}

/// Whether two keys are the same text or the same integer.
pub open spec fn same_key(a: Value, b: Value) -> bool {
    match (a, b) {
        (Value::Text(x), Value::Text(y)) => x@ == y@,
        (Value::Integer(m), Value::Integer(n)) => m == n,
        _ => false,
    }
}

/// Whether a member entry's key is the type `tstr` (or `text`).
pub open spec fn text_type_key(m: MemberKeyEntry) -> bool {
    match m.member_key {
        Some(MemberKey::Type1(b)) => match b.0.type2 {
            Type2::Typename(id, _) => b.0.operator is None && (id.ident@ == "tstr"@ || id.ident@ == "text"@),
            _ => false,
        },
        _ => false,
    }
}

/// Whether a member entry carries a cut (`^ =>`).
pub open spec fn is_cut(m: MemberKeyEntry) -> bool {
    m.member_key matches Some(MemberKey::Type1(b)) && b.1
}

/// `* tstr => type`: the entry that takes the keys no other entry declares.
pub open spec fn is_wildcard(e: GroupEntry) -> bool {
    match e {
        GroupEntry::MemberKey(m) => (m.occur matches Some(Occur::ZeroOrMore)) && text_type_key(*m) && !is_cut(*m),
        _ => false,
    }
}

/// The value type of the first wildcard entry of a group choice.
pub open spec fn wildcard_of(es: Seq<GroupEntry>) -> Option<Type>
    decreases es.len(),
{
    if es.len() == 0 {
        None
    } else if is_wildcard(es[0]) {
        match es[0] {
            GroupEntry::MemberKey(m) => Some(m.entry_type),
            _ => None,
        }
    } else {
        wildcard_of(es.drop_first())
    }
}

/// Whether a map may lack the key of an entry with this occurrence.
pub open spec fn absent_ok(o: Option<Occur>) -> bool {
    match o {
        Some(Occur::Optional) => true,
        Some(Occur::ZeroOrMore) => true,
        Some(Occur::Exact(l, _)) => l is None || l == Some(0usize),
        _ => false,
    }
}

/// Whether a type carries a `.default`: an entry of that type may be absent,
/// standing for its default value.
pub open spec fn has_default(t: Type) -> bool {
    exists|i: int| 0 <= i < t.0@.len() && is_default_choice(#[trigger] t.0@[i])
}

/// Whether a type choice is `target .default value`.
pub open spec fn is_default_choice(t1: Type1) -> bool {
    match t1.operator {
        Some((RangeCtlOp::CtlOp(name), _)) => name@ == "default"@,
        _ => false,
    }
}

/// Whether `n` items satisfy an occurrence indicator.
pub open spec fn count_ok(o: Occur, n: int) -> bool {
    match o {
        Occur::Optional => n <= 1,
        Occur::ZeroOrMore => true,
        Occur::OneOrMore => n >= 1,
        Occur::Exact(l, u) => (l matches Some(x) ==> x <= n) && (u matches Some(y) ==> n <= y),
    }
}

pub open spec fn entry_occur(e: GroupEntry) -> Option<Occur> {
    match e {
        GroupEntry::MemberKey(m) => m.occur,
        GroupEntry::Groupname(g) => g.occur,
        GroupEntry::InlineGroup(o, _) => o,
    }
}

/// Whether a pair's key is `k`.
pub open spec fn key_is(p: (Value, Value), k: Value) -> bool {
    same_key(p.0, k)
}

pub open spec fn has_key(ps: Seq<(Value, Value)>, k: Value) -> bool {
    exists|j: int| 0 <= j < ps.len() && #[trigger] key_is(ps[j], k)
}

/// What a prelude type accepts.
pub open spec fn prelude_ok(tg: Target, p: Prelude, v: Value) -> bool {
    match p {
        Prelude::Any => true,
        Prelude::Bool => v is Bool,
        Prelude::True => v == Value::Bool(true),
        Prelude::False => v == Value::Bool(false),
        Prelude::Null => v is Null,
        Prelude::Uint => v matches Value::Integer(n) && n >= 0,
        Prelude::Nint => v matches Value::Integer(n) && n < 0,
        Prelude::Int => v is Integer,
        Prelude::Number => numeric_of(v) is Some || v is OtherFloat,
        Prelude::Float => (v is Float && numeric_of(v) is Some) || v is OtherFloat || (tg == Target::Json
            && v is Integer),
        Prelude::Text => v is Text,
        Prelude::Bytes => v is Bytes,
        Prelude::Tdate => v matches Value::Text(s) && rfc3339_date(s@),
        Prelude::Time => numeric_of(v) is Some || v is OtherFloat,
        Prelude::Uri => v matches Value::Text(s) && uri_reference(s@),
        Prelude::B64url => v is Text,
    }
}

/// Whether a name is a prelude name of a class, directly or through the
/// choices of the type rules that carry it.
pub open spec fn ident_in_class(c: CDDL, name: Seq<char>, class: Class, fuel: nat) -> bool
    decreases fuel,
{
    if fuel == 0 {
        false
    } else {
        ||| in_class(name, class)
        ||| exists|i: int|
            0 <= i < c.rules@.len() && rule_in_class(c, #[trigger] c.rules@[i], name, class, (fuel - 1) as nat)
    }
}

pub open spec fn rule_in_class(c: CDDL, r: Rule, name: Seq<char>, class: Class, fuel: nat) -> bool
    decreases fuel,
{
    if fuel == 0 {
        false
    } else {
        r matches Rule::Type(tr) && tr.name.ident@ == name && exists|j: int|
            0 <= j < tr.value.0@.len() && choice_in_class(c, #[trigger] tr.value.0@[j], class, (fuel - 1) as nat)
    }
}

pub open spec fn choice_in_class(c: CDDL, t1: Type1, class: Class, fuel: nat) -> bool
    decreases fuel,
{
    if fuel == 0 {
        false
    } else {
        t1.type2 matches Type2::Typename(id, _) && ident_in_class(c, id.ident@, class, (fuel - 1) as nat)
    }
}

/// Whether a type is a name that resolves to a prelude name of a class.
pub open spec fn type2_in_class(c: CDDL, t2: Type2, class: Class, fuel: nat) -> bool {
    t2 matches Type2::Typename(id, _) && ident_in_class(c, id.ident@, class, fuel)
}

/// Whether `x` is one of the numbers a range bound or controller denotes: a
/// numeric literal, or a name whose type rules have such choices.
pub open spec fn bound_has(c: CDDL, t2: Type2, x: Numeric, fuel: nat) -> bool
    decreases fuel,
{
    if fuel == 0 {
        false
    } else {
        match t2 {
            Type2::IntValue(n) => x == Numeric::Int(n as i128),
            Type2::UintValue(n) => x == Numeric::Int(n as i128),
            Type2::FloatValue(q) => q.denom > 0 && x == Numeric::Frac(q),
            Type2::Typename(id, _) => exists|i: int|
                0 <= i < c.rules@.len() && rule_bound_has(
                    c,
                    #[trigger] c.rules@[i],
                    id.ident@,
                    x,
                    (fuel - 1) as nat,
                ),
            _ => false,
        }
    }
}

pub open spec fn rule_bound_has(c: CDDL, r: Rule, name: Seq<char>, x: Numeric, fuel: nat) -> bool
    decreases fuel,
{
    if fuel == 0 {
        false
    } else {
        r matches Rule::Type(tr) && tr.name.ident@ == name && exists|j: int|
            0 <= j < tr.value.0@.len() && tr.value.0@[j].operator is None && bound_has(
                c,
                #[trigger] tr.value.0@[j].type2,
                x,
                (fuel - 1) as nat,
            )
    }
}

/// Whether `t` is one of the texts a controller denotes: a text literal, or
/// a name whose type rules have such choices.
pub open spec fn text_has(c: CDDL, t2: Type2, t: Seq<char>, fuel: nat) -> bool
    decreases fuel,
{
    if fuel == 0 {
        false
    } else {
        match t2 {
            Type2::TextValue(s) => s@ == t,
            Type2::Typename(id, _) => exists|i: int|
                0 <= i < c.rules@.len() && rule_text_has(
                    c,
                    #[trigger] c.rules@[i],
                    id.ident@,
                    t,
                    (fuel - 1) as nat,
                ),
            _ => false,
        }
    }
}

pub open spec fn rule_text_has(c: CDDL, r: Rule, name: Seq<char>, t: Seq<char>, fuel: nat) -> bool
    decreases fuel,
{
    if fuel == 0 {
        false
    } else {
        r matches Rule::Type(tr) && tr.name.ident@ == name && exists|j: int|
            0 <= j < tr.value.0@.len() && tr.value.0@[j].operator is None && text_has(
                c,
                #[trigger] tr.value.0@[j].type2,
                t,
                (fuel - 1) as nat,
            )
    }
}

/// Whether a number lies between two bounds of one domain: integer bounds
/// take integers only, fractional bounds take any number.
pub open spec fn in_range(lo: Numeric, hi: Numeric, inclusive: bool, v: Value) -> bool {
    numeric_of(v) matches Some(n) && ((lo.is_int() && hi.is_int() && n.is_int()) || (!lo.is_int()
        && !hi.is_int())) && num_le(lo, n) && (if inclusive {
        num_le(n, hi)
    } else {
        num_lt(n, hi)
    })
}

/// `lower .. upper` (inclusive) or `lower ... upper`: some pair of the
/// numbers the bounds denote has the value between them.
pub open spec fn range_ok(c: CDDL, lower: Type2, upper: Type2, inclusive: bool, v: Value, fuel: nat) -> bool {
    exists|lo: Numeric, hi: Numeric|
        #![trigger bound_has(c, lower, lo, fuel), bound_has(c, upper, hi, fuel)]
        bound_has(c, lower, lo, fuel) && bound_has(c, upper, hi, fuel) && in_range(lo, hi, inclusive, v)
}

/// Whether a key is declared by an entry, directly or
/// through the groups the entry refers to.
pub open spec fn entry_declares(c: CDDL, e: GroupEntry, k: Value, fuel: nat) -> bool
    decreases fuel,
{
    if fuel == 0 {
        false
    } else {
        match e {
            GroupEntry::MemberKey(m) => literal_key(*m) matches Some(l) && same_key(k, l),
            GroupEntry::Groupname(g) => exists|i: int|
                0 <= i < c.rules@.len() && rule_declares(
                    c,
                    #[trigger] c.rules@[i],
                    g.name.ident@,
                    k,
                    (fuel - 1) as nat,
                ),
            GroupEntry::InlineGroup(_, g) => exists|i: int|
                0 <= i < g.0@.len() && choice_declares(c, #[trigger] g.0@[i].0@, k, (fuel - 1) as nat),
        }
    }
}

pub open spec fn rule_declares(c: CDDL, r: Rule, name: Seq<char>, k: Value, fuel: nat) -> bool
    decreases fuel,
{
    if fuel == 0 {
        false
    } else {
        r matches Rule::Group(gr) && gr.name.ident@ == name && entry_declares(c, gr.entry, k, (fuel - 1) as nat)
    }
}

pub open spec fn choice_declares(c: CDDL, es: Seq<GroupEntry>, k: Value, fuel: nat) -> bool
    decreases fuel,
{
    if fuel == 0 {
        false
    } else {
        exists|j: int| 0 <= j < es.len() && entry_declares(c, #[trigger] es[j], k, (fuel - 1) as nat)
    }
}

/// Generic parameters bound to types: an argument that is itself a bound
/// parameter stands for what that parameter is bound to.
pub type Env = Seq<(Seq<char>, Type1)>;

/// The type a name is bound to, if any.
pub open spec fn env_lookup(env: Env, name: Seq<char>) -> Option<Type1>
    decreases env.len(),
{
    if env.len() == 0 {
        None
    } else if env[0].0 == name {
        Some(env[0].1)
    } else {
        env_lookup(env.drop_first(), name)
    }
}

/// An argument as bound: a bare name that the environment binds gives way
/// to its binding.
pub open spec fn resolve_arg(a: Type1, env: Env) -> Type1 {
    match a.type2 {
        Type2::Typename(n, args) => if a.operator is None && args is None {
            match env_lookup(env, n.ident@) {
                Some(b) => b,
                None => a,
            }
        } else {
            a
        },
        _ => a,
    }
}

/// The generic parameters of a rule.
pub open spec fn rule_params(r: Rule) -> Option<crate::ast::GenericParm> {
    match r {
        Rule::Type(tr) => tr.generic_param,
        Rule::Group(gr) => gr.generic_para,
    }
}

/// The bindings under which a rule's body is read: none for a rule without
/// parameters used without arguments, each parameter to its argument when
/// the counts agree, and no reading at all otherwise.
pub open spec fn rule_env(r: Rule, args: Option<GenericArg>, env: Env) -> Option<Env> {
    match (rule_params(r), args) {
        (None, None) => Some(Seq::empty()),
        (Some(p), Some(a)) => if p.0@.len() == a.0@.len() {
            Some(Seq::new(p.0@.len(), |k: int| (p.0@[k].ident@, resolve_arg(a.0@[k], env))))
        } else {
            None
        },
        _ => None,
    }
}

/// The container that `~name` unwraps: the first array, map or tag choice of
/// the name's type rule, or of the rule that its first name choice leads to.
pub open spec fn unwrap_target(c: CDDL, name: Seq<char>, fuel: nat) -> Option<Type2>
    decreases fuel,
{
    if fuel == 0 {
        None
    } else {
        match type_rule_from(c.rules@, name) {
            None => None,
            Some(tr) => match first_container(tr.value.0@) {
                Some(t2) => Some(t2),
                None => match first_typename(tr.value.0@) {
                    Some(n) => unwrap_target(c, n, (fuel - 1) as nat),
                    None => None,
                },
            },
        }
    }
}

/// The first type rule with this name that does not extend an earlier one.
pub open spec fn type_rule_from(rules: Seq<Rule>, name: Seq<char>) -> Option<TypeRule>
    decreases rules.len(),
{
    if rules.len() == 0 {
        None
    } else {
        match rules[0] {
            Rule::Type(tr) => if tr.name.ident@ == name && !tr.is_type_choice_alternate {
                Some(tr)
            } else {
                type_rule_from(rules.drop_first(), name)
            },
            _ => type_rule_from(rules.drop_first(), name),
        }
    }
}

pub open spec fn is_container(t2: Type2) -> bool {
    t2 is Array || t2 is MapDef || t2 is TaggedData
}

pub open spec fn first_container(ts: Seq<Type1>) -> Option<Type2>
    decreases ts.len(),
{
    if ts.len() == 0 {
        None
    } else if is_container(ts[0].type2) {
        Some(ts[0].type2)
    } else {
        first_container(ts.drop_first())
    }
}

pub open spec fn first_typename(ts: Seq<Type1>) -> Option<Seq<char>>
    decreases ts.len(),
{
    if ts.len() == 0 {
        None
    } else {
        match ts[0].type2 {
            Type2::Typename(id, args) => if args is None {
                Some(id.ident@)
            } else {
                first_typename(ts.drop_first())
            },
            _ => first_typename(ts.drop_first()),
        }
    }
}

/// A type accepts a value when one of its choices does.
pub open spec fn type_ok(c: CDDL, tg: Target, env: Env, t: Type, v: Value, fuel: nat) -> bool
    decreases fuel,
{
    if fuel == 0 {
        false
    } else {
        exists|i: int| 0 <= i < t.0@.len() && type1_ok(c, tg, env, #[trigger] t.0@[i], v, (fuel - 1) as nat)
    }
}

pub open spec fn type1_ok(c: CDDL, tg: Target, env: Env, t1: Type1, v: Value, fuel: nat) -> bool
    decreases fuel,
{
    if fuel == 0 {
        false
    } else {
        let f = (fuel - 1) as nat;
        match t1.operator {
            None => type2_ok(c, tg, env, t1.type2, v, f),
            Some((op, rhs)) => match op {
                RangeCtlOp::RangeOp(inclusive) => range_ok(c, t1.type2, rhs, inclusive, v, f),
                RangeCtlOp::CtlOp(name) => control_ok(c, tg, env, t1.type2, name@, rhs, v, f),
            },
        }
    }
}

pub open spec fn literal_num_ok(x: Numeric, v: Value) -> bool {
    numeric_of(v) matches Some(n) && num_eq(n, x)
}

pub open spec fn type2_ok(c: CDDL, tg: Target, env: Env, t2: Type2, v: Value, fuel: nat) -> bool
    decreases fuel,
{
    if fuel == 0 {
        false
    } else {
        let f = (fuel - 1) as nat;
        match t2 {
            Type2::TextValue(s) => v matches Value::Text(x) && x@ == s@,
            Type2::UTF8ByteString(b) => v matches Value::Bytes(x) && x@ == b@,
            Type2::B16ByteString(b) => v matches Value::Bytes(x) && hex_decoded(b@) == Some(x@),
            Type2::B64ByteString(b) => v matches Value::Bytes(x) && b@.len() <= usize::MAX - 3 && b64url_decoded(b@)
                == Some(x@),
            Type2::IntValue(n) => literal_num_ok(Numeric::Int(n as i128), v),
            Type2::UintValue(n) => literal_num_ok(Numeric::Int(n as i128), v),
            Type2::FloatValue(q) => q.denom > 0 && literal_num_ok(Numeric::Frac(q), v),
            Type2::BoolValue(b) => v == Value::Bool(b),
            Type2::Typename(id, args) => typename_ok(c, tg, env, id.ident@, args, v, f),
            Type2::ParenthesizedType(t) => type_ok(c, tg, env, t, v, f),
            Type2::MapDef(g) => v is Object && group_value_ok(c, tg, env, g, v, f),
            Type2::Array(g) => v is Array && group_value_ok(c, tg, env, g, v, f),
            Type2::Unwrap(id, _) => unwrap_ok(c, tg, env, id.ident@, v, f),
            Type2::ChoiceFromInlineGroup(g) => enum_group_ok(c, tg, env, g, v, f),
            Type2::ChoiceFromGroup(id, args) => enum_rule_ok(c, tg, env, id.ident@, args, v, f),
            Type2::TaggedData(tag, t) => match v {
                Value::Tag(n, inner) => (tag matches Some(x) ==> x == n) && type_ok(c, tg, env, t, *inner, f),
                _ => tg == Target::Json && type_ok(c, tg, env, t, v, f),
            },
            Type2::Any => true,
        }
    }
}

/// A name accepts what its prelude type accepts, or else what one of the
/// rules of that name accepts (a rule and its `/=` extensions are a union).
pub open spec fn typename_ok(
    c: CDDL,
    tg: Target,
    env: Env,
    name: Seq<char>,
    args: Option<GenericArg>,
    v: Value,
    fuel: nat,
) -> bool
    decreases fuel,
{
    if fuel == 0 {
        false
    } else {
        match env_lookup(env, name) {
            Some(bound) => type1_ok(c, tg, Seq::empty(), bound, v, (fuel - 1) as nat),
            None => match prelude_of(name) {
                Some(p) => prelude_ok(tg, p, v),
                None => exists|i: int|
                    0 <= i < c.rules@.len() && c.rules@[i].spec_name() == name && rule_value_ok(c, tg, env,
                        #[trigger] c.rules@[i],
                        args,
                        v,
                        (fuel - 1) as nat,
                    ),
            },
        }
    }
}

/// A rule invoked with arguments: its body, with its generic parameters bound
/// to the arguments.
pub open spec fn rule_value_ok(c: CDDL, tg: Target, env: Env, r: Rule, args: Option<GenericArg>, v: Value, fuel: nat) -> bool
    decreases fuel,
{
    if fuel == 0 {
        false
    } else {
        match rule_env(r, args, env) {
            Some(inner) => match r {
                Rule::Type(tr) => type_ok(c, tg, inner, tr.value, v, (fuel - 1) as nat),
                Rule::Group(gr) => entry_value_ok(c, tg, inner, gr.entry, v, (fuel - 1) as nat),
            },
            None => false,
        }
    }
}

/// A group entry taken as the type of one whole value (its key, if any, has
/// no part in this).
pub open spec fn entry_value_ok(c: CDDL, tg: Target, env: Env, e: GroupEntry, v: Value, fuel: nat) -> bool
    decreases fuel,
{
    if fuel == 0 {
        false
    } else {
        let f = (fuel - 1) as nat;
        match e {
            GroupEntry::MemberKey(m) => type_ok(c, tg, env, m.entry_type, v, f),
            GroupEntry::Groupname(g) => typename_ok(c, tg, env, g.name.ident@, g.generic_arg, v, f),
            GroupEntry::InlineGroup(_, g) => group_value_ok(c, tg, env, g, v, f),
        }
    }
}

/// A map or an array matches a group when one of its choices matches it.
pub open spec fn group_value_ok(c: CDDL, tg: Target, env: Env, g: Group, v: Value, fuel: nat) -> bool
    decreases fuel,
{
    if fuel == 0 {
        false
    } else {
        match v {
            Value::Object(_) => exists|i: int|
                0 <= i < g.0@.len() && map_choice_ok(c, tg, env, #[trigger] g.0@[i].0@, v, (fuel - 1) as nat),
            Value::Array(items) => exists|i: int|
                0 <= i < g.0@.len() && array_choice_ok(c, tg, env,
                    #[trigger] g.0@[i].0@,
                    items@,
                    (fuel - 1) as nat,
                ),
            _ => false,
        }
    }
}

/// A map matches a group choice when every entry is satisfied and every pair
/// is either declared by an entry or taken by an entry keyed by a type (such
/// as the wildcard `* tstr => any`).
pub open spec fn map_choice_ok(c: CDDL, tg: Target, env: Env, es: Seq<GroupEntry>, v: Value, fuel: nat) -> bool
    decreases fuel,
{
    if fuel == 0 {
        false
    } else {
        let f = (fuel - 1) as nat;
        let w = wildcard_of(es);
        &&& forall|i: int| 0 <= i < es.len() ==> map_entry_ok(c, tg, env, #[trigger] es[i], v, w, f)
        &&& forall|j: int| 0 <= j < pairs_of(v).len() ==> leftover_ok(c, tg, env, es, #[trigger] pairs_of(v)[j], f)
    }
}

pub open spec fn leftover_ok(c: CDDL, tg: Target, env: Env, es: Seq<GroupEntry>, p: (Value, Value), fuel: nat) -> bool
    decreases fuel,
{
    if fuel == 0 {
        false
    } else {
        ||| choice_declares(c, es, p.0, (fuel - 1) as nat)
        ||| exists|i: int| 0 <= i < es.len() && takes_pair(c, tg, env, #[trigger] es[i], p, (fuel - 1) as nat)
    }
}

/// The key type of a member entry whose key is a type rather than a
/// literal (`tstr => any`, `int => tstr`).
pub open spec fn computed_key(m: MemberKeyEntry) -> Option<Type1> {
    match m.member_key {
        Some(MemberKey::Type1(b)) => if literal_key(m) is None {
            Some(b.0)
        } else {
            None
        },
        _ => None,
    }
}

/// Whether an entry keyed by a type takes a pair: its key is of the key
/// type and its value of the entry's type.
pub open spec fn takes_pair(c: CDDL, tg: Target, env: Env, e: GroupEntry, p: (Value, Value), fuel: nat) -> bool
    decreases fuel,
{
    if fuel == 0 {
        false
    } else {
        match e {
            GroupEntry::MemberKey(m) => match computed_key(*m) {
                Some(k) => type1_ok(c, tg, env, k, p.0, (fuel - 1) as nat) && type_ok(
                    c,
                    tg,
                    env,
                    m.entry_type,
                    p.1,
                    (fuel - 1) as nat,
                ),
                None => false,
            },
            _ => false,
        }
    }
}

/// One entry of a map group: a literal key must be present (unless its
/// occurrence allows it to be absent) with a value of the entry's type; a
/// value that fails falls back to the wildcard type unless the entry has a
/// cut.
pub open spec fn map_entry_ok(c: CDDL, tg: Target, env: Env, e: GroupEntry, v: Value, w: Option<Type>, fuel: nat) -> bool
    decreases fuel,
{
    if fuel == 0 {
        false
    } else {
        let f = (fuel - 1) as nat;
        match e {
            GroupEntry::MemberKey(m) => match literal_key(*m) {
                Some(k) => if has_key(pairs_of(v), k) {
                    forall|j: int|
                        0 <= j < pairs_of(v).len() && key_is(pairs_of(v)[j], k) ==> member_value_ok(c, tg, env,
                            *m,
                            w,
                            #[trigger] pairs_of(v)[j].1,
                            f,
                        )
                } else {
                    absent_ok(m.occur) || has_default(m.entry_type)
                },
                None => if computed_key(*m) is Some {
                    absent_ok(m.occur) || exists|j: int|
                        0 <= j < pairs_of(v).len() && takes_pair(c, tg, env, e, #[trigger] pairs_of(v)[j], f)
                } else if m.member_key is None {
                    type_ok(c, tg, env, m.entry_type, v, f)
                } else {
                    false
                },
            },
            GroupEntry::Groupname(g) => exists|i: int|
                0 <= i < c.rules@.len() && c.rules@[i].spec_name() == g.name.ident@
                    && rule_map_ok(c, tg, env, #[trigger] c.rules@[i], g.generic_arg, v, w, f),
            GroupEntry::InlineGroup(_, g) => exists|i: int|
                0 <= i < g.0@.len() && inline_map_ok(c, tg, env, #[trigger] g.0@[i].0@, v, w, f),
        }
    }
}

pub open spec fn member_value_ok(
    c: CDDL,
    tg: Target, env: Env,
    m: MemberKeyEntry,
    w: Option<Type>,
    x: Value,
    fuel: nat,
) -> bool
    decreases fuel,
{
    if fuel == 0 {
        false
    } else {
        ||| type_ok(c, tg, env, m.entry_type, x, (fuel - 1) as nat)
        ||| (w matches Some(wt) && !is_cut(m) && type_ok(c, tg, env, wt, x, (fuel - 1) as nat))
    }
}

pub open spec fn rule_map_ok(
    c: CDDL,
    tg: Target,
    env: Env,
    r: Rule,
    args: Option<GenericArg>,
    v: Value,
    w: Option<Type>,
    fuel: nat,
) -> bool
    decreases fuel,
{
    if fuel == 0 {
        false
    } else {
        match rule_env(r, args, env) {
            Some(inner) => match r {
                Rule::Group(gr) => map_entry_ok(c, tg, inner, gr.entry, v, w, (fuel - 1) as nat),
                Rule::Type(tr) => type_ok(c, tg, inner, tr.value, v, (fuel - 1) as nat),
            },
            None => false,
        }
    }
}

pub open spec fn inline_map_ok(
    c: CDDL,
    tg: Target, env: Env,
    es: Seq<GroupEntry>,
    v: Value,
    w: Option<Type>,
    fuel: nat,
) -> bool
    decreases fuel,
{
    if fuel == 0 {
        false
    } else {
        forall|j: int| 0 <= j < es.len() ==> map_entry_ok(c, tg, env, #[trigger] es[j], v, w, (fuel - 1) as nat)
    }
}

/// An array matches a group choice when its items can be cut into
/// consecutive slices, one per entry (after group names are expanded in
/// place), each as long as the entry's occurrence allows and each of its
/// items matching the entry.
pub open spec fn array_choice_ok(c: CDDL, tg: Target, env: Env, es: Seq<GroupEntry>, items: Seq<Value>, fuel: nat) -> bool
    decreases fuel,
{
    if fuel == 0 {
        false
    } else {
        let f = (fuel - 1) as nat;
        seq_ok(c, tg, env, flat_entries(c, es, f), items, f)
    }
}

/// Whether an entry may take `n` items: exactly one without an occurrence.
pub open spec fn takes(e: GroupEntry, n: int) -> bool {
    match entry_occur(e) {
        None => n == 1,
        Some(o) => n >= 0 && count_ok(o, n),
    }
}

/// Items matched against entries in order: the first entry takes the first
/// `n` items, for some `n` it allows, and the rest match the rest.
pub open spec fn seq_ok(c: CDDL, tg: Target, env: Env, es: Seq<GroupEntry>, items: Seq<Value>, fuel: nat) -> bool
    decreases fuel,
{
    if fuel == 0 {
        false
    } else if es.len() == 0 {
        items.len() == 0
    } else if rep_group(es[0]) is Some {
        let f = (fuel - 1) as nat;
        let (o, sub) = rep_group(es[0])->0;
        exists|n: int|
            0 <= n <= items.len() && reps_ok(c, tg, env, sub, o, items.take(n), 0, f) && seq_ok(
                c,
                tg,
                env,
                es.drop_first(),
                #[trigger] items.subrange(n, items.len() as int),
                f,
            )
    } else {
        let f = (fuel - 1) as nat;
        exists|n: int|
            0 <= n <= items.len() && takes(es[0], n) && (forall|k: int|
                0 <= k < n ==> entry_value_ok(c, tg, env, es[0], #[trigger] items[k], f)) && seq_ok(
                c,
                tg,
                env,
                es.drop_first(),
                #[trigger] items.subrange(n, items.len() as int),
                f,
            )
    }
}

/// An inline group with an occurrence and one choice: the occurrence and the
/// choice's entries, which repeat.
pub open spec fn rep_group(e: GroupEntry) -> Option<(Occur, Seq<GroupEntry>)> {
    match e {
        GroupEntry::InlineGroup(Some(o), g) => if g.0@.len() == 1 {
            Some((o, g.0@[0].0@))
        } else {
            None
        },
        _ => None,
    }
}

/// Items cut into consecutive non-empty runs, each matching the repeated
/// entries, with `r` runs already taken and as many in all as the occurrence
/// allows.
pub open spec fn reps_ok(
    c: CDDL,
    tg: Target,
    env: Env,
    sub: Seq<GroupEntry>,
    o: Occur,
    xs: Seq<Value>,
    r: int,
    fuel: nat,
) -> bool
    decreases fuel, xs.len(),
{
    if fuel == 0 {
        false
    } else if xs.len() == 0 {
        count_ok(o, r)
    } else {
        exists|m: int|
            1 <= m <= xs.len() && seq_ok(c, tg, env, sub, #[trigger] xs.take(m), (fuel - 1) as nat) && reps_ok(
                c,
                tg,
                env,
                sub,
                o,
                xs.skip(m),
                r + 1,
                fuel,
            )
    }
}

/// The fewest items an entry takes.
pub open spec fn min_take(e: GroupEntry) -> int {
    match entry_occur(e) {
        None => 1,
        Some(Occur::Optional) => 0,
        Some(Occur::ZeroOrMore) => 0,
        Some(Occur::OneOrMore) => 1,
        Some(Occur::Exact(l, _)) => match l {
            Some(x) => x as int,
            None => 0,
        },
    }
}

/// The most items an entry takes, `None` when unbounded.
pub open spec fn max_take(e: GroupEntry) -> Option<int> {
    if rep_group(e) is Some {
        None
    } else {
        match entry_occur(e) {
        None => Some(1),
        Some(Occur::Optional) => Some(1),
        Some(Occur::ZeroOrMore) => None,
        Some(Occur::OneOrMore) => None,
        Some(Occur::Exact(_, u)) => match u {
            Some(y) => Some(y as int),
            None => None,
        },
    }
    }
}

pub open spec fn min_len(es: Seq<GroupEntry>) -> int
    decreases es.len(),
{
    if es.len() == 0 {
        0
    } else {
        min_take(es[0]) + min_len(es.drop_first())
    }
}

pub open spec fn max_len(es: Seq<GroupEntry>) -> Option<int>
    decreases es.len(),
{
    if es.len() == 0 {
        Some(0)
    } else {
        match (max_take(es[0]), max_len(es.drop_first())) {
            (Some(a), Some(b)) => Some(a + b),
            _ => None,
        }
    }
}

/// Whether `n` items lie within the fewest and the most that the entries
/// take together.
pub open spec fn lengths_fit(es: Seq<GroupEntry>, n: int) -> bool {
    min_len(es) <= n && (max_len(es) matches Some(m) ==> n <= m)
}

/// The entries of a group choice as they stand in an array: a group name
/// without an occurrence gives way to the entry of its group rule, and an
/// inline group of one choice without an occurrence to that choice's
/// entries, so that each takes its own positions.
pub open spec fn flat_entries(c: CDDL, es: Seq<GroupEntry>, fuel: nat) -> Seq<GroupEntry>
    decreases fuel, 1nat, es.len(),
{
    if es.len() == 0 {
        Seq::empty()
    } else {
        flat_entries(c, es.drop_last(), fuel) + flat_entry(c, es.last(), fuel)
    }
}

pub open spec fn flat_entry(c: CDDL, e: GroupEntry, fuel: nat) -> Seq<GroupEntry>
    decreases fuel, 0nat, 0nat,
{
    if fuel == 0 {
        seq![e]
    } else {
        match e {
            GroupEntry::Groupname(g) => if g.occur is None {
                match crate::rules::first_group_rule(c.rules@, g.name.ident@) {
                    Some(i) => match c.rules@[i] {
                        Rule::Group(gr) => flat_entry(c, gr.entry, (fuel - 1) as nat),
                        _ => seq![e],
                    },
                    None => seq![e],
                }
            } else {
                seq![e]
            },
            GroupEntry::InlineGroup(o, g) => if o is None && g.0@.len() == 1 {
                flat_entries(c, g.0@[0].0@, (fuel - 1) as nat)
            } else {
                seq![e]
            },
            _ => seq![e],
        }
    }
}

/// `&group`: some member type of some choice accepts the value; keys are
/// ignored.
pub open spec fn enum_group_ok(c: CDDL, tg: Target, env: Env, g: Group, v: Value, fuel: nat) -> bool
    decreases fuel,
{
    if fuel == 0 {
        false
    } else {
        exists|i: int| 0 <= i < g.0@.len() && enum_choice_ok(c, tg, env, #[trigger] g.0@[i].0@, v, (fuel - 1) as nat)
    }
}

pub open spec fn enum_choice_ok(c: CDDL, tg: Target, env: Env, es: Seq<GroupEntry>, v: Value, fuel: nat) -> bool
    decreases fuel,
{
    if fuel == 0 {
        false
    } else {
        exists|j: int| 0 <= j < es.len() && enum_entry_ok(c, tg, env, #[trigger] es[j], v, (fuel - 1) as nat)
    }
}

pub open spec fn enum_entry_ok(c: CDDL, tg: Target, env: Env, e: GroupEntry, v: Value, fuel: nat) -> bool
    decreases fuel,
{
    if fuel == 0 {
        false
    } else {
        let f = (fuel - 1) as nat;
        match e {
            GroupEntry::MemberKey(m) => type_ok(c, tg, env, m.entry_type, v, f),
            GroupEntry::InlineGroup(_, g) => enum_group_ok(c, tg, env, g, v, f),
            GroupEntry::Groupname(g) => enum_rule_ok(c, tg, env, g.name.ident@, g.generic_arg, v, f),
        }
    }
}

/// `&name`: the enumeration over the group rules of that name.
pub open spec fn enum_rule_ok(c: CDDL, tg: Target, env: Env, name: Seq<char>, args: Option<GenericArg>, v: Value, fuel: nat) -> bool
    decreases fuel,
{
    if fuel == 0 {
        false
    } else {
        exists|i: int|
            0 <= i < c.rules@.len() && enum_via_rule(c, tg, env, #[trigger] c.rules@[i], name, args, v, (fuel - 1) as nat)
    }
}

pub open spec fn enum_via_rule(
    c: CDDL,
    tg: Target,
    env: Env,
    r: Rule,
    name: Seq<char>,
    args: Option<GenericArg>,
    v: Value,
    fuel: nat,
) -> bool
    decreases fuel,
{
    if fuel == 0 {
        false
    } else {
        match r {
            Rule::Group(gr) => gr.name.ident@ == name && match rule_env(r, args, env) {
                Some(inner) => enum_entry_ok(c, tg, inner, gr.entry, v, (fuel - 1) as nat),
                None => false,
            },
            Rule::Type(_) => false,
        }
    }
}

/// `~name` accepts what the interior of the container it unwraps accepts.
pub open spec fn unwrap_ok(c: CDDL, tg: Target, env: Env, name: Seq<char>, v: Value, fuel: nat) -> bool
    decreases fuel,
{
    if fuel == 0 {
        false
    } else {
        let f = (fuel - 1) as nat;
        match unwrap_target(c, name, f) {
            Some(Type2::Array(g)) => group_value_ok(c, tg, Seq::empty(), g, v, f),
            Some(Type2::MapDef(g)) => group_value_ok(c, tg, Seq::empty(), g, v, f),
            Some(Type2::TaggedData(_, t)) => type_ok(c, tg, Seq::empty(), t, v, f),
            _ => false,
        }
    }
}

/// How a number compares with a controller number under `.lt`, `.le`, `.gt`
/// or `.ge`.
pub open spec fn compares(op: Seq<char>, n: Numeric, x: Numeric) -> bool {
    if op == "lt"@ {
        num_lt(n, x)
    } else if op == "le"@ {
        num_le(n, x)
    } else if op == "gt"@ {
        num_lt(x, n)
    } else {
        num_le(x, n)
    }
}

pub open spec fn is_comparison(op: Seq<char>) -> bool {
    op == "lt"@ || op == "le"@ || op == "gt"@ || op == "ge"@
}

/// `256^k`
pub open spec fn pow256(k: nat) -> int
    decreases k,
{
    if k == 0 {
        1
    } else {
        256 * pow256((k - 1) as nat)
    }
}

/// Some number the controller denotes relates to `n` by `op`.
pub open spec fn compare_holds(c: CDDL, ctrl: Type2, op: Seq<char>, n: Numeric, fuel: nat) -> bool {
    exists|x: Numeric| #[trigger] bound_has(c, ctrl, x, fuel) && compares(op, n, x)
}

/// Some number the controller denotes equals `n`.
pub open spec fn equal_number(c: CDDL, ctrl: Type2, n: Numeric, fuel: nat) -> bool {
    exists|x: Numeric| #[trigger] bound_has(c, ctrl, x, fuel) && num_eq(n, x)
}

/// Some text the controller denotes equals `s`.
pub open spec fn equal_text(c: CDDL, ctrl: Type2, s: Seq<char>, fuel: nat) -> bool {
    exists|t: Seq<char>| #[trigger] text_has(c, ctrl, t, fuel) && s == t
}

/// The string literals a controller stands for: itself, or those of a name.
pub open spec fn controller_literals(c: CDDL, ctrl: Type2, fuel: nat) -> Seq<Type2> {
    match ctrl {
        Type2::Typename(id, _) => crate::rules::literal_seq(c, id.ident@, fuel),
        _ => seq![ctrl],
    }
}

/// Some literal the controller stands for has the bytes `x`.
pub open spec fn equal_bytes(c: CDDL, ctrl: Type2, x: Seq<u8>, fuel: nat) -> bool {
    exists|k: int|
        0 <= k < controller_literals(c, ctrl, fuel).len() && crate::cat::lit_bytes(
            #[trigger] controller_literals(c, ctrl, fuel)[k],
        ) == Some(x)
}

/// Some pattern the controller denotes matches `s`.
pub open spec fn pattern_holds(c: CDDL, ctrl: Type2, s: Seq<char>, fuel: nat) -> bool {
    exists|p: Seq<char>| #[trigger] text_has(c, ctrl, p, fuel) && pattern_accepts(p, s)
}

/// Some byte count `k` the controller denotes has `n < 256^k`.
pub open spec fn fits_some(c: CDDL, ctrl: Type2, n: int, fuel: nat) -> bool {
    exists|k: i128| #[trigger] bound_has(c, ctrl, Numeric::Int(k), fuel) && k >= 0 && n < pow256(k as nat)
}

/// What a control operator accepts, given its target and its controller.
pub open spec fn control_ok(
    c: CDDL,
    tg: Target, env: Env,
    target: Type2,
    op: Seq<char>,
    ctrl: Type2,
    v: Value,
    fuel: nat,
) -> bool
    decreases fuel,
{
    if fuel == 0 {
        false
    } else {
        let f = (fuel - 1) as nat;
        if is_comparison(op) {
            &&& type2_in_class(c, target, Class::Numeric, f)
            &&& type2_ok(c, tg, env, target, v, f)
            &&& numeric_of(v) matches Some(n) && compare_holds(c, ctrl, op, n, f)
        } else if op == "eq"@ || op == "ne"@ {
            &&& type2_ok(c, tg, env, target, v, f)
            &&& if type2_in_class(c, target, Class::Numeric, f) {
                numeric_of(v) matches Some(n) && equal_number(c, ctrl, n, f) == (op == "eq"@)
            } else if type2_in_class(c, target, Class::Text, f) {
                v matches Value::Text(s) && equal_text(c, ctrl, s@, f) == (op == "eq"@)
            } else {
                type2_in_class(c, target, Class::Bytes, f) && (v matches Value::Bytes(x) && equal_bytes(c, ctrl, x@, f)
                    == (op == "eq"@))
            }
        } else if op == "size"@ {
            type2_ok(c, tg, env, target, v, f) && size_ok(c, tg, env, ctrl, v, f)
        } else if op == "regexp"@ || op == "pcre"@ {
            &&& type2_in_class(c, target, Class::Text, f)
            &&& v matches Value::Text(s) && pattern_holds(c, ctrl, s@, f)
        } else if op == "bits"@ {
            type2_ok(c, tg, env, target, v, f) && bits_ok(c, tg, env, ctrl, v, f)
        } else if op == "cat"@ {
            cat_spec(c, target, ctrl, f) matches Some(outs) && cat_accepts(outs, v)
        } else if op == "and"@ || op == "within"@ {
            type2_ok(c, tg, env, target, v, f) && type2_ok(c, tg, env, ctrl, v, f)
        } else if op == "default"@ {
            type2_ok(c, tg, env, target, v, f)
        } else {
            false
        }
    }
}

/// `2^i`
pub open spec fn pow2(i: nat) -> int
    decreases i,
{
    if i == 0 {
        1
    } else {
        2 * pow2((i - 1) as nat)
    }
}

/// Whether bit `i` (counting from the least significant) of `n` is set.
pub open spec fn bit_set(n: int, i: nat) -> bool {
    (n / pow2(i)) % 2 == 1
}

/// Whether bit `i` of a byte string is set: bit `i % 8` of byte `i / 8`.
pub open spec fn byte_bit_set(b: Seq<u8>, i: int) -> bool {
    0 <= i < 8 * b.len() && bit_set(b[i / 8] as int, (i % 8) as nat)
}

/// `.bits`: the index of every set bit of an unsigned integer or a byte
/// string is a value that the controller accepts.
pub open spec fn bits_ok(c: CDDL, tg: Target, env: Env, ctrl: Type2, v: Value, fuel: nat) -> bool
    decreases fuel,
{
    if fuel < 2 {
        false
    } else {
        let f = (fuel - 2) as nat;
        match v {
            Value::Integer(n) => n >= 0 && forall|i: nat|
                #[trigger] bit_set(n as int, i) ==> type2_ok(c, tg, env, ctrl, Value::Integer(i as i128), f),
            Value::Bytes(b) => forall|i: int|
                #[trigger] byte_bit_set(b@, i) ==> type2_ok(c, tg, env, ctrl, Value::Integer(i as i128), f),
            _ => false,
        }
    }
}

/// `.size`: the length of a text (in characters) or of bytes lies in the
/// controller; an unsigned integer fits in the number of bytes the controller
/// names.
pub open spec fn size_ok(c: CDDL, tg: Target, env: Env, ctrl: Type2, v: Value, fuel: nat) -> bool
    decreases fuel,
{
    if fuel == 0 {
        false
    } else {
        let f = (fuel - 1) as nat;
        match v {
            Value::Text(s) => type2_ok(c, tg, env, ctrl, Value::Integer(s@.len() as i128), f),
            Value::Bytes(b) => type2_ok(c, tg, env, ctrl, Value::Integer(b@.len() as i128), f),
            Value::Integer(n) => n >= 0 && fits_some(c, ctrl, n as int, f),
            _ => false,
        }
    }
}

} // verus!
