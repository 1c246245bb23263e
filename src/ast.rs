//! The parsed form of a CDDL document. The tree is immutable while a value is
//! validated against it; rule references are names that are looked up in the
//! document, never shared pointers.
use crate::value::Fraction;
use vstd::prelude::*;

verus! {

/// A CDDL document: its rules in document order.
#[derive(Debug)]
pub struct CDDL {
    pub rules: Vec<Rule>,
}

/// A name in the document: a rule name, a prelude type name or a bareword.
#[derive(Debug)]
pub struct Identifier {
    pub ident: String,
}

/// A rule is either a type rule `name = type` or a group rule `name = (group)`.
#[derive(Debug)]
pub enum Rule {
    Type(TypeRule),
    Group(Box<GroupRule>),
}

/// `name [<params>] = type`, or `name /= type` when it extends an earlier rule.
#[derive(Debug)]
pub struct TypeRule {
    pub name: Identifier,
    pub generic_param: Option<GenericParm>,
    pub is_type_choice_alternate: bool,
    pub value: Type,
}

/// `name [<params>] = group-entry`, or `name //= ...` when it extends an earlier
/// rule.
#[derive(Debug)]
pub struct GroupRule {
    pub name: Identifier,
    pub generic_para: Option<GenericParm>,
    pub is_group_choice_alternate: bool,
    pub entry: GroupEntry,
}

/// Generic parameters of a rule: `<a, b>`.
#[derive(Debug)]
pub struct GenericParm(pub Vec<Identifier>);

/// Generic arguments at a use of a rule: `<tstr, uint>`.
#[derive(Debug)]
pub struct GenericArg(pub Vec<Type1>);

/// A type: its choices (`a / b / c`) in declaration order.
#[derive(Debug)]
pub struct Type(pub Vec<Type1>);

/// One type choice: a `Type2` with an optional range or control operator.
#[derive(Debug)]
pub struct Type1 {
    pub type2: Type2,
    pub operator: Option<(RangeCtlOp, Type2)>,
}

/// `..` (inclusive, `RangeOp(true)`), `...` (exclusive, `RangeOp(false)`) or a
/// control operator such as `.size` (held without its dot).
#[derive(Debug)]
pub enum RangeCtlOp {
    RangeOp(bool),
    CtlOp(String),
}

/// The forms a single type can take.
#[derive(Debug)]
pub enum Type2 {
    TextValue(String),
    UTF8ByteString(Vec<u8>),
    /// `h'..'`: the hex digits as written.
    B16ByteString(Vec<u8>),
    /// `b64'..'`: the base64url text as written.
    B64ByteString(Vec<u8>),
    IntValue(i64),
    UintValue(u64),
    FloatValue(Fraction),
    BoolValue(bool),
    Typename(Identifier, Option<GenericArg>),
    ParenthesizedType(Type),
    MapDef(Group),
    Array(Group),
    Unwrap(Identifier, Option<GenericArg>),
    ChoiceFromInlineGroup(Group),
    ChoiceFromGroup(Identifier, Option<GenericArg>),
    /// `#6.n(type)`; `None` when the tag number is left open.
    TaggedData(Option<u64>, Type),
    Any,
}

/// A group: its choices (`a // b`) in declaration order.
#[derive(Debug)]
pub struct Group(pub Vec<GroupChoice>);

/// One group choice: its entries in declaration order.
#[derive(Debug)]
pub struct GroupChoice(pub Vec<GroupEntry>);

#[derive(Debug)]
pub enum GroupEntry {
    MemberKey(Box<MemberKeyEntry>),
    Groupname(GroupnameEntry),
    InlineGroup(Option<Occur>, Group),
}

/// `[occur] [key] type`
#[derive(Debug)]
pub struct MemberKeyEntry {
    pub occur: Option<Occur>,
    pub member_key: Option<MemberKey>,
    pub entry_type: Type,
}

/// `[occur] name [<args>]`: a reference to a group rule.
#[derive(Debug)]
pub struct GroupnameEntry {
    pub occur: Option<Occur>,
    pub name: Identifier,
    pub generic_arg: Option<GenericArg>,
}

#[derive(Debug)]
pub enum MemberKey {
    /// `type1 =>`, or `type1 ^ =>` when the flag (the cut) is set.
    Type1(Box<(Type1, bool)>),
    /// `name:`
    Bareword(Identifier),
    /// `"literal":`, a literal written as a `Type2` value.
    Value(Type2),
}

#[derive(Debug, Clone, Copy, PartialEq, Eq, Structural)]
pub enum Occur {
    /// `n*m`, with either bound left open.
    Exact(Option<usize>, Option<usize>),
    ZeroOrMore,
    OneOrMore,
    Optional,
}

impl Rule {
    pub open spec fn spec_name(&self) -> Seq<char> {
        match self {
            Rule::Type(tr) => tr.name.ident@,
            Rule::Group(gr) => gr.name.ident@,
        }
    }

    pub open spec fn spec_is_alternate(&self) -> bool {
        match self {
            Rule::Type(tr) => tr.is_type_choice_alternate,
            Rule::Group(gr) => gr.is_group_choice_alternate,
        }
    }

    /// The rule's name.
    pub fn name(&self) -> (r: &Identifier)
        ensures
            r.ident@ == self.spec_name(),
    {
        match self {
            Rule::Type(tr) => &tr.name,
            Rule::Group(gr) => &gr.name,
        }
    }
}

} // verus!
