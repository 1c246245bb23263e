use cddl::ast::{
    Group, GroupChoice, GroupEntry, GroupRule, GroupnameEntry, Identifier, MemberKey, MemberKeyEntry,
    Occur, RangeCtlOp, Rule, Type, Type1, Type2, TypeRule, CDDL,
};
use cddl::error::Error;
use cddl::validator::validate_json;
use cddl::value::{Fraction, Value};

fn id(s: &str) -> Identifier {
    Identifier { ident: s.to_string() }
}

fn name(s: &str) -> Type2 {
    Type2::Typename(id(s), None)
}

fn t1(t2: Type2) -> Type1 {
    Type1 { type2: t2, operator: None }
}

fn ty(choices: Vec<Type2>) -> Type {
    Type(choices.into_iter().map(t1).collect())
}

fn type_rule(n: &str, value: Type) -> Rule {
    Rule::Type(TypeRule { name: id(n), generic_param: None, is_type_choice_alternate: false, value })
}

fn group_rule(n: &str, entry: GroupEntry) -> Rule {
    Rule::Group(Box::new(GroupRule {
        name: id(n),
        generic_para: None,
        is_group_choice_alternate: false,
        entry,
    }))
}

fn member(occur: Option<Occur>, key: Option<MemberKey>, entry_type: Type) -> GroupEntry {
    GroupEntry::MemberKey(Box::new(MemberKeyEntry { occur, member_key: key, entry_type }))
}

fn bare(s: &str) -> Option<MemberKey> {
    Some(MemberKey::Bareword(id(s)))
}

fn group(entries: Vec<GroupEntry>) -> Group {
    Group(vec![GroupChoice(entries)])
}

fn text(s: &str) -> Value {
    Value::Text(s.to_string())
}

fn obj(pairs: Vec<(&str, Value)>) -> Value {
    Value::Object(pairs.into_iter().map(|(k, v)| (text(k), v)).collect())
}

fn frac(numer: i64, denom: u64) -> Value {
    Value::Float(Fraction { numer, denom })
}

fn has_error(e: &Error, want: &dyn Fn(&Error) -> bool) -> bool {
    if want(e) {
        return true;
    }
    match e {
        Error::MultiError(es) => es.iter().any(|x| has_error(x, want)),
        _ => false,
    }
}

fn doc(rules: Vec<Rule>) -> CDDL {
    CDDL { rules }
}

#[test]
fn validate_json_null() {
    let cddl = doc(vec![type_rule("mynullrule", ty(vec![name("null")]))]);
    assert!(validate_json(&cddl, &Value::Null).is_ok());
}

#[test]
fn validate_json_bool() {
    let cddl = doc(vec![type_rule("myboolrule", ty(vec![name("true")]))]);
    assert!(validate_json(&cddl, &Value::Bool(true)).is_ok());
}

#[test]
fn validate_json_number() {
    let cddl = doc(vec![type_rule(
        "mynumericrule",
        ty(vec![
            Type2::UintValue(3),
            Type2::FloatValue(Fraction { numer: 3, denom: 2 }),
            Type2::UintValue(10),
        ]),
    )]);
    for v in [Value::Integer(3), frac(3, 2), Value::Integer(10)] {
        assert!(validate_json(&cddl, &v).is_ok());
    }
}

#[test]
fn validate_json_string() {
    let cddl = doc(vec![type_rule(
        "mystringrule",
        ty(vec![Type2::TextValue("mystring".to_string())]),
    )]);
    assert!(validate_json(&cddl, &text("mystring")).is_ok());
}

fn object_schema() -> CDDL {
    doc(vec![
        type_rule(
            "myobject",
            ty(vec![Type2::MapDef(group(vec![
                member(None, bare("mykey"), ty(vec![name("tstr")])),
                member(
                    None,
                    bare("myarray"),
                    ty(vec![Type2::Array(group(vec![GroupEntry::Groupname(GroupnameEntry {
                        occur: Some(Occur::OneOrMore),
                        name: id("arraytype"),
                        generic_arg: None,
                    })]))]),
                ),
            ]))]),
        ),
        type_rule(
            "arraytype",
            ty(vec![Type2::MapDef(group(vec![member(None, bare("myotherkey"), ty(vec![name("tstr")]))]))]),
        ),
    ])
}

#[test]
fn validate_json_object() {
    let v = obj(vec![
        ("mykey", text("myvalue")),
        ("myarray", Value::Array(vec![obj(vec![("myotherkey", text("myothervalue"))])])),
    ]);
    assert!(validate_json(&object_schema(), &v).is_ok());
}

#[test]
fn object_with_empty_one_or_more_array_fails() {
    let v = obj(vec![("mykey", text("myvalue")), ("myarray", Value::Array(vec![]))]);
    let r = validate_json(&object_schema(), &v);
    assert!(matches!(&r, Err(e) if has_error(e, &|x| matches!(x, Error::Occurrence(_)))));
}

#[test]
fn object_missing_key_fails() {
    let v = obj(vec![("myarray", Value::Array(vec![obj(vec![("myotherkey", text("x"))])]))]);
    let r = validate_json(&object_schema(), &v);
    assert!(matches!(&r, Err(e) if has_error(e, &|x| matches!(x, Error::MissingKey(k) if k == "mykey"))));
}

#[test]
fn object_unexpected_key_fails() {
    let v = obj(vec![
        ("mykey", text("myvalue")),
        ("myarray", Value::Array(vec![obj(vec![("myotherkey", text("x"))])])),
        ("extra", Value::Null),
    ]);
    let r = validate_json(&object_schema(), &v);
    assert!(matches!(&r, Err(e) if has_error(e, &|x| matches!(x, Error::UnexpectedKey(k) if k == "extra"))));
}

fn geography() -> CDDL {
    doc(vec![
        type_rule(
            "Geography",
            ty(vec![Type2::Array(group(vec![
                member(None, bare("city"), ty(vec![name("tstr")])),
                member(None, bare("gpsCoordinates"), ty(vec![name("GpsCoordinates")])),
            ]))]),
        ),
        type_rule(
            "GpsCoordinates",
            ty(vec![Type2::MapDef(group(vec![
                member(None, bare("longitude"), ty(vec![name("uint")])),
                member(None, bare("latitude"), ty(vec![name("uint")])),
            ]))]),
        ),
    ])
}

#[test]
fn validate_json_array() {
    let v = Value::Array(vec![
        text("washington"),
        obj(vec![("longitude", Value::Integer(1234)), ("latitude", Value::Integer(3947))]),
    ]);
    assert!(validate_json(&geography(), &v).is_ok());
}

#[test]
fn array_tuple_wrong_position_fails() {
    let v = Value::Array(vec![
        obj(vec![("longitude", Value::Integer(1234)), ("latitude", Value::Integer(3947))]),
        text("washington"),
    ]);
    assert!(validate_json(&geography(), &v).is_err());
    let short = Value::Array(vec![text("washington")]);
    assert!(validate_json(&geography(), &short).is_err());
}

fn colors() -> CDDL {
    doc(vec![
        type_rule("color", ty(vec![Type2::ChoiceFromGroup(id("colors"), None)])),
        group_rule(
            "colors",
            GroupEntry::InlineGroup(
                None,
                group(vec![
                    member(None, bare("red"), ty(vec![Type2::TextValue("red".to_string())])),
                    member(None, bare("blue"), ty(vec![Type2::TextValue("blue".to_string())])),
                    member(None, bare("green"), ty(vec![Type2::TextValue("green".to_string())])),
                ]),
            ),
        ),
    ])
}

#[test]
fn validate_with_group_enum() {
    assert!(validate_json(&colors(), &text("blue")).is_ok());
}

#[test]
fn group_enum_rejects_non_member() {
    let r = validate_json(&colors(), &text("yellow"));
    assert!(matches!(&r, Err(e) if has_error(e, &|x| matches!(x, Error::NoEnumeratedMemberMatched))));
}

fn int_range() -> CDDL {
    doc(vec![
        type_rule(
            "myrange",
            Type(vec![Type1 {
                type2: name("my.lower"),
                operator: Some((RangeCtlOp::RangeOp(true), name("upper"))),
            }]),
        ),
        type_rule("my.lower", ty(vec![Type2::IntValue(-1)])),
        type_rule("upper", ty(vec![Type2::UintValue(1), Type2::UintValue(3)])),
    ])
}

#[test]
fn validate_number_int_range() {
    assert!(validate_json(&int_range(), &Value::Integer(3)).is_ok());
}

#[test]
fn int_range_across_rules_rejects_above() {
    let r = validate_json(&int_range(), &Value::Integer(4));
    assert!(matches!(&r, Err(e) if has_error(e, &|x| matches!(x, Error::ValueMismatch(_)))));
    assert!(validate_json(&int_range(), &Value::Integer(-1)).is_ok());
    assert!(validate_json(&int_range(), &Value::Integer(-2)).is_err());
}

fn cut_map() -> CDDL {
    doc(vec![type_rule(
        "extensible-map-example",
        ty(vec![Type2::MapDef(group(vec![
            member(
                Some(Occur::Optional),
                Some(MemberKey::Type1(Box::new((t1(Type2::TextValue("optional-key".to_string())), true)))),
                ty(vec![name("int")]),
            ),
            member(
                Some(Occur::ZeroOrMore),
                Some(MemberKey::Type1(Box::new((t1(name("tstr")), false)))),
                ty(vec![name("any")]),
            ),
        ]))]),
    )])
}

#[test]
fn validate_cut_in_map() {
    let v = obj(vec![("optional-key", Value::Integer(10))]);
    assert!(validate_json(&cut_map(), &v).is_ok());
}

#[test]
fn cut_in_map_does_not_fall_back_to_wildcard() {
    let v = obj(vec![("optional-key", text("x"))]);
    assert!(validate_json(&cut_map(), &v).is_err());
    let other = obj(vec![("other", text("x"))]);
    assert!(validate_json(&cut_map(), &other).is_ok());
    assert!(validate_json(&cut_map(), &obj(vec![])).is_ok());
}

#[test]
fn validate_bad_range() {
    let cddl = doc(vec![type_rule(
        "badrange",
        Type(vec![Type1 {
            type2: Type2::FloatValue(Fraction { numer: 3, denom: 2 }),
            operator: Some((RangeCtlOp::RangeOp(false), Type2::UintValue(4))),
        }]),
    )]);
    assert!(validate_json(&cddl, &Value::Integer(3)).is_err());
}

#[test]
fn validate_uri_text_value() {
    let cddl = doc(vec![type_rule("root", ty(vec![name("uri")]))]);
    assert!(validate_json(&cddl, &text("https://gitub.com")).is_ok());
    assert!(validate_json(&cddl, &text("not a uri")).is_err());
}
