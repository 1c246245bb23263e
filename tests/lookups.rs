use cddl::ast::{
    GenericParm, Group, GroupChoice, GroupEntry, GroupRule, GroupnameEntry, Identifier, MemberKey,
    MemberKeyEntry, Occur, RangeCtlOp, Rule, Type, Type1, Type2, TypeRule, CDDL,
};
use cddl::cat::{cat_operation, ByteValue, CATOperationResult};
use cddl::occurrence::{entry_counts_from_group_choice, validate_array_occurrence, validate_entry_count, EntryCount};
use cddl::rules::{
    generic_params_from_rule, group_choice_alternates_from_ident, group_rule_from_ident, ident_matches_bool_value,
    is_ident_any_type, is_ident_b64url_data_type, is_ident_bool_data_type, is_ident_byte_string_data_type,
    is_ident_float_data_type, is_ident_integer_data_type, is_ident_nint_data_type, is_ident_null_data_type,
    is_ident_numeric_data_type, is_ident_string_data_type, is_ident_tdate_data_type, is_ident_time_data_type,
    is_ident_uint_data_type, is_ident_uri_data_type, rule_from_ident, string_literals_from_ident,
    type_choice_alternates_from_ident, type_choices_from_group_choice, type_rule_from_ident, unwrap_rule_from_ident,
};
use cddl::validator::{validate_json, Validator};
use cddl::value::{Target, Value};

fn lid(s: &str) -> Identifier {
    Identifier { ident: s.to_string() }
}

fn lname(s: &str) -> Type2 {
    Type2::Typename(lid(s), None)
}

fn lty(choices: Vec<Type2>) -> Type {
    Type(choices.into_iter().map(|t| Type1 { type2: t, operator: None }).collect())
}

fn lrule(n: &str, alt: bool, value: Type) -> Rule {
    Rule::Type(TypeRule { name: lid(n), generic_param: None, is_type_choice_alternate: alt, value })
}

fn lgroup_rule(n: &str, alt: bool, entry: GroupEntry) -> Rule {
    Rule::Group(Box::new(GroupRule { name: lid(n), generic_para: None, is_group_choice_alternate: alt, entry }))
}

fn lmember(occur: Option<Occur>, entry_type: Type) -> GroupEntry {
    GroupEntry::MemberKey(Box::new(MemberKeyEntry { occur, member_key: None, entry_type }))
}

fn ltext(s: &str) -> Type2 {
    Type2::TextValue(s.to_string())
}

fn chain() -> CDDL {
    CDDL {
        rules: vec![
            lrule("a", false, lty(vec![lname("b")])),
            lrule("b", false, lty(vec![lname("uint")])),
            lrule("a", true, lty(vec![lname("tstr")])),
            lrule("flag", false, lty(vec![lname("true")])),
            lrule("when", false, lty(vec![lname("tdate")])),
            lgroup_rule("g", false, lmember(None, lty(vec![lname("int")]))),
            lgroup_rule("g", true, lmember(None, lty(vec![lname("tstr")]))),
        ],
    }
}

#[test]
fn rule_lookups() {
    let c = chain();
    match rule_from_ident(&c, &lid("a")) {
        Some(Rule::Type(tr)) => assert!(!tr.is_type_choice_alternate),
        other => panic!("unexpected {:?}", other),
    }
    assert!(rule_from_ident(&c, &lid("zzz")).is_none());
    assert!(type_rule_from_ident(&c, &lid("b")).is_some());
    assert!(type_rule_from_ident(&c, &lid("g")).is_none());
    assert!(group_rule_from_ident(&c, &lid("g")).map(|g| !g.is_group_choice_alternate).unwrap_or(false));
    assert_eq!(type_choice_alternates_from_ident(&c, &lid("a")).len(), 2);
    assert_eq!(group_choice_alternates_from_ident(&c, &lid("g")).len(), 2);
}

#[test]
fn name_classification_follows_rules() {
    let c = chain();
    assert!(is_ident_numeric_data_type(&c, &lid("a")));
    assert!(is_ident_uint_data_type(&c, &lid("b")));
    assert!(is_ident_integer_data_type(&c, &lid("b")));
    assert!(is_ident_string_data_type(&c, &lid("a")));
    assert!(!is_ident_float_data_type(&c, &lid("a")));
    assert!(!is_ident_nint_data_type(&c, &lid("a")));
    assert!(is_ident_tdate_data_type(&c, &lid("when")));
    assert!(ident_matches_bool_value(&c, &lid("flag"), true));
    assert!(!ident_matches_bool_value(&c, &lid("flag"), false));
    assert!(is_ident_null_data_type(&c, &lid("nil")));
    assert!(is_ident_bool_data_type(&c, &lid("bool")));
    assert!(is_ident_bool_data_type(&c, &lid("false")));
    assert!(is_ident_bool_data_type(&c, &lid("flag")));
    assert!(is_ident_uri_data_type(&c, &lid("uri")));
    assert!(is_ident_b64url_data_type(&c, &lid("b64url")));
    assert!(is_ident_time_data_type(&c, &lid("time")));
    assert!(is_ident_any_type(&c, &lid("any")));
    assert!(is_ident_byte_string_data_type(&c, &lid("bytes")));
    assert!(!is_ident_byte_string_data_type(&c, &lid("b")));
}

#[test]
fn cyclic_names_terminate() {
    let c = CDDL { rules: vec![lrule("x", false, lty(vec![lname("y")])), lrule("y", false, lty(vec![lname("x")]))] };
    assert!(!is_ident_numeric_data_type(&c, &lid("x")));
}

#[test]
fn generic_parameters() {
    let r = Rule::Type(TypeRule {
        name: lid("pair"),
        generic_param: Some(GenericParm(vec![lid("K"), lid("V")])),
        is_type_choice_alternate: false,
        value: lty(vec![lname("K")]),
    });
    assert_eq!(generic_params_from_rule(&r), Some(vec!["K".to_string(), "V".to_string()]));
    assert_eq!(generic_params_from_rule(&lrule("a", false, lty(vec![lname("uint")]))), None);
}

#[test]
fn string_literals_in_order() {
    let c = CDDL {
        rules: vec![
            lrule("s", false, lty(vec![ltext("x"), lname("t"), Type2::UintValue(1)])),
            lrule("t", false, lty(vec![Type2::UTF8ByteString(b"y".to_vec()), ltext("z")])),
        ],
    };
    let lits = string_literals_from_ident(&c, &lid("s"));
    assert_eq!(lits.len(), 3);
    assert!(matches!(lits[0], Type2::TextValue(s) if s == "x"));
    assert!(matches!(lits[1], Type2::UTF8ByteString(b) if b == b"y"));
    assert!(matches!(lits[2], Type2::TextValue(s) if s == "z"));
}

#[test]
fn unwrap_rule_lookup() {
    let c = CDDL {
        rules: vec![
            lrule("alias", false, lty(vec![lname("base")])),
            lrule("base", false, lty(vec![Type2::Array(Group(vec![GroupChoice(vec![])]))])),
            lrule("plain", false, lty(vec![lname("uint")])),
        ],
    };
    assert!(matches!(unwrap_rule_from_ident(&c, &lid("alias")), Some(tr) if tr.name.ident == "base"));
    assert!(unwrap_rule_from_ident(&c, &lid("plain")).is_none());
}

#[test]
fn type_choices_of_a_group_choice() {
    let c = chain();
    let gc = GroupChoice(vec![
        lmember(None, lty(vec![lname("uint"), lname("tstr")])),
        GroupEntry::Groupname(GroupnameEntry { occur: None, name: lid("b"), generic_arg: None }),
        GroupEntry::InlineGroup(None, Group(vec![GroupChoice(vec![lmember(None, lty(vec![lname("bool")]))])])),
    ]);
    let choices = type_choices_from_group_choice(&c, &gc);
    let names: Vec<String> = choices
        .iter()
        .map(|t| match &t.type2 {
            Type2::Typename(id, _) => id.ident.clone(),
            _ => String::new(),
        })
        .collect();
    assert_eq!(names, vec!["uint", "tstr", "uint", "bool"]);
}

#[test]
fn entry_counts() {
    let c = CDDL {
        rules: vec![lgroup_rule(
            "pair",
            false,
            GroupEntry::InlineGroup(None, Group(vec![GroupChoice(vec![lmember(None, lty(vec![lname("int")])), lmember(None, lty(vec![lname("int")]))])])),
        )],
    };
    let gc = GroupChoice(vec![
        lmember(None, lty(vec![lname("tstr")])),
        GroupEntry::Groupname(GroupnameEntry { occur: Some(Occur::ZeroOrMore), name: lid("pair"), generic_arg: None }),
        GroupEntry::Groupname(GroupnameEntry { occur: None, name: lid("other"), generic_arg: None }),
    ]);
    let ec = entry_counts_from_group_choice(&c, &gc);
    assert_eq!(ec.count, 4);
    assert_eq!(ec.entry_occurrence, Some(Occur::ZeroOrMore));
    let exact = EntryCount { count: 2, entry_occurrence: None };
    let ranged = EntryCount { count: 1, entry_occurrence: Some(Occur::Exact(Some(3), Some(4))) };
    assert!(validate_entry_count(&[exact], 2));
    assert!(!validate_entry_count(&[exact], 3));
    assert!(validate_entry_count(&[exact, ranged], 4));
    assert!(!validate_entry_count(&[exact, ranged], 5));
    assert!(!validate_entry_count(&[], 0));
}

#[test]
fn array_occurrence_checks() {
    let three = vec![Value::Null, Value::Null, Value::Null];
    assert_eq!(validate_array_occurrence(Some(&Occur::ZeroOrMore), None, &three), Ok((true, true)));
    assert_eq!(validate_array_occurrence(Some(&Occur::ZeroOrMore), None, &[]), Ok((true, true)));
    assert_eq!(validate_array_occurrence(Some(&Occur::Exact(None, Some(2))), None, &[]), Ok((true, true)));
    assert_eq!(validate_array_occurrence(Some(&Occur::OneOrMore), None, &three), Ok((true, false)));
    assert_eq!(validate_array_occurrence(Some(&Occur::Optional), None, &three[..1]), Ok((false, true)));
    assert!(validate_array_occurrence(Some(&Occur::Optional), None, &three).is_err());
    assert!(validate_array_occurrence(Some(&Occur::OneOrMore), None, &[]).is_err());
    assert!(validate_array_occurrence(Some(&Occur::Exact(Some(1), Some(2))), None, &three).is_err());
    assert_eq!(validate_array_occurrence(Some(&Occur::Exact(Some(1), Some(3))), None, &three), Ok((true, false)));
    assert_eq!(validate_array_occurrence(Some(&Occur::Exact(Some(0), Some(3))), None, &three), Ok((true, true)));
    let counts = [EntryCount { count: 3, entry_occurrence: None }];
    assert_eq!(validate_array_occurrence(None, Some(&counts), &three), Ok((false, false)));
    assert!(validate_array_occurrence(None, Some(&counts), &three[..2]).is_err());
    assert!(validate_array_occurrence(None, None, &[]).is_err());
}

fn texts(r: &[CATOperationResult]) -> Vec<String> {
    r.iter()
        .map(|x| match x {
            CATOperationResult::String(s) => s.clone(),
            CATOperationResult::Bytes(ByteValue::B16(b)) => format!("h'{}'", String::from_utf8_lossy(b)),
            CATOperationResult::Bytes(ByteValue::B64(b)) => format!("b64'{}'", String::from_utf8_lossy(b)),
            CATOperationResult::Bytes(ByteValue::UTF8(b)) => format!("'{}'", String::from_utf8_lossy(b)),
        })
        .collect()
}

#[test]
fn concatenation() {
    let c = CDDL {
        rules: vec![
            lrule("suffixes", false, lty(vec![ltext("1"), ltext("22")])),
            lrule("prefix", false, lty(vec![ltext("a"), ltext("b")])),
        ],
    };
    let r = cat_operation(&c, &ltext("testing"), &ltext("123")).unwrap();
    assert_eq!(texts(&r), vec!["testing123"]);
    let r = cat_operation(&c, &ltext("x"), &lname("suffixes")).unwrap();
    assert_eq!(texts(&r), vec!["x1", "x22"]);
    let r = cat_operation(&c, &lname("prefix"), &ltext("!")).unwrap();
    assert_eq!(texts(&r), vec!["a!"]);
    let r = cat_operation(&c, &ltext("t"), &Type2::ParenthesizedType(lty(vec![ltext("u"), ltext("v")]))).unwrap();
    assert_eq!(texts(&r), vec!["tu", "tv"]);
    let r = cat_operation(&c, &ltext("t"), &Type2::B16ByteString(b"3132".to_vec())).unwrap();
    assert_eq!(texts(&r), vec!["t12"]);
    let r = cat_operation(&c, &Type2::B16ByteString(b"74".to_vec()), &ltext("1")).unwrap();
    assert_eq!(texts(&r), vec!["h'7431'"]);
    let r = cat_operation(&c, &Type2::B64ByteString(b"dA==".to_vec()), &ltext("1")).unwrap();
    assert_eq!(texts(&r), vec!["b64'dDE='"]);
    assert!(cat_operation(&c, &Type2::UintValue(1), &ltext("1")).is_err());
    assert!(cat_operation(&c, &ltext("t"), &Type2::UintValue(1)).is_err());
    assert!(cat_operation(&c, &Type2::B16ByteString(b"7".to_vec()), &Type2::B16ByteString(b"zz".to_vec())).is_err());
}

#[test]
fn cat_control_in_validation() {
    let c = CDDL {
        rules: vec![lrule(
            "greeting",
            false,
            Type(vec![Type1 {
                type2: ltext("hello "),
                operator: Some((RangeCtlOp::CtlOp("cat".to_string()), Type2::ParenthesizedType(lty(vec![ltext("world"), ltext("there")])))),
            }]),
        )],
    };
    assert!(validate_json(&c, &Value::Text("hello world".to_string())).is_ok());
    assert!(validate_json(&c, &Value::Text("hello there".to_string())).is_ok());
    assert!(validate_json(&c, &Value::Text("hello you".to_string())).is_err());
    assert!(c.validate(Target::Json, &Value::Text("hello there".to_string())).is_ok());
}

#[test]
fn member_key_values_in_maps() {
    let c = CDDL {
        rules: vec![lrule(
            "m",
            false,
            lty(vec![Type2::MapDef(Group(vec![GroupChoice(vec![GroupEntry::MemberKey(Box::new(MemberKeyEntry {
                occur: None,
                member_key: Some(MemberKey::Value(ltext("k"))),
                entry_type: lty(vec![lname("uint")]),
            }))])]))]),
        )],
    };
    let ok = Value::Object(vec![(Value::Text("k".to_string()), Value::Integer(1))]);
    assert!(validate_json(&c, &ok).is_ok());
    let bad = Value::Object(vec![(Value::Text("k".to_string()), Value::Integer(-1))]);
    assert!(validate_json(&c, &bad).is_err());
}
