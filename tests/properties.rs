use cddl::ast::{
    Group, GroupChoice, GroupEntry, GroupRule, GroupnameEntry, Identifier, MemberKey, MemberKeyEntry,
    Occur, RangeCtlOp, Rule, Type, Type1, Type2, TypeRule, CDDL,
};
use cddl::error::Error;
use cddl::pattern::format_regex;
use cddl::validator::{validate_cbor, validate_json};
use cddl::value::{Fraction, Value};

fn pid(s: &str) -> Identifier {
    Identifier { ident: s.to_string() }
}

fn pname(s: &str) -> Type2 {
    Type2::Typename(pid(s), None)
}

fn pt1(t2: Type2) -> Type1 {
    Type1 { type2: t2, operator: None }
}

fn pty(choices: Vec<Type2>) -> Type {
    Type(choices.into_iter().map(pt1).collect())
}

fn pop(t2: Type2, op: RangeCtlOp, rhs: Type2) -> Type {
    Type(vec![Type1 { type2: t2, operator: Some((op, rhs)) }])
}

fn ctl(s: &str) -> RangeCtlOp {
    RangeCtlOp::CtlOp(s.to_string())
}

fn prule(n: &str, value: Type) -> Rule {
    Rule::Type(TypeRule { name: pid(n), generic_param: None, is_type_choice_alternate: false, value })
}

fn palt(n: &str, value: Type) -> Rule {
    Rule::Type(TypeRule { name: pid(n), generic_param: None, is_type_choice_alternate: true, value })
}

fn pmember(occur: Option<Occur>, key: &str, entry_type: Type) -> GroupEntry {
    GroupEntry::MemberKey(Box::new(MemberKeyEntry {
        occur,
        member_key: Some(MemberKey::Bareword(pid(key))),
        entry_type,
    }))
}

fn pgroup(entries: Vec<GroupEntry>) -> Group {
    Group(vec![GroupChoice(entries)])
}

fn ptext(s: &str) -> Value {
    Value::Text(s.to_string())
}

fn pdoc(rules: Vec<Rule>) -> CDDL {
    CDDL { rules }
}

fn found(e: &Error, want: &dyn Fn(&Error) -> bool) -> bool {
    if want(e) {
        return true;
    }
    match e {
        Error::MultiError(es) => es.iter().any(|x| found(x, want)),
        _ => false,
    }
}

#[test]
fn alternation_accepts_a_value_of_any_choice() {
    let cddl = pdoc(vec![prule("r", pty(vec![pname("tstr"), pname("uint")]))]);
    assert!(validate_json(&cddl, &Value::Integer(5)).is_ok());
    assert!(validate_json(&cddl, &ptext("a")).is_ok());
    match validate_json(&cddl, &Value::Bool(true)) {
        Err(Error::MultiError(outer)) => {
            assert_eq!(outer.len(), 1);
            match &outer[0] {
                Error::MultiError(per_choice) => assert_eq!(per_choice.len(), 2),
                other => panic!("unexpected {:?}", other),
            }
        },
        other => panic!("unexpected {:?}", other),
    }
}

#[test]
fn choice_order_does_not_change_the_verdict() {
    let a = pdoc(vec![prule("r", pty(vec![pname("tstr"), pname("uint")]))]);
    let b = pdoc(vec![prule("r", pty(vec![pname("uint"), pname("tstr")]))]);
    for v in [Value::Integer(1), ptext("x"), Value::Null, Value::Integer(-1)] {
        assert_eq!(validate_json(&a, &v).is_ok(), validate_json(&b, &v).is_ok());
    }
}

#[test]
fn validating_twice_gives_the_same_verdict() {
    let cddl = pdoc(vec![prule("r", pty(vec![pname("nint")]))]);
    for v in [Value::Integer(-3), Value::Integer(3)] {
        assert_eq!(validate_json(&cddl, &v).is_ok(), validate_json(&cddl, &v).is_ok());
    }
}

#[test]
fn enumeration_grows_with_its_members() {
    let small = pdoc(vec![prule(
        "e",
        pty(vec![Type2::ChoiceFromInlineGroup(pgroup(vec![pmember(None, "a", pty(vec![Type2::TextValue("x".to_string())]))]))]),
    )]);
    let large = pdoc(vec![prule(
        "e",
        pty(vec![Type2::ChoiceFromInlineGroup(pgroup(vec![
            pmember(None, "a", pty(vec![Type2::TextValue("x".to_string())])),
            pmember(None, "b", pty(vec![Type2::TextValue("y".to_string())])),
        ]))]),
    )]);
    assert!(validate_json(&small, &ptext("x")).is_ok());
    assert!(validate_json(&small, &ptext("y")).is_err());
    assert!(validate_json(&large, &ptext("x")).is_ok());
    assert!(validate_json(&large, &ptext("y")).is_ok());
}

#[test]
fn integer_range_boundaries() {
    let inclusive = pdoc(vec![prule("r", pop(Type2::UintValue(1), RangeCtlOp::RangeOp(true), Type2::UintValue(3)))]);
    let exclusive = pdoc(vec![prule("r", pop(Type2::UintValue(1), RangeCtlOp::RangeOp(false), Type2::UintValue(3)))]);
    assert!(validate_json(&inclusive, &Value::Integer(1)).is_ok());
    assert!(validate_json(&inclusive, &Value::Integer(3)).is_ok());
    assert!(validate_json(&inclusive, &Value::Integer(4)).is_err());
    assert!(validate_json(&exclusive, &Value::Integer(1)).is_ok());
    assert!(validate_json(&exclusive, &Value::Integer(2)).is_ok());
    assert!(validate_json(&exclusive, &Value::Integer(3)).is_err());
    assert!(validate_json(&inclusive, &Value::Float(Fraction { numer: 2, denom: 1 })).is_err());
}

#[test]
fn fraction_range_boundaries() {
    let lo = Type2::FloatValue(Fraction { numer: 3, denom: 2 });
    let hi = Type2::FloatValue(Fraction { numer: 5, denom: 2 });
    let hi2 = Type2::FloatValue(Fraction { numer: 5, denom: 2 });
    let lo2 = Type2::FloatValue(Fraction { numer: 3, denom: 2 });
    let inclusive = pdoc(vec![prule("r", pop(lo, RangeCtlOp::RangeOp(true), hi))]);
    let exclusive = pdoc(vec![prule("r", pop(lo2, RangeCtlOp::RangeOp(false), hi2))]);
    let at_lo = Value::Float(Fraction { numer: 3, denom: 2 });
    let at_hi = Value::Float(Fraction { numer: 10, denom: 4 });
    assert!(validate_json(&inclusive, &at_lo).is_ok());
    assert!(validate_json(&inclusive, &at_hi).is_ok());
    assert!(validate_json(&inclusive, &Value::Integer(2)).is_ok());
    assert!(validate_json(&exclusive, &at_lo).is_ok());
    assert!(validate_json(&exclusive, &at_hi).is_err());
}

#[test]
fn reversed_range_is_empty() {
    let cddl = pdoc(vec![prule("r", pop(Type2::UintValue(5), RangeCtlOp::RangeOp(true), Type2::UintValue(1)))]);
    for n in 0..7 {
        assert!(validate_json(&cddl, &Value::Integer(n)).is_err());
    }
}

#[test]
fn unwrap_matches_the_interior() {
    let cddl = pdoc(vec![
        prule("x", pty(vec![Type2::Unwrap(pid("base"), None)])),
        prule(
            "base",
            pty(vec![Type2::Array(pgroup(vec![
                pmember(None, "a", pty(vec![pname("tstr")])),
                pmember(None, "b", pty(vec![pname("uint")])),
            ]))]),
        ),
    ]);
    assert!(validate_json(&cddl, &Value::Array(vec![ptext("s"), Value::Integer(1)])).is_ok());
    assert!(validate_json(&cddl, &Value::Array(vec![Value::Integer(1), ptext("s")])).is_err());
    let tagged = pdoc(vec![
        prule("y", pty(vec![Type2::Unwrap(pid("t"), None)])),
        prule("t", pty(vec![Type2::TaggedData(Some(32), pty(vec![pname("tstr")]))])),
    ]);
    assert!(validate_cbor(&tagged, &ptext("http://a")).is_ok());
    let not_container = pdoc(vec![prule("z", pty(vec![Type2::Unwrap(pid("u"), None)])), prule("u", pty(vec![pname("uint")]))]);
    let r = validate_json(&not_container, &Value::Integer(1));
    assert!(matches!(&r, Err(e) if found(e, &|x| matches!(x, Error::UnwrapNotContainer(_)))));
}

fn array_of(occur: Option<Occur>) -> CDDL {
    pdoc(vec![prule(
        "a",
        pty(vec![Type2::Array(Group(vec![GroupChoice(vec![GroupEntry::MemberKey(Box::new(MemberKeyEntry {
            occur,
            member_key: None,
            entry_type: pty(vec![pname("uint")]),
        }))])]))]),
    )])
}

fn ints(n: i128) -> Value {
    Value::Array((0..n).map(Value::Integer).collect())
}

#[test]
fn array_occurrences() {
    assert!(validate_json(&array_of(Some(Occur::ZeroOrMore)), &ints(0)).is_ok());
    assert!(validate_json(&array_of(Some(Occur::ZeroOrMore)), &ints(5)).is_ok());
    assert!(validate_json(&array_of(Some(Occur::OneOrMore)), &ints(0)).is_err());
    assert!(validate_json(&array_of(Some(Occur::OneOrMore)), &ints(2)).is_ok());
    assert!(validate_json(&array_of(Some(Occur::Optional)), &ints(0)).is_ok());
    assert!(validate_json(&array_of(Some(Occur::Optional)), &ints(1)).is_ok());
    assert!(validate_json(&array_of(Some(Occur::Optional)), &ints(2)).is_err());
    let two_three = array_of(Some(Occur::Exact(Some(2), Some(3))));
    assert!(validate_json(&two_three, &ints(1)).is_err());
    assert!(validate_json(&two_three, &ints(2)).is_ok());
    assert!(validate_json(&two_three, &ints(3)).is_ok());
    assert!(validate_json(&two_three, &ints(4)).is_err());
    assert!(validate_json(&array_of(None), &ints(1)).is_ok());
    assert!(validate_json(&array_of(None), &ints(2)).is_err());
    let bad = Value::Array(vec![Value::Integer(1), ptext("x")]);
    assert!(validate_json(&array_of(Some(Occur::ZeroOrMore)), &bad).is_err());
}

#[test]
fn self_reference_hits_the_depth_limit() {
    let cddl = pdoc(vec![prule("a", pty(vec![pname("a")]))]);
    let r = validate_json(&cddl, &Value::Null);
    assert!(matches!(&r, Err(e) if found(e, &|x| matches!(x, Error::RecursionLimit))));
}

#[test]
fn undefined_name_is_reported() {
    let cddl = pdoc(vec![prule("a", pty(vec![pname("nowhere")]))]);
    let r = validate_json(&cddl, &Value::Null);
    assert!(matches!(&r, Err(e) if found(e, &|x| matches!(x, Error::UnknownIdentifier(n) if n == "nowhere"))));
}

#[test]
fn alternates_extend_a_rule() {
    let cddl = pdoc(vec![prule("a", pty(vec![pname("uint")])), palt("a", pty(vec![pname("tstr")]))]);
    assert!(validate_json(&cddl, &Value::Integer(1)).is_ok());
    assert!(validate_json(&cddl, &ptext("s")).is_ok());
    assert!(validate_json(&cddl, &Value::Null).is_err());
}

#[test]
fn tags_are_checked_in_cbor() {
    let cddl = pdoc(vec![prule("t", pty(vec![Type2::TaggedData(Some(1), pty(vec![pname("uint")]))]))]);
    assert!(validate_cbor(&cddl, &Value::Tag(1, Box::new(Value::Integer(5)))).is_ok());
    let r = validate_cbor(&cddl, &Value::Tag(2, Box::new(Value::Integer(5))));
    assert!(matches!(&r, Err(e) if found(e, &|x| matches!(x, Error::TagMismatch(2)))));
    assert!(validate_cbor(&cddl, &Value::Integer(5)).is_err());
    assert!(validate_json(&cddl, &Value::Integer(5)).is_ok());
}

#[test]
fn size_control() {
    let text3 = pdoc(vec![prule("s", pop(pname("tstr"), ctl("size"), Type2::UintValue(3)))]);
    assert!(validate_json(&text3, &ptext("abc")).is_ok());
    assert!(validate_json(&text3, &ptext("ab")).is_err());
    let byte1 = pdoc(vec![prule("s", pop(pname("uint"), ctl("size"), Type2::UintValue(1)))]);
    assert!(validate_cbor(&byte1, &Value::Integer(255)).is_ok());
    assert!(validate_cbor(&byte1, &Value::Integer(256)).is_err());
    let ranged = pdoc(vec![prule(
        "s",
        pop(pname("bstr"), ctl("size"), Type2::ParenthesizedType(pop(Type2::UintValue(1), RangeCtlOp::RangeOp(true), Type2::UintValue(2)))),
    )]);
    assert!(validate_cbor(&ranged, &Value::Bytes(vec![1, 2])).is_ok());
    assert!(validate_cbor(&ranged, &Value::Bytes(vec![1, 2, 3])).is_err());
}

#[test]
fn comparison_controls() {
    let lt = pdoc(vec![prule("n", pop(pname("uint"), ctl("lt"), Type2::UintValue(10)))]);
    assert!(validate_json(&lt, &Value::Integer(9)).is_ok());
    assert!(validate_json(&lt, &Value::Integer(10)).is_err());
    let ge = pdoc(vec![prule("n", pop(pname("number"), ctl("ge"), Type2::FloatValue(Fraction { numer: 1, denom: 2 })))]);
    assert!(validate_json(&ge, &Value::Float(Fraction { numer: 1, denom: 2 })).is_ok());
    assert!(validate_json(&ge, &Value::Integer(0)).is_err());
    let eq = pdoc(vec![prule("t", pop(pname("tstr"), ctl("eq"), Type2::TextValue("on".to_string())))]);
    assert!(validate_json(&eq, &ptext("on")).is_ok());
    assert!(validate_json(&eq, &ptext("off")).is_err());
    let ne = pdoc(vec![prule("t", pop(pname("tstr"), ctl("ne"), Type2::TextValue("on".to_string())))]);
    assert!(validate_json(&ne, &ptext("on")).is_err());
    assert!(validate_json(&ne, &ptext("off")).is_ok());
    let both = pdoc(vec![prule("b", pop(pname("uint"), ctl("and"), pname("nint")))]);
    assert!(validate_json(&both, &Value::Integer(1)).is_err());
}

#[test]
fn pattern_controls() {
    let re = pdoc(vec![prule("p", pop(pname("tstr"), ctl("regexp"), Type2::TextValue("^[a-z]+$".to_string())))]);
    assert!(validate_json(&re, &ptext("abc")).is_ok());
    assert!(validate_json(&re, &ptext("aB1")).is_err());
    let look = pdoc(vec![prule("p", pop(pname("tstr"), ctl("pcre"), Type2::TextValue("a(?=b)".to_string())))]);
    let r = validate_json(&look, &ptext("ab"));
    assert!(matches!(&r, Err(e) if found(e, &|x| matches!(x, Error::PatternUnsupported(_)))));
}

#[test]
fn regex_normalization() {
    assert_eq!(format_regex("\\w\\-x\\d"), Some("w\\-x\\d".to_string()));
    assert_eq!(format_regex("(?<year>[0-9]+)"), Some("(?P<year>[0-9]+)".to_string()));
    assert_eq!(format_regex("a(?!b)"), None);
    assert_eq!(format_regex("(?<=a)b"), None);
    assert_eq!(format_regex(""), Some(String::new()));
}

#[test]
fn date_and_byte_literals() {
    let date = pdoc(vec![prule("d", pty(vec![pname("tdate")]))]);
    assert!(validate_json(&date, &ptext("2020-01-01T00:00:00Z")).is_ok());
    assert!(validate_json(&date, &ptext("yesterday")).is_err());
    let hex = pdoc(vec![prule("h", pty(vec![Type2::B16ByteString(b"48656c6c6f".to_vec())]))]);
    assert!(validate_cbor(&hex, &Value::Bytes(b"Hello".to_vec())).is_ok());
    assert!(validate_cbor(&hex, &Value::Bytes(b"48656c6c6f".to_vec())).is_err());
    let b64 = pdoc(vec![prule("b", pty(vec![Type2::B64ByteString(b"SGVsbG8=".to_vec())]))]);
    assert!(validate_cbor(&b64, &Value::Bytes(b"Hello".to_vec())).is_ok());
    assert!(validate_cbor(&b64, &Value::Bytes(b"SGVsbG8=".to_vec())).is_err());
}

#[test]
fn prelude_types() {
    let one = |n: &str, v: Value| validate_json(&pdoc(vec![prule("r", pty(vec![pname(n)]))]), &v).is_ok();
    assert!(one("false", Value::Bool(false)));
    assert!(!one("false", Value::Bool(true)));
    assert!(one("nint", Value::Integer(-1)));
    assert!(!one("nint", Value::Integer(0)));
    assert!(one("uint", Value::Integer(0)));
    assert!(one("float", Value::Integer(2)));
    assert!(one("any", Value::Null));
    assert!(!one("bstr", ptext("x")));
    let cbor_float = validate_cbor(&pdoc(vec![prule("r", pty(vec![pname("float")]))]), &Value::Integer(2));
    assert!(cbor_float.is_err());
}

#[test]
fn group_name_entries_in_maps() {
    let cddl = pdoc(vec![
        prule(
            "m",
            pty(vec![Type2::MapDef(pgroup(vec![
                GroupEntry::Groupname(GroupnameEntry { occur: None, name: pid("common"), generic_arg: None }),
                pmember(None, "x", pty(vec![pname("int")])),
            ]))]),
        ),
        Rule::Group(Box::new(GroupRule {
            name: pid("common"),
            generic_para: None,
            is_group_choice_alternate: false,
            entry: GroupEntry::InlineGroup(None, pgroup(vec![pmember(None, "id", pty(vec![pname("tstr")]))])),
        })),
    ]);
    let ok = Value::Object(vec![(ptext("id"), ptext("a")), (ptext("x"), Value::Integer(1))]);
    assert!(validate_json(&cddl, &ok).is_ok());
    let missing = Value::Object(vec![(ptext("x"), Value::Integer(1))]);
    assert!(validate_json(&cddl, &missing).is_err());
}

#[test]
fn group_names_take_their_own_positions_in_arrays() {
    let cddl = pdoc(vec![
        prule(
            "msg",
            pty(vec![Type2::Array(pgroup(vec![
                GroupEntry::Groupname(GroupnameEntry { occur: None, name: pid("header"), generic_arg: None }),
                pmember(None, "body", pty(vec![pname("tstr")])),
            ]))]),
        ),
        Rule::Group(Box::new(GroupRule {
            name: pid("header"),
            generic_para: None,
            is_group_choice_alternate: false,
            entry: GroupEntry::InlineGroup(
                None,
                pgroup(vec![pmember(None, "a", pty(vec![pname("int")])), pmember(None, "b", pty(vec![pname("int")]))]),
            ),
        })),
    ]);
    let ok = Value::Array(vec![Value::Integer(1), Value::Integer(2), ptext("x")]);
    assert!(validate_json(&cddl, &ok).is_ok());
    let short = Value::Array(vec![Value::Integer(1), ptext("x")]);
    assert!(validate_json(&cddl, &short).is_err());
}

fn generic_rule(n: &str, params: Vec<&str>, value: Type) -> Rule {
    Rule::Type(TypeRule {
        name: pid(n),
        generic_param: Some(cddl::ast::GenericParm(params.into_iter().map(pid).collect())),
        is_type_choice_alternate: false,
        value,
    })
}

fn applied(n: &str, args: Vec<Type2>) -> Type2 {
    Type2::Typename(pid(n), Some(cddl::ast::GenericArg(args.into_iter().map(pt1).collect())))
}

fn pair_rule() -> Rule {
    generic_rule(
        "pair",
        vec!["K", "V"],
        pty(vec![Type2::Array(Group(vec![GroupChoice(vec![
            GroupEntry::MemberKey(Box::new(MemberKeyEntry { occur: None, member_key: None, entry_type: pty(vec![pname("K")]) })),
            GroupEntry::MemberKey(Box::new(MemberKeyEntry { occur: None, member_key: None, entry_type: pty(vec![pname("V")]) })),
        ])]))]),
    )
}

#[test]
fn generic_arguments_bind_parameters() {
    let cddl = pdoc(vec![prule("message", pty(vec![applied("pair", vec![pname("tstr"), pname("uint")])])), pair_rule()]);
    assert!(validate_json(&cddl, &Value::Array(vec![ptext("a"), Value::Integer(1)])).is_ok());
    assert!(validate_json(&cddl, &Value::Array(vec![Value::Integer(1), ptext("a")])).is_err());
}

#[test]
fn generic_arguments_pass_through_parameters() {
    let cddl = pdoc(vec![
        prule("x", pty(vec![applied("same", vec![pname("uint")])])),
        generic_rule("same", vec!["T"], pty(vec![applied("pair", vec![pname("T"), pname("T")])])),
        pair_rule(),
    ]);
    assert!(validate_json(&cddl, &Value::Array(vec![Value::Integer(1), Value::Integer(2)])).is_ok());
    assert!(validate_json(&cddl, &Value::Array(vec![Value::Integer(1), ptext("a")])).is_err());
}

#[test]
fn generic_arity_must_match() {
    let cddl = pdoc(vec![prule("m", pty(vec![applied("pair", vec![pname("tstr")])])), pair_rule()]);
    let r = validate_json(&cddl, &Value::Array(vec![ptext("a"), Value::Integer(1)]));
    assert!(matches!(&r, Err(e) if found(e, &|x| matches!(x, Error::Syntax(_)))));
}

#[test]
fn bits_control() {
    let allowed = Type2::ParenthesizedType(pty(vec![Type2::UintValue(0), Type2::UintValue(2)]));
    let flags = pdoc(vec![prule("f", pop(pname("uint"), ctl("bits"), allowed))]);
    assert!(validate_cbor(&flags, &Value::Integer(5)).is_ok());
    assert!(validate_cbor(&flags, &Value::Integer(0)).is_ok());
    assert!(validate_cbor(&flags, &Value::Integer(3)).is_err());
    let allowed2 = Type2::ParenthesizedType(pty(vec![Type2::UintValue(0), Type2::UintValue(2)]));
    let byte_flags = pdoc(vec![prule("f", pop(pname("bstr"), ctl("bits"), allowed2))]);
    assert!(validate_cbor(&byte_flags, &Value::Bytes(vec![5])).is_ok());
    assert!(validate_cbor(&byte_flags, &Value::Bytes(vec![5, 1])).is_err());
    assert!(validate_cbor(&byte_flags, &Value::Bytes(vec![4, 0])).is_ok());
}

#[test]
fn default_lets_a_key_be_absent() {
    let cddl = pdoc(vec![prule(
        "m",
        pty(vec![Type2::MapDef(pgroup(vec![pmember(
            None,
            "port",
            pop(pname("uint"), ctl("default"), Type2::UintValue(80)),
        )]))]),
    )]);
    assert!(validate_json(&cddl, &Value::Object(vec![])).is_ok());
    assert!(validate_json(&cddl, &Value::Object(vec![(ptext("port"), Value::Integer(8080))])).is_ok());
    assert!(validate_json(&cddl, &Value::Object(vec![(ptext("port"), ptext("x"))])).is_err());
}

#[test]
fn integer_keys_in_cbor_maps() {
    let cddl = pdoc(vec![prule(
        "header",
        pty(vec![Type2::MapDef(pgroup(vec![
            GroupEntry::MemberKey(Box::new(MemberKeyEntry {
                occur: None,
                member_key: Some(MemberKey::Type1(Box::new((pt1(Type2::UintValue(1)), false)))),
                entry_type: pty(vec![pname("int")]),
            })),
            GroupEntry::MemberKey(Box::new(MemberKeyEntry {
                occur: Some(Occur::Optional),
                member_key: Some(MemberKey::Value(Type2::UintValue(4))),
                entry_type: pty(vec![pname("bstr")]),
            })),
        ]))]),
    )]);
    let ok = Value::Object(vec![(Value::Integer(1), Value::Integer(-7))]);
    assert!(validate_cbor(&cddl, &ok).is_ok());
    let with_kid = Value::Object(vec![(Value::Integer(1), Value::Integer(-7)), (Value::Integer(4), Value::Bytes(vec![1]))]);
    assert!(validate_cbor(&cddl, &with_kid).is_ok());
    let missing = Value::Object(vec![(Value::Integer(4), Value::Bytes(vec![1]))]);
    let r = validate_cbor(&cddl, &missing);
    assert!(matches!(&r, Err(e) if found(e, &|x| matches!(x, Error::MissingKey(_)))));
    let extra = Value::Object(vec![(Value::Integer(1), Value::Integer(-7)), (Value::Integer(9), Value::Null)]);
    let r = validate_cbor(&cddl, &extra);
    assert!(matches!(&r, Err(e) if found(e, &|x| matches!(x, Error::UnexpectedKey(_)))));
    let text_one = Value::Object(vec![(ptext("1"), Value::Integer(-7))]);
    assert!(validate_cbor(&cddl, &text_one).is_err());
}

#[test]
fn array_entries_take_positions_by_occurrence() {
    let cddl = pdoc(vec![prule(
        "a",
        pty(vec![Type2::Array(pgroup(vec![
            GroupEntry::MemberKey(Box::new(MemberKeyEntry { occur: None, member_key: None, entry_type: pty(vec![pname("tstr")]) })),
            GroupEntry::MemberKey(Box::new(MemberKeyEntry {
                occur: Some(Occur::ZeroOrMore),
                member_key: None,
                entry_type: pty(vec![pname("int")]),
            })),
        ]))]),
    )]);
    assert!(validate_json(&cddl, &Value::Array(vec![ptext("a"), Value::Integer(1), Value::Integer(2)])).is_ok());
    assert!(validate_json(&cddl, &Value::Array(vec![ptext("a")])).is_ok());
    assert!(validate_json(&cddl, &Value::Array(vec![ptext("a"), ptext("b")])).is_err());
    let r = validate_json(&cddl, &Value::Array(vec![]));
    assert!(matches!(&r, Err(e) if found(e, &|x| matches!(x, Error::Occurrence(_)))));
    let optional_first = pdoc(vec![prule(
        "b",
        pty(vec![Type2::Array(pgroup(vec![
            GroupEntry::MemberKey(Box::new(MemberKeyEntry {
                occur: Some(Occur::Optional),
                member_key: None,
                entry_type: pty(vec![pname("int")]),
            })),
            GroupEntry::MemberKey(Box::new(MemberKeyEntry { occur: None, member_key: None, entry_type: pty(vec![pname("tstr")]) })),
        ]))]),
    )]);
    assert!(validate_json(&optional_first, &Value::Array(vec![ptext("x")])).is_ok());
    assert!(validate_json(&optional_first, &Value::Array(vec![Value::Integer(1), ptext("x")])).is_ok());
    let r = validate_json(&optional_first, &Value::Array(vec![Value::Integer(1), Value::Integer(2), ptext("x")]));
    assert!(matches!(&r, Err(e) if found(e, &|x| matches!(x, Error::Occurrence(_)))));
}

#[test]
fn byte_string_equality_controls() {
    let eq = pdoc(vec![prule("b", pop(pname("bstr"), ctl("eq"), Type2::B16ByteString(b"0102".to_vec())))]);
    assert!(validate_cbor(&eq, &Value::Bytes(vec![1, 2])).is_ok());
    assert!(validate_cbor(&eq, &Value::Bytes(vec![1])).is_err());
    let ne = pdoc(vec![prule("b", pop(pname("bstr"), ctl("ne"), Type2::UTF8ByteString(b"ab".to_vec())))]);
    assert!(validate_cbor(&ne, &Value::Bytes(b"ab".to_vec())).is_err());
    assert!(validate_cbor(&ne, &Value::Bytes(b"ac".to_vec())).is_ok());
}

#[test]
fn floats_without_an_exact_fraction_are_numbers() {
    let one = |t: Type2| validate_json(&pdoc(vec![prule("r", pty(vec![t]))]), &Value::OtherFloat).is_ok();
    assert!(one(pname("any")));
    assert!(one(pname("number")));
    assert!(one(pname("float")));
    assert!(!one(pname("int")));
    assert!(!one(Type2::UintValue(0)));
    let zero_denominator = Value::Float(Fraction { numer: 0, denom: 0 });
    let lit = pdoc(vec![prule("r", pty(vec![Type2::UintValue(5)]))]);
    assert!(validate_json(&lit, &zero_denominator).is_err());
}

fn keyed_by_int(occur: Option<Occur>) -> CDDL {
    pdoc(vec![prule(
        "m",
        pty(vec![Type2::MapDef(pgroup(vec![GroupEntry::MemberKey(Box::new(MemberKeyEntry {
            occur,
            member_key: Some(MemberKey::Type1(Box::new((pt1(pname("int")), false)))),
            entry_type: pty(vec![pname("tstr")]),
        }))]))]),
    )])
}

#[test]
fn map_entries_keyed_by_a_type() {
    let any_ints = keyed_by_int(Some(Occur::ZeroOrMore));
    let ok = Value::Object(vec![(Value::Integer(1), ptext("a")), (Value::Integer(2), ptext("b"))]);
    assert!(validate_cbor(&any_ints, &ok).is_ok());
    assert!(validate_cbor(&any_ints, &Value::Object(vec![])).is_ok());
    assert!(validate_cbor(&any_ints, &Value::Object(vec![(Value::Integer(1), Value::Integer(2))])).is_err());
    let r = validate_cbor(&any_ints, &Value::Object(vec![(ptext("x"), ptext("a"))]));
    assert!(matches!(&r, Err(e) if found(e, &|x| matches!(x, Error::UnexpectedKey(_)))));
    let some_ints = keyed_by_int(Some(Occur::OneOrMore));
    let r = validate_cbor(&some_ints, &Value::Object(vec![]));
    assert!(matches!(&r, Err(e) if found(e, &|x| matches!(x, Error::MissingKey(_)))));
    assert!(validate_cbor(&some_ints, &ok).is_ok());
}

fn repeated_pairs(occur: Occur) -> CDDL {
    pdoc(vec![prule(
        "a",
        pty(vec![Type2::Array(pgroup(vec![GroupEntry::InlineGroup(
            Some(occur),
            pgroup(vec![pmember(None, "n", pty(vec![pname("int")])), pmember(None, "s", pty(vec![pname("tstr")]))]),
        )]))]),
    )])
}

#[test]
fn repeated_groups_take_slices_of_items() {
    let any = repeated_pairs(Occur::ZeroOrMore);
    let two = Value::Array(vec![Value::Integer(1), ptext("a"), Value::Integer(2), ptext("b")]);
    assert!(validate_json(&any, &two).is_ok());
    assert!(validate_json(&any, &Value::Array(vec![])).is_ok());
    assert!(validate_json(&any, &Value::Array(vec![Value::Integer(1), ptext("a"), Value::Integer(2)])).is_err());
    assert!(validate_json(&any, &Value::Array(vec![ptext("a"), Value::Integer(1)])).is_err());
    let some = repeated_pairs(Occur::OneOrMore);
    assert!(validate_json(&some, &Value::Array(vec![])).is_err());
    assert!(validate_json(&some, &two).is_ok());
    let at_most_one = repeated_pairs(Occur::Optional);
    assert!(validate_json(&at_most_one, &two).is_err());
    assert!(validate_json(&at_most_one, &Value::Array(vec![Value::Integer(1), ptext("a")])).is_ok());
}
