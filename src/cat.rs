//! The `.cat` control operator: concatenations of text and byte string
//! literals.
use crate::ast::{Type1, Type2, CDDL};
use crate::foreign::{
    b64url_decoded, b64url_encoded, decode_b64url, decode_hex, encode_b64url, encode_hex, hex_decoded,
    hex_lower, text_bytes, utf8_decoded, utf8_of, utf8_text,
};
use crate::rules::{literal_seq, literals_of, CLASS_DEPTH};
use vstd::prelude::*;
use vstd::string::StringExecFns;

verus! {

/// A byte string result, in the form it was written in.
#[derive(Debug)]
pub enum ByteValue {
    UTF8(Vec<u8>),
    /// Hex digits.
    B16(Vec<u8>),
    /// base64url text.
    B64(Vec<u8>),
}

/// One literal that a concatenation yields.
#[derive(Debug)]
pub enum CATOperationResult {
    String(String),
    Bytes(ByteValue),
}

/// A concatenation part as `(kind, text, bytes)`: kind 0 is text, kind 1 hex
/// digits, kind 2 base64url text (or, for a target, the decoded bytes).
pub open spec fn cat_view(r: CATOperationResult) -> (u8, Seq<char>, Seq<u8>) {
    match r {
        CATOperationResult::String(s) => (0, s@, Seq::empty()),
        CATOperationResult::Bytes(ByteValue::B16(b)) => (1, Seq::empty(), b@),
        CATOperationResult::Bytes(ByteValue::B64(b)) => (2, Seq::empty(), b@),
        CATOperationResult::Bytes(ByteValue::UTF8(b)) => (3, Seq::empty(), b@),
    }
}

/// The text a literal stands for.
pub open spec fn lit_text(t: Type2) -> Option<Seq<char>> {
    match t {
        Type2::TextValue(s) => Some(s@),
        Type2::UTF8ByteString(b) => utf8_decoded(b@),
        Type2::B16ByteString(b) => match hex_decoded(b@) {
            Some(d) => utf8_decoded(d),
            None => None,
        },
        Type2::B64ByteString(b) => if b@.len() <= usize::MAX - 3 {
            match b64url_decoded(b@) {
                Some(d) => utf8_decoded(d),
                None => None,
            }
        } else {
            None
        },
        _ => None,
    }
}

/// The bytes a literal stands for.
pub open spec fn lit_bytes(t: Type2) -> Option<Seq<u8>> {
    match t {
        Type2::TextValue(s) => Some(utf8_of(s@)),
        Type2::UTF8ByteString(b) => Some(b@),
        Type2::B16ByteString(b) => hex_decoded(b@),
        Type2::B64ByteString(b) => if b@.len() <= usize::MAX - 3 {
            b64url_decoded(b@)
        } else {
            None
        },
        _ => None,
    }
}

/// How a target literal enters a concatenation: text (text and UTF-8
/// literals), hex digits as written, or the bytes of a base64url literal.
pub open spec fn target_value(t: Type2) -> Option<(u8, Seq<char>, Seq<u8>)> {
    match t {
        Type2::TextValue(_) => match lit_text(t) {
            Some(x) => Some((0u8, x, Seq::empty())),
            None => None,
        },
        Type2::UTF8ByteString(_) => match lit_text(t) {
            Some(x) => Some((0u8, x, Seq::empty())),
            None => None,
        },
        Type2::B16ByteString(b) => Some((1u8, Seq::empty(), b@)),
        Type2::B64ByteString(b) => if b@.len() <= usize::MAX - 3 {
            match b64url_decoded(b@) {
                Some(d) => Some((2u8, Seq::empty(), d)),
                None => None,
            }
        } else {
            None
        },
        _ => None,
    }
}

/// A target joined with one controller literal: text with text; hex digits
/// with hex digits (other controllers written as hex first), when the whole
/// is valid hex; base64url bytes with bytes, written as base64url.
pub open spec fn cat_leaf(tv: (u8, Seq<char>, Seq<u8>), k: Type2) -> Option<(u8, Seq<char>, Seq<u8>)> {
    if tv.0 == 0 {
        match lit_text(k) {
            Some(x) => Some((0u8, tv.1 + x, Seq::empty())),
            None => None,
        }
    } else if tv.0 == 1 {
        let piece = match k {
            Type2::B16ByteString(h) => Some(h@),
            _ => match lit_bytes(k) {
                Some(x) => if x.len() <= usize::MAX / 2 {
                    Some(hex_lower(x))
                } else {
                    None
                },
                None => None,
            },
        };
        match piece {
            Some(p) => if hex_decoded(tv.2 + p) is Some {
                Some((1u8, Seq::empty(), tv.2 + p))
            } else {
                None
            },
            None => None,
        }
    } else {
        match lit_bytes(k) {
            Some(x) => if (tv.2 + x).len() <= usize::MAX / 2 {
                Some((2u8, Seq::empty(), b64url_encoded(tv.2 + x)))
            } else {
                None
            },
            None => None,
        }
    }
}

/// A target joined with each of several controller literals in turn.
pub open spec fn cat_lits(tv: (u8, Seq<char>, Seq<u8>), ks: Seq<Type2>) -> Option<Seq<(u8, Seq<char>, Seq<u8>)>>
    decreases ks.len(),
{
    if ks.len() == 0 {
        Some(Seq::empty())
    } else {
        match cat_lits(tv, ks.drop_last()) {
            Some(a) => match cat_leaf(tv, ks.last()) {
                Some(o) => Some(a.push(o)),
                None => None,
            },
            None => None,
        }
    }
}

/// A target joined with a controller: a literal, a name (each of its string
/// literals), or a parenthesized type (each of its choices without an
/// operator).
pub open spec fn cat_ctrl(c: CDDL, tv: (u8, Seq<char>, Seq<u8>), ctrl: Type2, fuel: nat) -> Option<
    Seq<(u8, Seq<char>, Seq<u8>)>,
>
    decreases fuel, 0nat, 0nat,
{
    if fuel == 0 {
        None
    } else {
        match ctrl {
            Type2::Typename(id, _) => cat_lits(tv, literal_seq(c, id.ident@, (fuel - 1) as nat)),
            Type2::ParenthesizedType(t) => cat_choices(c, tv, t.0@, (fuel - 1) as nat),
            _ => match cat_leaf(tv, ctrl) {
                Some(o) => Some(seq![o]),
                None => None,
            },
        }
    }
}

pub open spec fn cat_choices(c: CDDL, tv: (u8, Seq<char>, Seq<u8>), ts: Seq<Type1>, fuel: nat) -> Option<
    Seq<(u8, Seq<char>, Seq<u8>)>,
>
    decreases fuel, 1nat, ts.len(),
{
    if ts.len() == 0 {
        Some(Seq::empty())
    } else {
        match cat_choices(c, tv, ts.drop_last(), fuel) {
            Some(a) => if ts.last().operator is None {
                match cat_ctrl(c, tv, ts.last().type2, fuel) {
                    Some(b) => Some(a + b),
                    None => None,
                }
            } else {
                Some(a)
            },
            None => None,
        }
    }
}

/// What `target .cat controller` yields: for a name as target, its first
/// string literal is the target.
pub open spec fn cat_spec(c: CDDL, target: Type2, ctrl: Type2, fuel: nat) -> Option<Seq<(u8, Seq<char>, Seq<u8>)>> {
    if fuel == 0 {
        None
    } else {
        let t = match target {
            Type2::Typename(id, _) => {
                let ls = literal_seq(c, id.ident@, (fuel - 1) as nat);
                if ls.len() > 0 {
                    Some(ls[0])
                } else {
                    None
                }
            },
            _ => Some(target),
        };
        match t {
            Some(lit) => match target_value(lit) {
                Some(tv) => cat_ctrl(c, tv, ctrl, (fuel - 1) as nat),
                None => None,
            },
            None => None,
        }
    }
}

enum CatTarget {
    Text(String),
    Hex(Vec<u8>),
    Raw(Vec<u8>),
}

spec fn target_view(t: CatTarget) -> (u8, Seq<char>, Seq<u8>) {
    match t {
        CatTarget::Text(s) => (0u8, s@, Seq::empty()),
        CatTarget::Hex(b) => (1u8, Seq::empty(), b@),
        CatTarget::Raw(b) => (2u8, Seq::empty(), b@),
    }
}

fn concat_bytes(a: &[u8], b: &[u8]) -> (r: Vec<u8>)
    ensures
        r@ == a@ + b@,
{
    let mut out: Vec<u8> = Vec::new();
    let mut i: usize = 0;
    while i < a.len()
        invariant
            i <= a@.len(),
            out@ == a@.subrange(0, i as int),
        decreases a@.len() - i,
    {
        out.push(a[i]);
        assert(a@.subrange(0, i as int + 1) =~= a@.subrange(0, i as int).push(a@[i as int]));
        i += 1;
    }
    let mut j: usize = 0;
    while j < b.len()
        invariant
            j <= b@.len(),
            out@ == a@ + b@.subrange(0, j as int),
        decreases b@.len() - j,
    {
        out.push(b[j]);
        assert(a@ + b@.subrange(0, j as int + 1) =~= (a@ + b@.subrange(0, j as int)).push(b@[j as int]));
        j += 1;
    }
    assert(a@.subrange(0, a@.len() as int) =~= a@);
    assert(b@.subrange(0, b@.len() as int) =~= b@);
    out
}

fn copy_bytes(a: &[u8]) -> (r: Vec<u8>)
    ensures
        r@ == a@,
{
    let r = concat_bytes(a, &[]);
    assert(a@ + Seq::<u8>::empty() =~= a@);
    r
}

fn lit_text_at(k: &Type2) -> (r: Option<String>)
    ensures
        r is None <==> lit_text(*k) is None,
        r matches Some(x) ==> lit_text(*k) == Some(x@),
{
    match k {
        Type2::TextValue(s) => Some(s.clone()),
        Type2::UTF8ByteString(b) => utf8_text(b.as_slice()),
        Type2::B16ByteString(b) => match decode_hex(b.as_slice()) {
            Some(d) => utf8_text(d.as_slice()),
            None => None,
        },
        Type2::B64ByteString(b) => {
            if b.len() > usize::MAX - 3 {
                return None;
            }
            match decode_b64url(b.as_slice()) {
                Some(d) => utf8_text(d.as_slice()),
                None => None,
            }
        },
        _ => None,
    }
}

pub(crate) fn lit_bytes_at(k: &Type2) -> (r: Option<Vec<u8>>)
    ensures
        r is None <==> lit_bytes(*k) is None,
        r matches Some(x) ==> lit_bytes(*k) == Some(x@),
{
    match k {
        Type2::TextValue(s) => Some(text_bytes(s.as_str())),
        Type2::UTF8ByteString(b) => Some(copy_bytes(b.as_slice())),
        Type2::B16ByteString(b) => decode_hex(b.as_slice()),
        Type2::B64ByteString(b) => {
            if b.len() > usize::MAX - 3 {
                return None;
            }
            decode_b64url(b.as_slice())
        },
        _ => None,
    }
}

fn target_value_at(t: &Type2) -> (r: Option<CatTarget>)
    ensures
        match target_value(*t) {
            Some(v) => r matches Some(x) && target_view(x) == v,
            None => r is None,
        },
{
    match t {
        Type2::TextValue(_) => match lit_text_at(t) {
            Some(x) => Some(CatTarget::Text(x)),
            None => None,
        },
        Type2::UTF8ByteString(_) => match lit_text_at(t) {
            Some(x) => Some(CatTarget::Text(x)),
            None => None,
        },
        Type2::B16ByteString(b) => Some(CatTarget::Hex(copy_bytes(b.as_slice()))),
        Type2::B64ByteString(b) => {
            if b.len() > usize::MAX - 3 {
                return None;
            }
            match decode_b64url(b.as_slice()) {
                Some(d) => Some(CatTarget::Raw(d)),
                None => None,
            }
        },
        _ => None,
    }
}

fn cat_leaf_at(tv: &CatTarget, k: &Type2) -> (r: Option<CATOperationResult>)
    ensures
        match cat_leaf(target_view(*tv), *k) {
            Some(o) => r matches Some(x) && cat_view(x) == o,
            None => r is None,
        },
{
    match tv {
        CatTarget::Text(tt) => match lit_text_at(k) {
            Some(x) => {
                let mut s = tt.clone();
                s.append(x.as_str());
                Some(CATOperationResult::String(s))
            },
            None => None,
        },
        CatTarget::Hex(h) => {
            let piece: Option<Vec<u8>> = match k {
                Type2::B16ByteString(p) => Some(copy_bytes(p.as_slice())),
                _ => match lit_bytes_at(k) {
                    Some(x) => if x.len() <= usize::MAX / 2 {
                        Some(encode_hex(x.as_slice()))
                    } else {
                        None
                    },
                    None => None,
                },
            };
            match piece {
                Some(p) => {
                    let joined = concat_bytes(h.as_slice(), p.as_slice());
                    match decode_hex(joined.as_slice()) {
                        Some(_) => Some(CATOperationResult::Bytes(ByteValue::B16(joined))),
                        None => None,
                    }
                },
                None => None,
            }
        },
        CatTarget::Raw(d) => match lit_bytes_at(k) {
            Some(x) => {
                let joined = concat_bytes(d.as_slice(), x.as_slice());
                if joined.len() <= usize::MAX / 2 {
                    Some(CATOperationResult::Bytes(ByteValue::B64(encode_b64url(joined.as_slice()))))
                } else {
                    None
                }
            },
            None => None,
        },
    }
}

#[verifier::loop_isolation(false)]
fn cat_lits_at(tv: &CatTarget, ks: &Vec<&Type2>) -> (r: Option<Vec<CATOperationResult>>)
    ensures
        match cat_lits(target_view(*tv), ks@.map_values(|t: &Type2| *t)) {
            Some(o) => r matches Some(v) && v@.map_values(|x: CATOperationResult| cat_view(x)) == o,
            None => r is None,
        },
{
    let ghost ksv = ks@.map_values(|t: &Type2| *t);
    let mut out: Vec<CATOperationResult> = Vec::new();
    let mut i: usize = 0;
    assert(ksv.take(0) =~= Seq::<Type2>::empty());
    assert(out@.map_values(|x: CATOperationResult| cat_view(x)) =~= Seq::<(u8, Seq<char>, Seq<u8>)>::empty());
    while i < ks.len()
        invariant
            i <= ks@.len(),
            ksv == ks@.map_values(|t: &Type2| *t),
            cat_lits(target_view(*tv), ksv.take(i as int)) == Some(out@.map_values(|x: CATOperationResult| cat_view(x))),
        decreases ks@.len() - i,
    {
        assert(ksv.take(i as int + 1).drop_last() =~= ksv.take(i as int));
        assert(ksv.take(i as int + 1).last() == *ks@[i as int]);
        let ghost before = out@.map_values(|x: CATOperationResult| cat_view(x));
        match cat_leaf_at(tv, ks[i]) {
            Some(o) => {
                out.push(o);
                assert(out@.map_values(|x: CATOperationResult| cat_view(x)) =~= before.push(cat_view(o)));
            },
            None => {
                proof {
                    lemma_cat_lits_fails(target_view(*tv), ksv, i as int + 1);
                }
                assert(ksv.take(ksv.len() as int) =~= ksv);
                return None;
            },
        }
        i += 1;
    }
    assert(ksv.take(ksv.len() as int) =~= ksv);
    Some(out)
}

proof fn lemma_cat_lits_fails(tv: (u8, Seq<char>, Seq<u8>), ks: Seq<Type2>, n: int)
    requires
        0 <= n <= ks.len(),
        cat_lits(tv, ks.take(n)) is None,
    ensures
        cat_lits(tv, ks) is None,
    decreases ks.len() - n,
{
    if n < ks.len() {
        assert(ks.take(n + 1).drop_last() =~= ks.take(n));
        lemma_cat_lits_fails(tv, ks, n + 1);
    } else {
        assert(ks.take(n) =~= ks);
    }
}

proof fn lemma_cat_choices_fails(c: CDDL, tv: (u8, Seq<char>, Seq<u8>), ts: Seq<Type1>, n: int, fuel: nat)
    requires
        0 <= n <= ts.len(),
        cat_choices(c, tv, ts.take(n), fuel) is None,
    ensures
        cat_choices(c, tv, ts, fuel) is None,
    decreases ts.len() - n,
{
    if n < ts.len() {
        assert(ts.take(n + 1).drop_last() =~= ts.take(n));
        lemma_cat_choices_fails(c, tv, ts, n + 1, fuel);
    } else {
        assert(ts.take(n) =~= ts);
    }
}

fn cat_ctrl_at(c: &CDDL, tv: &CatTarget, ctrl: &Type2, fuel: u64) -> (r: Option<Vec<CATOperationResult>>)
    ensures
        match cat_ctrl(*c, target_view(*tv), *ctrl, fuel as nat) {
            Some(o) => r matches Some(v) && v@.map_values(|x: CATOperationResult| cat_view(x)) == o,
            None => r is None,
        },
    decreases fuel, 0nat,
{
    if fuel == 0 {
        return None;
    }
    match ctrl {
        Type2::Typename(id, _) => {
            let ks = literals_of(c, id.ident.as_str(), fuel - 1);
            cat_lits_at(tv, &ks)
        },
        Type2::ParenthesizedType(t) => cat_choices_at(c, tv, &t.0, fuel - 1),
        _ => match cat_leaf_at(tv, ctrl) {
            Some(o) => {
                let mut v: Vec<CATOperationResult> = Vec::new();
                v.push(o);
                assert(v@.map_values(|x: CATOperationResult| cat_view(x)) =~= seq![cat_view(o)]);
                Some(v)
            },
            None => None,
        },
    }
}

#[verifier::loop_isolation(false)]
fn cat_choices_at(c: &CDDL, tv: &CatTarget, ts: &Vec<Type1>, fuel: u64) -> (r: Option<Vec<CATOperationResult>>)
    ensures
        match cat_choices(*c, target_view(*tv), ts@, fuel as nat) {
            Some(o) => r matches Some(v) && v@.map_values(|x: CATOperationResult| cat_view(x)) == o,
            None => r is None,
        },
    decreases fuel, 1nat,
{
    let mut out: Vec<CATOperationResult> = Vec::new();
    let mut i: usize = 0;
    assert(ts@.take(0) =~= Seq::<Type1>::empty());
    assert(out@.map_values(|x: CATOperationResult| cat_view(x)) =~= Seq::<(u8, Seq<char>, Seq<u8>)>::empty());
    while i < ts.len()
        invariant
            i <= ts@.len(),
            cat_choices(*c, target_view(*tv), ts@.take(i as int), fuel as nat) == Some(
                out@.map_values(|x: CATOperationResult| cat_view(x)),
            ),
        decreases ts@.len() - i,
    {
        assert(ts@.take(i as int + 1).drop_last() =~= ts@.take(i as int));
        assert(ts@.take(i as int + 1).last() == ts@[i as int]);
        let ghost before = out@.map_values(|x: CATOperationResult| cat_view(x));
        if ts[i].operator.is_none() {
            match cat_ctrl_at(c, tv, &ts[i].type2, fuel) {
                Some(mut more) => {
                    let ghost m = more@.map_values(|x: CATOperationResult| cat_view(x));
                    out.append(&mut more);
                    assert(out@.map_values(|x: CATOperationResult| cat_view(x)) =~= before + m);
                },
                None => {
                    proof {
                        lemma_cat_choices_fails(*c, target_view(*tv), ts@, i as int + 1, fuel as nat);
                    }
                    return None;
                },
            }
        }
        i += 1;
    }
    assert(ts@.take(ts@.len() as int) =~= ts@);
    Some(out)
}

/// The literals that `target .cat controller` denotes, in order: each
/// controller literal appended to the target literal (for a name as target,
/// its first string literal). Names are followed at most `CLASS_DEPTH`
/// levels deep. An error when a form cannot be concatenated or a literal
/// does not decode.
pub fn cat_operation(cddl: &CDDL, target: &Type2, controller: &Type2) -> (r: Result<Vec<CATOperationResult>, String>)
    ensures
        match cat_spec(*cddl, *target, *controller, CLASS_DEPTH as nat) {
            Some(o) => r matches Ok(v) && v@.map_values(|x: CATOperationResult| cat_view(x)) == o,
            None => r is Err,
        },
{
    cat_at(cddl, target, controller, CLASS_DEPTH)
}

/// `cat_operation` with names followed at most `fuel` levels deep.
pub fn cat_at(cddl: &CDDL, target: &Type2, controller: &Type2, fuel: u64) -> (r: Result<Vec<CATOperationResult>, String>)
    ensures
        match cat_spec(*cddl, *target, *controller, fuel as nat) {
            Some(o) => r matches Ok(v) && v@.map_values(|x: CATOperationResult| cat_view(x)) == o,
            None => r is Err,
        },
{
    if fuel == 0 {
        return Err("the depth limit was reached".to_owned());
    }
    let f: u64 = fuel - 1;
    let lit: &Type2 = match target {
        Type2::Typename(id, _) => {
            let ls = literals_of(cddl, id.ident.as_str(), f);
            if ls.len() == 0 {
                return Err("the target names no string literal".to_owned());
            }
            assert(ls@.map_values(|t: &Type2| *t)[0] == *ls@[0]);
            ls[0]
        },
        _ => target,
    };
    match target_value_at(lit) {
        Some(tv) => match cat_ctrl_at(cddl, &tv, controller, f) {
            Some(v) => Ok(v),
            None => Err("the controller cannot be concatenated to the target".to_owned()),
        },
        None => Err("invalid target used for .cat operation".to_owned()),
    }
}

/// Whether an instance is the literal a concatenation yielded.
pub open spec fn cat_matches(o: (u8, Seq<char>, Seq<u8>), v: crate::value::Value) -> bool {
    match v {
        crate::value::Value::Text(x) => o.0 == 0 && x@ == o.1,
        crate::value::Value::Bytes(x) => (o.0 == 1 && hex_decoded(o.2) == Some(x@)) || (o.0 == 2 && o.2.len()
            <= usize::MAX - 3 && b64url_decoded(o.2) == Some(x@)),
        _ => false,
    }
}

/// Whether an instance is one of the literals a concatenation yielded.
pub open spec fn cat_accepts(outs: Seq<(u8, Seq<char>, Seq<u8>)>, v: crate::value::Value) -> bool {
    exists|k: int| 0 <= k < outs.len() && cat_matches(#[trigger] outs[k], v)
}

fn cat_match_at(o: &CATOperationResult, v: &crate::value::Value) -> (r: bool)
    ensures
        r == cat_matches(cat_view(*o), *v),
{
    match (o, v) {
        (CATOperationResult::String(s), crate::value::Value::Text(x)) => crate::text::str_eq(s.as_str(), x.as_str()),
        (CATOperationResult::Bytes(ByteValue::B16(h)), crate::value::Value::Bytes(x)) => match decode_hex(h.as_slice()) {
            Some(d) => crate::text::bytes_eq(d.as_slice(), x.as_slice()),
            None => false,
        },
        (CATOperationResult::Bytes(ByteValue::B64(e)), crate::value::Value::Bytes(x)) => {
            if e.len() > usize::MAX - 3 {
                return false;
            }
            match decode_b64url(e.as_slice()) {
                Some(d) => crate::text::bytes_eq(d.as_slice(), x.as_slice()),
                None => false,
            }
        },
        _ => false,
    }
}

/// Whether an instance is one of the literals in a list of results.
pub fn cat_accepts_at(outs: &Vec<CATOperationResult>, v: &crate::value::Value) -> (r: bool)
    ensures
        r == cat_accepts(outs@.map_values(|x: CATOperationResult| cat_view(x)), *v),
{
    let ghost ov = outs@.map_values(|x: CATOperationResult| cat_view(x));
    let mut k: usize = 0;
    while k < outs.len()
        invariant
            k <= outs@.len(),
            ov == outs@.map_values(|x: CATOperationResult| cat_view(x)),
            forall|q: int| 0 <= q < k ==> !cat_matches(#[trigger] ov[q], *v),
        decreases outs@.len() - k,
    {
        if cat_match_at(&outs[k], v) {
            assert(cat_matches(ov[k as int], *v));
            return true;
        }
        k += 1;
    }
    false
}

} // verus!
