//! The entity lump: a text of `{ "key" "value" ... }` blocks.
use vstd::prelude::*;
use crate::helpers::{
    IVec2, IVec3, ParseError, Parsed, Record, SpecParsed, after, bytes_before_nul,
    lemma_nul_end_bounds, lemma_str_float_bounds, lemma_str_int_bounds, lemma_ws_end,
    lemma_ws_end_skip, mandatory_whitespace, parse_str_float, parse_str_int, parsed_view, plain,
    skip, spec_float_end, spec_mandatory_whitespace, spec_str_float, spec_str_int, spec_text,
    string_from_utf8, whitespace, ws_end,
};

verus! {

/// A decimal number as written in the entity text: an optional `-`, digits,
/// and an optional `.` followed by digits.  The bytes are kept as written;
/// turning them into a float is left to the caller.
#[derive(Debug, PartialEq, Eq)]
pub struct DecimalText {
    pub bytes: Vec<u8>,
}

impl View for DecimalText {
    type V = Seq<u8>;

    open spec fn view(&self) -> Seq<u8> {
        self.bytes@
    }
}

/// The value of an entity parameter.
#[derive(Debug, PartialEq, Eq)]
pub enum EntityValue {
    /// `*n`: a reference to model `n`.
    ModelRef(i32),
    /// `tn`: a reference to target `n`.
    TargetRef(i32),
    IVec3(IVec3),
    Vec3([DecimalText; 3]),
    IVec2(IVec2),
    Vec2([DecimalText; 2]),
    Int(i32),
    Float(DecimalText),
    Text(String),
}

pub enum EntityValueView {
    ModelRef(i32),
    TargetRef(i32),
    IVec3(IVec3),
    Vec3(Seq<Seq<u8>>),
    IVec2(IVec2),
    Vec2(Seq<Seq<u8>>),
    Int(i32),
    Float(Seq<u8>),
    Text(Seq<char>),
}

impl View for EntityValue {
    type V = EntityValueView;

    open spec fn view(&self) -> EntityValueView {
        match self {
            EntityValue::ModelRef(n) => EntityValueView::ModelRef(*n),
            EntityValue::TargetRef(n) => EntityValueView::TargetRef(*n),
            EntityValue::IVec3(v) => EntityValueView::IVec3(*v),
            EntityValue::Vec3(v) => EntityValueView::Vec3(v@.map_values(|d: DecimalText| d@)),
            EntityValue::IVec2(v) => EntityValueView::IVec2(*v),
            EntityValue::Vec2(v) => EntityValueView::Vec2(v@.map_values(|d: DecimalText| d@)),
            EntityValue::Int(n) => EntityValueView::Int(*n),
            EntityValue::Float(d) => EntityValueView::Float(d@),
            EntityValue::Text(t) => EntityValueView::Text(t@),
        }
    }
}

/// An entity: its key/value parameters in the order they are written.
#[derive(Debug, PartialEq, Eq)]
pub struct Entity {
    pub parameters: Vec<(String, EntityValue)>,
}

pub type EntityView = Seq<(Seq<char>, EntityValueView)>;

impl View for Entity {
    type V = EntityView;

    open spec fn view(&self) -> EntityView {
        self.parameters@.map_values(|p: (String, EntityValue)| (p.0@, p.1@))
    }
}

// ---------------------------------------------------------------------------
// Grammar pieces.

/// One expected byte.
pub open spec fn spec_char(s: Seq<u8>, c: u8) -> SpecParsed<()> {
    if s.len() == 0 {
        Err(ParseError::Incomplete)
    } else if s[0] == c {
        Ok((1, ()))
    } else {
        Err(ParseError::Error)
    }
}

/// Recognizes the byte `c`.
pub fn parse_char(i: &[u8], c: u8) -> (r: Parsed<()>)
    ensures
        plain(r) == spec_char(i@, c),
{
    if i.len() == 0 {
        Err(ParseError::Incomplete)
    } else if i[0] == c {
        Ok((1, ()))
    } else {
        Err(ParseError::Error)
    }
}

/// The first alternative that does not fail to match; a parser that runs out
/// of input stops the search.
pub open spec fn alt<V>(r1: SpecParsed<V>, r2: SpecParsed<V>) -> SpecParsed<V> {
    match r1 {
        Err(ParseError::Error) => r2,
        _ => r1,
    }
}

/// The index of the first `"` at or after `i`, or `s.len()`.
pub open spec fn quote_end(s: Seq<u8>, i: int) -> int
    decreases s.len() - i,
{
    if i < 0 || i >= s.len() || s[i] == 0x22 {
        i
    } else {
        quote_end(s, i + 1)
    }
}

pub proof fn lemma_quote_end(s: Seq<u8>, i: int)
    requires
        0 <= i <= s.len(),
    ensures
        i <= quote_end(s, i) <= s.len(),
        quote_end(s, i) < s.len() ==> s[quote_end(s, i)] == 0x22,
    decreases s.len() - i,
{
    if i < s.len() && s[i] != 0x22 {
        lemma_quote_end(s, i + 1);
    }
}

/// The text before the next `"`: empty input is incomplete; no `"` at all,
/// or bytes that are not UTF-8, is an error.  The text stops at a zero byte.
pub open spec fn spec_text_until_quote(s: Seq<u8>) -> SpecParsed<Seq<char>> {
    if s.len() == 0 {
        Err(ParseError::Incomplete)
    } else {
        let k = quote_end(s, 0);
        if k == s.len() {
            Err(ParseError::Error)
        } else {
            match spec_text(s.take(k)) {
                Some(t) => Ok((k, t)),
                None => Err(ParseError::Error),
            }
        }
    }
}

/// Reads the text before the next `"`.
pub fn take_text_until_quote(i: &[u8]) -> (r: Parsed<String>)
    ensures
        parsed_view(r) == spec_text_until_quote(i@),
{
    if i.len() == 0 {
        return Err(ParseError::Incomplete);
    }
    let mut k: usize = 0;
    while k < i.len() && i[k] != 0x22
        invariant
            k <= i@.len(),
            quote_end(i@, 0) == quote_end(i@, k as int),
        decreases i@.len() - k,
    {
        k = k + 1;
    }
    if k == i.len() {
        return Err(ParseError::Error);
    }
    let b = bytes_before_nul(i, 0, k);
    assert(i@.subrange(0, k as int) == i@.take(k as int));
    match string_from_utf8(b) {
        Some(t) => Ok((k, t)),
        None => Err(ParseError::Error),
    }
}

pub open spec fn spec_model_ref(s: Seq<u8>) -> SpecParsed<EntityValueView> {
    match spec_char(s, 0x2a) {
        Err(e) => Err(e),
        Ok(_) => match spec_str_int(s.skip(1)) {
            Err(e) => Err(e),
            Ok((k, n)) => Ok((1 + k, EntityValueView::ModelRef(n))),
        },
    }
}

pub open spec fn spec_target_ref(s: Seq<u8>) -> SpecParsed<EntityValueView> {
    match spec_char(s, 0x74) {
        Err(e) => Err(e),
        Ok(_) => match spec_str_int(s.skip(1)) {
            Err(e) => Err(e),
            Ok((k, n)) => Ok((1 + k, EntityValueView::TargetRef(n))),
        },
    }
}

/// An integer followed by a non-empty run of whitespace: the integer and
/// the total length.
pub open spec fn spec_int_sep(s: Seq<u8>) -> SpecParsed<i32> {
    match spec_str_int(s) {
        Err(e) => Err(e),
        Ok((k, n)) => match spec_mandatory_whitespace(s.skip(k)) {
            Err(e) => Err(e),
            Ok((w, _)) => Ok((k + w, n)),
        },
    }
}

/// A decimal number followed by a non-empty run of whitespace.
pub open spec fn spec_float_sep(s: Seq<u8>) -> SpecParsed<Seq<u8>> {
    match spec_str_float(s) {
        Err(e) => Err(e),
        Ok((k, d)) => match spec_mandatory_whitespace(s.skip(k)) {
            Err(e) => Err(e),
            Ok((w, _)) => Ok((k + w, d)),
        },
    }
}

/// A last element, then an optional run of whitespace.
pub open spec fn with_trailing_ws<V>(s: Seq<u8>, start: int, r: SpecParsed<V>) -> SpecParsed<(int, V)> {
    match r {
        Err(e) => Err(e),
        Ok((k, v)) => Ok((start + k + ws_end(s.skip(start + k), 0), (start + k, v))),
    }
}

pub open spec fn spec_ivec3_text(s: Seq<u8>) -> SpecParsed<EntityValueView> {
    match spec_int_sep(s) {
        Err(e) => Err(e),
        Ok((k1, a)) => match spec_int_sep(s.skip(k1)) {
            Err(e) => Err(e),
            Ok((k2, b)) => match with_trailing_ws(s, k1 + k2, spec_str_int(s.skip(k1 + k2))) {
                Err(e) => Err(e),
                Ok((n, (_, c))) => Ok((n, EntityValueView::IVec3([a, b, c]))),
            },
        },
    }
}

pub open spec fn spec_vec3_text(s: Seq<u8>) -> SpecParsed<EntityValueView> {
    match spec_float_sep(s) {
        Err(e) => Err(e),
        Ok((k1, a)) => match spec_float_sep(s.skip(k1)) {
            Err(e) => Err(e),
            Ok((k2, b)) => match with_trailing_ws(s, k1 + k2, spec_str_float(s.skip(k1 + k2))) {
                Err(e) => Err(e),
                Ok((n, (_, c))) => Ok((n, EntityValueView::Vec3(seq![a, b, c]))),
            },
        },
    }
}

pub open spec fn spec_ivec2_text(s: Seq<u8>) -> SpecParsed<EntityValueView> {
    match spec_int_sep(s) {
        Err(e) => Err(e),
        Ok((k1, a)) => match with_trailing_ws(s, k1, spec_str_int(s.skip(k1))) {
            Err(e) => Err(e),
            Ok((n, (_, b))) => Ok((n, EntityValueView::IVec2([a, b]))),
        },
    }
}

pub open spec fn spec_vec2_text(s: Seq<u8>) -> SpecParsed<EntityValueView> {
    match spec_float_sep(s) {
        Err(e) => Err(e),
        Ok((k1, a)) => match with_trailing_ws(s, k1, spec_str_float(s.skip(k1))) {
            Err(e) => Err(e),
            Ok((n, (_, b))) => Ok((n, EntityValueView::Vec2(seq![a, b]))),
        },
    }
}

pub open spec fn spec_int_value(s: Seq<u8>) -> SpecParsed<EntityValueView> {
    match spec_str_int(s) {
        Err(e) => Err(e),
        Ok((k, n)) => Ok((k, EntityValueView::Int(n))),
    }
}

pub open spec fn spec_float_value(s: Seq<u8>) -> SpecParsed<EntityValueView> {
    match spec_str_float(s) {
        Err(e) => Err(e),
        Ok((k, d)) => Ok((k, EntityValueView::Float(d))),
    }
}

pub open spec fn spec_text_value(s: Seq<u8>) -> SpecParsed<EntityValueView> {
    match spec_text_until_quote(s) {
        Err(e) => Err(e),
        Ok((k, t)) => Ok((k, EntityValueView::Text(t))),
    }
}

/// A parameter value: the first of these forms that matches, in this order:
/// `*n`, `tn`, three integers, three decimals, two integers, two decimals,
/// one integer, one decimal, and the text up to the closing quote.
pub open spec fn spec_entity_value(s: Seq<u8>) -> SpecParsed<EntityValueView> {
    alt(spec_model_ref(s), alt(spec_target_ref(s), alt(spec_ivec3_text(s), alt(spec_vec3_text(s),
    alt(spec_ivec2_text(s), alt(spec_vec2_text(s), alt(spec_int_value(s), alt(spec_float_value(s),
    spec_text_value(s)))))))))
}

/// A value that starts with `*` and an integer `n` is a reference to model
/// `n`, and one that starts with `t` and an integer `n` a reference to target
/// `n`; the reference ends where the integer ends.
pub proof fn lemma_references_come_first(s: Seq<u8>)
    ensures
        (s.len() > 0 && s[0] == 0x2a) ==> (spec_str_int(s.skip(1)) matches Ok((k, n)) ==> spec_entity_value(s)
            == Ok::<(int, EntityValueView), ParseError>((1 + k, EntityValueView::ModelRef(n)))),
        (s.len() > 0 && s[0] == 0x74) ==> (spec_str_int(s.skip(1)) matches Ok((k, n)) ==> spec_entity_value(s)
            == Ok::<(int, EntityValueView), ParseError>((1 + k, EntityValueView::TargetRef(n)))),
{
}

proof fn lemma_int_sep_bounds(s: Seq<u8>)
    ensures
        spec_int_sep(s) matches Ok((n, _)) ==> 0 < n <= s.len(),
{
    lemma_str_int_bounds(s);
    if let Ok((k, _)) = spec_str_int(s) {
        let t = s.skip(k);
        if t.len() > 0 {
            lemma_ws_end(t, 0);
        }
    }
}

proof fn lemma_float_sep_bounds(s: Seq<u8>)
    ensures
        spec_float_sep(s) matches Ok((n, _)) ==> 0 < n <= s.len(),
{
    lemma_str_float_bounds(s);
    if let Ok((k, _)) = spec_str_float(s) {
        let t = s.skip(k);
        if t.len() > 0 {
            lemma_ws_end(t, 0);
        }
    }
}

proof fn lemma_trailing_bounds<V>(s: Seq<u8>, start: int, r: SpecParsed<V>)
    requires
        0 <= start <= s.len(),
        r matches Ok((k, _)) ==> 0 <= k <= s.len() - start,
    ensures
        with_trailing_ws(s, start, r) matches Ok((n, (m, _))) ==> start <= m <= n <= s.len()
            && n == m + ws_end(s.skip(m), 0),
{
    if let Ok((k, _)) = r {
        lemma_ws_end(s.skip(start + k), 0);
    }
}

pub proof fn lemma_entity_value_bounds(s: Seq<u8>)
    ensures
        spec_entity_value(s) matches Ok((n, _)) ==> 0 <= n <= s.len(),
{
    lemma_str_int_bounds(s);
    lemma_str_float_bounds(s);
    if s.len() > 0 {
        lemma_str_int_bounds(s.skip(1));
        lemma_quote_end(s, 0);
    }
    lemma_int_sep_bounds(s);
    lemma_float_sep_bounds(s);
    if let Ok((k1, _)) = spec_int_sep(s) {
        lemma_int_sep_bounds(s.skip(k1));
        lemma_str_int_bounds(s.skip(k1));
        lemma_trailing_bounds(s, k1, spec_str_int(s.skip(k1)));
        if let Ok((k2, _)) = spec_int_sep(s.skip(k1)) {
            lemma_str_int_bounds(s.skip(k1 + k2));
            lemma_trailing_bounds(s, k1 + k2, spec_str_int(s.skip(k1 + k2)));
        }
    }
    if let Ok((k1, _)) = spec_float_sep(s) {
        lemma_float_sep_bounds(s.skip(k1));
        lemma_str_float_bounds(s.skip(k1));
        lemma_trailing_bounds(s, k1, spec_str_float(s.skip(k1)));
        if let Ok((k2, _)) = spec_float_sep(s.skip(k1)) {
            lemma_str_float_bounds(s.skip(k1 + k2));
            lemma_trailing_bounds(s, k1 + k2, spec_str_float(s.skip(k1 + k2)));
        }
    }
}

fn parse_model_ref(i: &[u8]) -> (r: Parsed<EntityValue>)
    ensures
        parsed_view(r) == spec_model_ref(i@),
{
    let _len = i.len();
    match parse_char(i, 0x2a) {
        Err(e) => Err(e),
        Ok(_) => match parse_str_int(skip(i, 1)) {
            Err(e) => Err(e),
            Ok((k, n)) => {
                proof {
                    lemma_str_int_bounds(i@.skip(1));
                }
                Ok((1 + k, EntityValue::ModelRef(n)))
            },
        },
    }
}

fn parse_target_ref(i: &[u8]) -> (r: Parsed<EntityValue>)
    ensures
        parsed_view(r) == spec_target_ref(i@),
{
    let _len = i.len();
    match parse_char(i, 0x74) {
        Err(e) => Err(e),
        Ok(_) => match parse_str_int(skip(i, 1)) {
            Err(e) => Err(e),
            Ok((k, n)) => {
                proof {
                    lemma_str_int_bounds(i@.skip(1));
                }
                Ok((1 + k, EntityValue::TargetRef(n)))
            },
        },
    }
}

fn parse_int_sep(i: &[u8]) -> (r: Parsed<i32>)
    ensures
        plain(r) == spec_int_sep(i@),
        r matches Ok((n, _)) ==> n <= i@.len(),
{
    let _len = i.len();
    proof {
        lemma_int_sep_bounds(i@);
    }
    match parse_str_int(i) {
        Err(e) => Err(e),
        Ok((k, n)) => {
            proof {
                lemma_str_int_bounds(i@);
            }
            match mandatory_whitespace(skip(i, k)) {
                Err(e) => Err(e),
                Ok((w, _)) => Ok((k + w, n)),
            }
        },
    }
}

fn parse_float_sep(i: &[u8]) -> (r: Parsed<DecimalText>)
    ensures
        parsed_view(r) == spec_float_sep(i@),
        r matches Ok((n, _)) ==> n <= i@.len(),
{
    let _len = i.len();
    proof {
        lemma_float_sep_bounds(i@);
    }
    match parse_str_float(i) {
        Err(e) => Err(e),
        Ok((k, d)) => {
            proof {
                lemma_str_float_bounds(i@);
            }
            match mandatory_whitespace(skip(i, k)) {
                Err(e) => Err(e),
                Ok((w, _)) => Ok((k + w, d)),
            }
        },
    }
}

/// The length of a run of whitespace starting at `pos`.
fn trailing_ws(i: &[u8], pos: usize) -> (n: usize)
    requires
        pos <= i@.len(),
    ensures
        n == ws_end(i@.skip(pos as int), 0),
        pos + n <= i@.len(),
{
    proof {
        lemma_ws_end(i@.skip(pos as int), 0);
    }
    whitespace(skip(i, pos))
}

fn parse_ivec3_text(i: &[u8]) -> (r: Parsed<EntityValue>)
    ensures
        parsed_view(r) == spec_ivec3_text(i@),
{
    let _len = i.len();
    let (k1, a) = match parse_int_sep(i) {
        Err(e) => return Err(e),
        Ok(p) => p,
    };
    let (k2, b) = match parse_int_sep(skip(i, k1)) {
        Err(e) => return Err(e),
        Ok(p) => p,
    };
    assert(i@.skip(k1 as int).skip(k2 as int) =~= i@.skip(k1 + k2));
    let rest = skip(i, k1 + k2);
    match parse_str_int(rest) {
        Err(e) => Err(e),
        Ok((k3, c)) => {
            proof {
                lemma_str_int_bounds(rest@);
            }
            let w = trailing_ws(i, k1 + k2 + k3);
            Ok((k1 + k2 + k3 + w, EntityValue::IVec3([a, b, c])))
        },
    }
}

fn parse_vec3_text(i: &[u8]) -> (r: Parsed<EntityValue>)
    ensures
        parsed_view(r) == spec_vec3_text(i@),
{
    let _len = i.len();
    let (k1, a) = match parse_float_sep(i) {
        Err(e) => return Err(e),
        Ok(p) => p,
    };
    let (k2, b) = match parse_float_sep(skip(i, k1)) {
        Err(e) => return Err(e),
        Ok(p) => p,
    };
    assert(i@.skip(k1 as int).skip(k2 as int) =~= i@.skip(k1 + k2));
    let rest = skip(i, k1 + k2);
    match parse_str_float(rest) {
        Err(e) => Err(e),
        Ok((k3, c)) => {
            proof {
                lemma_str_float_bounds(rest@);
            }
            let w = trailing_ws(i, k1 + k2 + k3);
            let v = EntityValue::Vec3([a, b, c]);
            assert(v@ == EntityValueView::Vec3(seq![a@, b@, c@])) by {
                if let EntityValue::Vec3(arr) = v {
                    assert(arr@.map_values(|d: DecimalText| d@) =~= seq![a@, b@, c@]);
                }
            }
            Ok((k1 + k2 + k3 + w, v))
        },
    }
}

fn parse_ivec2_text(i: &[u8]) -> (r: Parsed<EntityValue>)
    ensures
        parsed_view(r) == spec_ivec2_text(i@),
{
    let _len = i.len();
    let (k1, a) = match parse_int_sep(i) {
        Err(e) => return Err(e),
        Ok(p) => p,
    };
    let rest = skip(i, k1);
    match parse_str_int(rest) {
        Err(e) => Err(e),
        Ok((k2, b)) => {
            proof {
                lemma_str_int_bounds(rest@);
            }
            let w = trailing_ws(i, k1 + k2);
            Ok((k1 + k2 + w, EntityValue::IVec2([a, b])))
        },
    }
}

fn parse_vec2_text(i: &[u8]) -> (r: Parsed<EntityValue>)
    ensures
        parsed_view(r) == spec_vec2_text(i@),
{
    let _len = i.len();
    let (k1, a) = match parse_float_sep(i) {
        Err(e) => return Err(e),
        Ok(p) => p,
    };
    let rest = skip(i, k1);
    match parse_str_float(rest) {
        Err(e) => Err(e),
        Ok((k2, b)) => {
            proof {
                lemma_str_float_bounds(rest@);
            }
            let w = trailing_ws(i, k1 + k2);
            let v = EntityValue::Vec2([a, b]);
            assert(v@ == EntityValueView::Vec2(seq![a@, b@])) by {
                if let EntityValue::Vec2(arr) = v {
                    assert(arr@.map_values(|d: DecimalText| d@) =~= seq![a@, b@]);
                }
            }
            Ok((k1 + k2 + w, v))
        },
    }
}

/// Reads a parameter value (see [`spec_entity_value`] for the forms tried).
pub fn parse_entity_value(i: &[u8]) -> (r: Parsed<EntityValue>)
    ensures
        parsed_view(r) == spec_entity_value(i@),
{
    match parse_model_ref(i) {
        Err(ParseError::Error) => {},
        r => return r,
    }
    match parse_target_ref(i) {
        Err(ParseError::Error) => {},
        r => return r,
    }
    match parse_ivec3_text(i) {
        Err(ParseError::Error) => {},
        r => return r,
    }
    match parse_vec3_text(i) {
        Err(ParseError::Error) => {},
        r => return r,
    }
    match parse_ivec2_text(i) {
        Err(ParseError::Error) => {},
        r => return r,
    }
    match parse_vec2_text(i) {
        Err(ParseError::Error) => {},
        r => return r,
    }
    match parse_str_int(i) {
        Err(ParseError::Error) => {},
        Err(e) => return Err(e),
        Ok((k, n)) => return Ok((k, EntityValue::Int(n))),
    }
    match parse_str_float(i) {
        Err(ParseError::Error) => {},
        Err(e) => return Err(e),
        Ok((k, d)) => return Ok((k, EntityValue::Float(d))),
    }
    match take_text_until_quote(i) {
        Err(e) => Err(e),
        Ok((k, t)) => Ok((k, EntityValue::Text(t))),
    }
}

/// The view of a list of parameters.
pub open spec fn params_view(v: Seq<(String, EntityValue)>) -> EntityView {
    v.map_values(|p: (String, EntityValue)| (p.0@, p.1@))
}

/// One parameter: `"name"`, optional whitespace, `"value"`, optional whitespace.
pub open spec fn spec_param(s: Seq<u8>) -> SpecParsed<(Seq<char>, EntityValueView)> {
    match spec_char(s, 0x22) {
        Err(e) => Err(e),
        Ok(_) => match spec_text_until_quote(s.skip(1)) {
            Err(e) => Err(e),
            Ok((k, name)) => match spec_char(s.skip(1 + k), 0x22) {
                Err(e) => Err(e),
                Ok(_) => {
                    let p = 2 + k + ws_end(s.skip(2 + k), 0);
                    match spec_char(s.skip(p), 0x22) {
                        Err(e) => Err(e),
                        Ok(_) => match spec_entity_value(s.skip(p + 1)) {
                            Err(e) => Err(e),
                            Ok((kv, v)) => match spec_char(s.skip(p + 1 + kv), 0x22) {
                                Err(e) => Err(e),
                                Ok(_) => {
                                    let e = p + 2 + kv;
                                    Ok((e + ws_end(s.skip(e), 0), (name, v)))
                                },
                            },
                        },
                    }
                },
            },
        },
    }
}

pub proof fn lemma_param_bounds(s: Seq<u8>)
    ensures
        spec_param(s) matches Ok((n, _)) ==> 0 < n <= s.len(),
{
    if s.len() > 0 && s[0] == 0x22 {
        let t = s.skip(1);
        if t.len() > 0 {
            lemma_quote_end(t, 0);
        }
        if let Ok((k, _)) = spec_text_until_quote(t) {
            if s.len() > 1 + k && s[1 + k] == 0x22 {
                lemma_ws_end(s.skip(2 + k), 0);
                let p = 2 + k + ws_end(s.skip(2 + k), 0);
                if p < s.len() && s[p] == 0x22 {
                    lemma_entity_value_bounds(s.skip(p + 1));
                    if let Ok((kv, _)) = spec_entity_value(s.skip(p + 1)) {
                        if p + 1 + kv < s.len() {
                            lemma_ws_end(s.skip(p + 2 + kv), 0);
                        }
                    }
                }
            }
        }
    }
}

/// Reads one parameter.
pub fn parse_param(i: &[u8]) -> (r: Parsed<(String, EntityValue)>)
    ensures
        match r {
            Ok((n, p)) => spec_param(i@) == Ok::<(int, (Seq<char>, EntityValueView)), ParseError>((n as int, (p.0@, p.1@))),
            Err(e) => spec_param(i@) == Err::<(int, (Seq<char>, EntityValueView)), ParseError>(e),
        },
{
    let _len = i.len();
    proof {
        lemma_param_bounds(i@);
    }
    match parse_char(i, 0x22) {
        Err(e) => return Err(e),
        Ok(_) => {},
    }
    let (k, name) = match take_text_until_quote(skip(i, 1)) {
        Err(e) => return Err(e),
        Ok(p) => p,
    };
    proof {
        if i@.skip(1).len() > 0 {
            lemma_quote_end(i@.skip(1), 0);
        }
    }
    match parse_char(skip(i, 1 + k), 0x22) {
        Err(e) => return Err(e),
        Ok(_) => {},
    }
    let w = trailing_ws(i, 2 + k);
    let p = 2 + k + w;
    match parse_char(skip(i, p), 0x22) {
        Err(e) => return Err(e),
        Ok(_) => {},
    }
    let (kv, v) = match parse_entity_value(skip(i, p + 1)) {
        Err(e) => return Err(e),
        Ok(x) => x,
    };
    proof {
        lemma_entity_value_bounds(i@.skip(p + 1));
    }
    match parse_char(skip(i, p + 1 + kv), 0x22) {
        Err(e) => return Err(e),
        Ok(_) => {},
    }
    let e = p + 2 + kv;
    let w2 = trailing_ws(i, e);
    Ok((e + w2, (name, v)))
}

/// Parameters, as many as match; input that ends inside one is incomplete.
pub open spec fn spec_params(s: Seq<u8>) -> SpecParsed<EntityView>
    decreases s.len(),
{
    if s.len() == 0 {
        Ok((0, seq![]))
    } else {
        match spec_param(s) {
            Err(ParseError::Error) => Ok((0, seq![])),
            Err(ParseError::Incomplete) => Err(ParseError::Incomplete),
            Ok((k, p)) => if 0 < k <= s.len() {
                after(seq![p], k, spec_params(s.skip(k)))
            } else {
                Err(ParseError::Error)
            },
        }
    }
}

pub proof fn lemma_params_bounds(s: Seq<u8>)
    ensures
        spec_params(s) matches Ok((n, _)) ==> 0 <= n <= s.len(),
    decreases s.len(),
{
    if s.len() > 0 {
        lemma_param_bounds(s);
        if let Ok((k, _)) = spec_param(s) {
            if 0 < k <= s.len() {
                lemma_params_bounds(s.skip(k));
            }
        }
    }
}

/// Reads parameters, as many as match.
pub fn parse_params(i: &[u8]) -> (r: Parsed<Vec<(String, EntityValue)>>)
    ensures
        match r {
            Ok((n, ps)) => spec_params(i@) == Ok::<(int, EntityView), ParseError>((n as int, params_view(ps@))),
            Err(e) => spec_params(i@) == Err::<(int, EntityView), ParseError>(e),
        },
{
    let mut out: Vec<(String, EntityValue)> = Vec::new();
    let mut consumed: usize = 0;
    proof {
        assert(i@.skip(0) =~= i@);
        assert(params_view(out@) =~= Seq::<(Seq<char>, EntityValueView)>::empty());
        match spec_params(i@) {
            Ok((m, ws)) => {
                assert(params_view(out@) + ws =~= ws);
            },
            Err(_) => {},
        }
    }
    loop
        invariant
            consumed <= i@.len(),
            spec_params(i@) == after(params_view(out@), consumed as int, spec_params(i@.skip(consumed as int))),
        decreases i@.len() - consumed,
    {
        if consumed == i.len() {
            proof {
                assert(params_view(out@) + seq![] =~= params_view(out@));
            }
            return Ok((consumed, out));
        }
        let rest = skip(i, consumed);
        proof {
            lemma_param_bounds(rest@);
        }
        match parse_param(rest) {
            Err(ParseError::Error) => {
                proof {
                    assert(params_view(out@) + seq![] =~= params_view(out@));
                }
                return Ok((consumed, out));
            },
            Err(ParseError::Incomplete) => {
                return Err(ParseError::Incomplete);
            },
            Ok((k, p)) => {
                proof {
                    assert(rest@.skip(k as int) =~= i@.skip(consumed + k));
                    assert(params_view(out@.push(p)) =~= params_view(out@).push((p.0@, p.1@)));
                    match spec_params(i@.skip(consumed + k)) {
                        Ok((m, ws)) => {
                            assert(params_view(out@) + (seq![(p.0@, p.1@)] + ws) =~= params_view(out@).push((p.0@, p.1@)) + ws);
                        },
                        Err(_) => {},
                    }
                }
                out.push(p);
                consumed = consumed + k;
            },
        }
    }
}

/// An entity: optional whitespace, `{`, optional whitespace, its parameters, `}`.
pub open spec fn spec_parse_entity(s: Seq<u8>) -> SpecParsed<EntityView> {
    let w0 = ws_end(s, 0);
    match spec_char(s.skip(w0), 0x7b) {
        Err(e) => Err(e),
        Ok(_) => {
            let w1 = w0 + 1 + ws_end(s.skip(w0 + 1), 0);
            match spec_params(s.skip(w1)) {
                Err(e) => Err(e),
                Ok((m, ps)) => match spec_char(s.skip(w1 + m), 0x7d) {
                    Err(e) => Err(e),
                    Ok(_) => Ok((w1 + m + 1, ps)),
                },
            }
        },
    }
}

pub proof fn lemma_entity_bounds(s: Seq<u8>)
    ensures
        spec_parse_entity(s) matches Ok((n, _)) ==> 0 < n <= s.len(),
{
    lemma_ws_end(s, 0);
    let w0 = ws_end(s, 0);
    if w0 < s.len() {
        lemma_ws_end(s.skip(w0 + 1), 0);
        let w1 = w0 + 1 + ws_end(s.skip(w0 + 1), 0);
        lemma_params_bounds(s.skip(w1));
    }
}

/// Reads one entity.
pub fn parse_entity(i: &[u8]) -> (r: Parsed<Entity>)
    ensures
        parsed_view(r) == spec_parse_entity(i@),
{
    let _len = i.len();
    proof {
        lemma_ws_end(i@, 0);
    }
    let w0 = whitespace(i);
    match parse_char(skip(i, w0), 0x7b) {
        Err(e) => return Err(e),
        Ok(_) => {},
    }
    let w1 = w0 + 1 + trailing_ws(i, w0 + 1);
    let (m, parameters) = match parse_params(skip(i, w1)) {
        Err(e) => return Err(e),
        Ok(p) => p,
    };
    proof {
        lemma_params_bounds(i@.skip(w1 as int));
    }
    match parse_char(skip(i, w1 + m), 0x7d) {
        Err(e) => Err(e),
        Ok(_) => Ok((w1 + m + 1, Entity { parameters })),
    }
}

impl Record for Entity {
    open spec fn spec_parse(s: Seq<u8>) -> SpecParsed<EntityView> {
        spec_parse_entity(s)
    }

    proof fn lemma_parse_consumes(s: Seq<u8>) {
        lemma_entity_bounds(s);
    }

    fn parse(i: &[u8]) -> (r: Parsed<Entity>) {
        parse_entity(i)
    }
}

} // verus!
