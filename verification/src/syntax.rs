//! FON syntax as the parser produces it, and its lowering into runtime values.
//!
//! The parser keeps values, members and schemas in indexed tables; the
//! accessors below read one entry at a time and hand it over as plain data.
use vstd::prelude::*;

use fon_parser::{Member, SchemaKind, StringPartKind, Value, ValueId};

use crate::error::{CoreError, CoreFault};
use crate::text::{trim_start_char, trim_start_matches_char};
use crate::value::{
    ObjectMap, RuntimeValue, ValueView, binds, distinct_keys, models, unquote_string, unquoted,
};

verus! {

#[verifier::external_type_specification]
#[verifier::external_body]
pub struct ExFonParseResult(fon_parser::ParseResult);

#[verifier::external_type_specification]
#[verifier::external_body]
pub struct ExFonStringPart(fon_parser::StringPart);

#[verifier::external_type_specification]
#[verifier::external_body]
pub struct ExFonValueId(fon_parser::ValueId);

#[verifier::external_type_specification]
#[verifier::external_body]
pub struct ExFonMemberId(fon_parser::MemberId);

#[verifier::external_type_specification]
#[verifier::external_body]
pub struct ExFonStringValue(fon_parser::StringValue);

#[verifier::external_type_specification]
#[verifier::external_body]
pub struct ExFonSchemaValue(fon_parser::SchemaValue);

/// One part of a FON string literal.
pub enum StringPiece {
    Text,
    Interpolation,
}

/// One entry of the parser's value table; child values, members and
/// schemas are referred to by their index.
pub enum SyntaxValue {
    Boolean(bool),
    Number(String),
    /// The raw literal with its envelope, and its parts.
    Str(String, Vec<StringPiece>),
    Regex,
    EnumPath(String),
    Array(Vec<u32>),
    Object(Vec<u32>),
    /// Whether the schema is a struct schema, and the schema's index.
    Schema(bool, u32),
    Unknown(String),
    Error,
}

/// One entry of the parser's member table.
pub enum SyntaxMember {
    /// A key bound to the value at an index.
    Binding(String, u32),
    /// A type declaration with its name.
    TypeDeclaration(String),
    Error,
}

/// One entry of the parser's schema table: the raw keys of its fields.
pub struct SyntaxSchema {
    pub fields: Vec<String>,
}

/// The root of a parsed document.
pub enum SyntaxRoot {
    Array(Vec<u32>),
    Object(Vec<u32>),
    Unsupported,
}

/// Everything the library reads of one parse.
pub struct FonModel {
    pub has_errors: bool,
    pub root: SyntaxRoot,
    pub values: Seq<SyntaxValue>,
    pub members: Seq<SyntaxMember>,
    pub schemas: Seq<SyntaxSchema>,
}

/// The tables of a parse result, as plain data.
pub uninterp spec fn parse_contents(r: fon_parser::ParseResult) -> FonModel;

/// What `fon_parser::parse` produces for a source text.
pub uninterp spec fn fon_parse_of(source: Seq<char>) -> FonModel;

/// Parse FON source (`fon_parser::parse`). Claimed: the result depends on
/// the source alone.
#[verifier::external_body]
pub(crate) fn fon_parse(source: &str) -> (r: fon_parser::ParseResult)
    ensures
        parse_contents(r) == fon_parse_of(source@),
{
    fon_parser::parse(source)
}

/// Whether the parse reported diagnostics (`ParseResult::has_errors`).
#[verifier::external_body]
pub(crate) fn fon_has_errors(r: &fon_parser::ParseResult) -> (b: bool)
    ensures
        b == parse_contents(*r).has_errors,
{
    r.has_errors()
}

/// The root of the document (`Ast::root_array_items`, `Ast::object_members`),
/// with its indices.
#[verifier::external_body]
pub(crate) fn fon_root(r: &fon_parser::ParseResult) -> (root: SyntaxRoot)
    ensures
        root == parse_contents(*r).root,
{
    let ast = &r.document.ast;
    match (ast.root_array_items(), ast.object_members()) {
        (Some(items), _) => SyntaxRoot::Array(value_ids(items)),
        (None, Some(members)) => SyntaxRoot::Object(member_ids(members)),
        (None, None) => SyntaxRoot::Unsupported,
    }
}

/// The indices of value ids (their `u32` field), in order.
#[verifier::external_body]
fn value_ids(ids: &[fon_parser::ValueId]) -> Vec<u32> {
    ids.iter().map(|i| i.0).collect()
}

/// The indices of member ids (their `u32` field), in order.
#[verifier::external_body]
fn member_ids(ids: &[fon_parser::MemberId]) -> Vec<u32> {
    ids.iter().map(|i| i.0).collect()
}

/// A string literal: its raw text and the kinds of its parts.
#[verifier::external_body]
fn string_value(s: &fon_parser::StringValue) -> SyntaxValue {
    SyntaxValue::Str(s.raw.clone(), string_pieces(&s.parts))
}

/// A schema value: whether it is a struct schema, and its schema index.
#[verifier::external_body]
fn schema_value(s: &fon_parser::SchemaValue) -> SyntaxValue {
    match s.kind {
        SchemaKind::Struct => SyntaxValue::Schema(true, s.schema.0),
        SchemaKind::Enum => SyntaxValue::Schema(false, s.schema.0),
    }
}

/// The kinds of string parts (`StringPart::kind`), in order.
#[verifier::external_body]
fn string_pieces(parts: &[fon_parser::StringPart]) -> Vec<StringPiece> {
    parts.iter().map(|p| match p.kind {
        StringPartKind::Text => StringPiece::Text,
        StringPartKind::Interpolation => StringPiece::Interpolation,
    }).collect()
}

/// The value at an index (`Ast::value`), converted variant by variant.
#[verifier::external_body]
pub(crate) fn fon_value(r: &fon_parser::ParseResult, id: u32) -> (v: Option<SyntaxValue>)
    ensures
        v == (if id < parse_contents(*r).values.len() {
            Some(parse_contents(*r).values[id as int])
        } else {
            None
        }),
{
    r.document.ast.value(ValueId(id)).map(|v| match v {
        Value::Boolean { value, .. } => SyntaxValue::Boolean(*value),
        Value::Number { raw, .. } => SyntaxValue::Number(raw.clone()),
        Value::String(s) => string_value(s),
        Value::Regex(_) => SyntaxValue::Regex,
        Value::EnumPath(e) => SyntaxValue::EnumPath(e.path.clone()),
        Value::Array(a) => SyntaxValue::Array(value_ids(&a.items)),
        Value::Object(o) => SyntaxValue::Object(member_ids(&o.members)),
        Value::Schema(s) => schema_value(s),
        Value::Unknown(u) => SyntaxValue::Unknown(u.raw.clone()),
        Value::Error(_) => SyntaxValue::Error,
    })
}

/// The member at an index (`Ast::member`), converted variant by variant.
#[verifier::external_body]
pub(crate) fn fon_member(r: &fon_parser::ParseResult, id: u32) -> (m: Option<SyntaxMember>)
    ensures
        m == (if id < parse_contents(*r).members.len() {
            Some(parse_contents(*r).members[id as int])
        } else {
            None
        }),
{
    r.document.ast.member(fon_parser::MemberId(id)).map(|m| match m {
        Member::Binding(b) => SyntaxMember::Binding(b.key.raw.clone(), b.value.0),
        Member::TypeDeclaration(d) => SyntaxMember::TypeDeclaration(d.name.raw.clone()),
        Member::Error(_) => SyntaxMember::Error,
    })
}

/// The schema at an index (`Ast::schema`), as the raw keys of its fields.
#[verifier::external_body]
pub(crate) fn fon_schema(r: &fon_parser::ParseResult, id: u32) -> (s: Option<SyntaxSchema>)
    ensures
        s == (if id < parse_contents(*r).schemas.len() {
            Some(parse_contents(*r).schemas[id as int])
        } else {
            None
        }),
{
    r.document.ast.schema(fon_parser::SchemaId(id)).map(|s| SyntaxSchema {
        fields: s.fields.iter().map(|f| f.key.raw.clone()).collect(),
    })
}

/// Nesting bound of the lowering. No document nests this deep.
pub open spec fn depth_bound() -> nat {
    u64::MAX as nat
}

/// A string literal with an interpolated part.
pub open spec fn has_interpolation(pieces: Seq<StringPiece>) -> bool {
    exists|i: int| 0 <= i < pieces.len() && pieces[i] is Interpolation
}

/// The runtime value of the value at `id` (`value_to_runtime`).
pub open spec fn lower(m: FonModel, id: u32, fuel: nat) -> Result<ValueView, CoreFault>
    decreases fuel, 0nat, 0nat,
{
    if fuel == 0 || id >= m.values.len() {
        Err(CoreFault::InvalidValueReference)
    } else {
        match m.values[id as int] {
            SyntaxValue::Boolean(b) => Ok(ValueView::Boolean(b)),
            SyntaxValue::Number(raw) => Ok(ValueView::Number(raw@)),
            SyntaxValue::Str(raw, pieces) => if has_interpolation(pieces@) {
                Err(CoreFault::InterpolationInData)
            } else {
                Ok(ValueView::Str(unquoted(raw@)))
            },
            SyntaxValue::EnumPath(path) => Ok(ValueView::Enum(trim_start_char(path@, '.'))),
            SyntaxValue::Array(ids) => match lower_items(m, ids@, ids@.len(), (fuel - 1) as nat) {
                Ok(ws) => Ok(ValueView::Array(ws)),
                Err(e) => Err(e),
            },
            SyntaxValue::Object(mids) => match lower_members(
                m,
                mids@,
                mids@.len(),
                (fuel - 1) as nat,
                true,
            ) {
                Ok(ws) => Ok(ValueView::Object(ws)),
                Err(e) => Err(e),
            },
            SyntaxValue::Unknown(raw) => Ok(ValueView::Unknown(raw@)),
            SyntaxValue::Regex => Err(CoreFault::UnsupportedValue),
            SyntaxValue::Schema(_, _) => Err(CoreFault::UnsupportedValue),
            SyntaxValue::Error => Err(CoreFault::UnsupportedValue),
        }
    }
}

/// The runtime values of the first `k` items, in order, or the first error.
pub open spec fn lower_items(m: FonModel, ids: Seq<u32>, k: nat, fuel: nat) -> Result<
    Seq<ValueView>,
    CoreFault,
>
    decreases fuel, 1nat, k,
{
    if k == 0 || k > ids.len() {
        Ok(seq![])
    } else {
        match lower_items(m, ids, (k - 1) as nat, fuel) {
            Err(e) => Err(e),
            Ok(ws) => match lower(m, ids[k - 1], fuel) {
                Err(e) => Err(e),
                Ok(w) => Ok(ws.push(w)),
            },
        }
    }
}

/// The fields bound by the first `k` members, in order, or the first error.
/// `nested` selects the errors of objects inside values rather than of the root.
pub open spec fn lower_members(m: FonModel, mids: Seq<u32>, k: nat, fuel: nat, nested: bool) -> Result<
    Seq<(Seq<char>, ValueView)>,
    CoreFault,
>
    decreases fuel, 1nat, k,
{
    if k == 0 || k > mids.len() {
        Ok(seq![])
    } else {
        match lower_members(m, mids, (k - 1) as nat, fuel, nested) {
            Err(e) => Err(e),
            Ok(ws) => {
                let mid = mids[k - 1];
                if mid >= m.members.len() {
                    Err(
                        if nested {
                            CoreFault::InvalidNestedMemberReference
                        } else {
                            CoreFault::InvalidMemberReference
                        },
                    )
                } else {
                    match m.members[mid as int] {
                        SyntaxMember::Binding(key, vid) => match lower(m, vid, fuel) {
                            Err(e) => Err(e),
                            Ok(w) => if binds(ws, key@) {
                                Err(CoreFault::DuplicateField(key@))
                            } else {
                                Ok(ws.push((key@, w)))
                            },
                        },
                        _ => Err(
                            if nested {
                                CoreFault::NestedTypeDeclaration
                            } else {
                                CoreFault::TypeDeclarationInData
                            },
                        ),
                    }
                }
            },
        }
    }
}

/// The root value of a parse (`parse_root_value`).
pub open spec fn root_value(m: FonModel, path: Seq<char>) -> Result<ValueView, CoreFault> {
    if m.has_errors {
        Err(CoreFault::InvalidFon(path))
    } else {
        match m.root {
            SyntaxRoot::Array(ids) => match lower_items(m, ids@, ids@.len(), depth_bound()) {
                Ok(ws) => Ok(ValueView::Array(ws)),
                Err(e) => Err(e),
            },
            SyntaxRoot::Object(mids) => match lower_members(
                m,
                mids@,
                mids@.len(),
                depth_bound(),
                false,
            ) {
                Ok(ws) => Ok(ValueView::Object(ws)),
                Err(e) => Err(e),
            },
            SyntaxRoot::Unsupported => Err(CoreFault::NoSupportedRoot(path)),
        }
    }
}

fn any_interpolation(pieces: &Vec<StringPiece>) -> (r: bool)
    ensures
        r == has_interpolation(pieces@),
{
    let mut i: usize = 0;
    while i < pieces.len()
        invariant
            0 <= i <= pieces.len(),
            forall|j: int| 0 <= j < i ==> !(pieces@[j] is Interpolation),
        decreases pieces.len() - i,
    {
        match pieces[i] {
            StringPiece::Interpolation => {
                return true;
            },
            StringPiece::Text => {},
        }
        i = i + 1;
    }
    false
}

/// Convert parser values into the small, explicit runtime representation
/// used by the engine.
pub fn value_to_runtime(r: &fon_parser::ParseResult, id: u32) -> (res: Result<RuntimeValue, CoreError>)
    ensures
        match res {
            Ok(v) => lower(parse_contents(*r), id, depth_bound()) matches Ok(w) && models(v, w),
            Err(e) => lower(parse_contents(*r), id, depth_bound()) == Err::<ValueView, CoreFault>(
                e@,
            ),
        },
{
    lower_value(r, id, u64::MAX)
}

/// Lower the value `id`, nested at most `fuel` deep.
fn lower_value(r: &fon_parser::ParseResult, id: u32, fuel: u64) -> (res: Result<
    RuntimeValue,
    CoreError,
>)
    ensures
        match res {
            Ok(v) => lower(parse_contents(*r), id, fuel as nat) matches Ok(w) && models(v, w),
            Err(e) => lower(parse_contents(*r), id, fuel as nat) == Err::<ValueView, CoreFault>(
                e@,
            ),
        },
    decreases fuel, 0nat, 0nat,
{
    if fuel == 0 {
        return Err(CoreError::InvalidValueReference);
    }
    let value = match fon_value(r, id) {
        Some(v) => v,
        None => {
            return Err(CoreError::InvalidValueReference);
        },
    };
    match value {
        SyntaxValue::Boolean(b) => Ok(RuntimeValue::Boolean(b)),
        SyntaxValue::Number(raw) => Ok(RuntimeValue::Number(raw)),
        SyntaxValue::Str(raw, pieces) => {
            if any_interpolation(&pieces) {
                Err(CoreError::InterpolationInData)
            } else {
                Ok(RuntimeValue::String(unquote_string(raw.as_str())))
            }
        },
        SyntaxValue::EnumPath(path) => Ok(
            RuntimeValue::Enum(trim_start_matches_char(path.as_str(), '.')),
        ),
        SyntaxValue::Array(ids) => match lower_item_list(r, &ids, fuel - 1) {
            Ok(vs) => Ok(RuntimeValue::Array(vs)),
            Err(e) => Err(e),
        },
        SyntaxValue::Object(mids) => match lower_member_list(r, &mids, fuel - 1, true) {
            Ok(map) => Ok(RuntimeValue::Object(map)),
            Err(e) => Err(e),
        },
        SyntaxValue::Unknown(raw) => Ok(RuntimeValue::Unknown(raw)),
        SyntaxValue::Regex => Err(CoreError::UnsupportedValue),
        SyntaxValue::Schema(_, _) => Err(CoreError::UnsupportedValue),
        SyntaxValue::Error => Err(CoreError::UnsupportedValue),
    }
}

fn lower_item_list(r: &fon_parser::ParseResult, ids: &Vec<u32>, fuel: u64) -> (res: Result<
    Vec<RuntimeValue>,
    CoreError,
>)
    ensures
        match res {
            Ok(vs) => lower_items(parse_contents(*r), ids@, ids@.len(), fuel as nat) matches Ok(ws)
                && models(RuntimeValue::Array(vs), ValueView::Array(ws)),
            Err(e) => lower_items(parse_contents(*r), ids@, ids@.len(), fuel as nat) == Err::<
                Seq<ValueView>,
                CoreFault,
            >(e@),
        },
    decreases fuel, 1nat, ids@.len(),
{
    let ghost m = parse_contents(*r);
    let mut out: Vec<RuntimeValue> = Vec::new();
    let ghost mut ws: Seq<ValueView> = seq![];
    let mut i: usize = 0;
    while i < ids.len()
        invariant
            0 <= i <= ids.len(),
            m == parse_contents(*r),
            lower_items(m, ids@, i as nat, fuel as nat) == Ok::<Seq<ValueView>, CoreFault>(ws),
            out@.len() == ws.len(),
            forall|j: int| 0 <= j < ws.len() ==> models(#[trigger] out@[j], ws[j]),
        decreases ids.len() - i,
    {
        match lower_value(r, ids[i], fuel) {
            Ok(v) => {
                let ghost w = lower(m, ids@[i as int], fuel as nat)->Ok_0;
                out.push(v);
                proof {
                    ws = ws.push(w);
                }
            },
            Err(e) => {
                proof {
                    lemma_lower_items_error(m, ids@, i as nat, fuel as nat);
                }
                return Err(e);
            },
        }
        i = i + 1;
    }
    Ok(out)
}

proof fn lemma_lower_items_error(m: FonModel, ids: Seq<u32>, k: nat, fuel: nat)
    requires
        k < ids.len(),
        lower_items(m, ids, k, fuel) is Ok,
        lower(m, ids[k as int], fuel) is Err,
    ensures
        lower_items(m, ids, ids.len(), fuel) == Err::<Seq<ValueView>, CoreFault>(
            lower(m, ids[k as int], fuel)->Err_0,
        ),
    decreases ids.len() - k,
{
    lemma_lower_items_error_from(m, ids, k, ids.len(), fuel);
}

proof fn lemma_lower_items_error_from(m: FonModel, ids: Seq<u32>, k: nat, n: nat, fuel: nat)
    requires
        k < n <= ids.len(),
        lower_items(m, ids, k, fuel) is Ok,
        lower(m, ids[k as int], fuel) is Err,
    ensures
        lower_items(m, ids, n, fuel) == Err::<Seq<ValueView>, CoreFault>(
            lower(m, ids[k as int], fuel)->Err_0,
        ),
    decreases n,
{
    if n > k + 1 {
        lemma_lower_items_error_from(m, ids, k, (n - 1) as nat, fuel);
    }
}

fn lower_member_list(r: &fon_parser::ParseResult, mids: &Vec<u32>, fuel: u64, nested: bool) -> (res:
    Result<ObjectMap, CoreError>)
    ensures
        match res {
            Ok(map) => lower_members(parse_contents(*r), mids@, mids@.len(), fuel as nat, nested) matches Ok(ws)
                && models(RuntimeValue::Object(map), ValueView::Object(ws)),
            Err(e) => lower_members(parse_contents(*r), mids@, mids@.len(), fuel as nat, nested)
                == Err::<Seq<(Seq<char>, ValueView)>, CoreFault>(e@),
        },
    decreases fuel, 1nat, mids@.len(),
{
    let ghost m = parse_contents(*r);
    let mut map = ObjectMap::new();
    let ghost mut ws: Seq<(Seq<char>, ValueView)> = seq![];
    let mut i: usize = 0;
    while i < mids.len()
        invariant
            0 <= i <= mids.len(),
            m == parse_contents(*r),
            lower_members(m, mids@, i as nat, fuel as nat, nested) == Ok::<
                Seq<(Seq<char>, ValueView)>,
                CoreFault,
            >(ws),
            map.pairs().len() == ws.len(),
            distinct_keys(ws),
            forall|j: int|
                0 <= j < ws.len() ==> (#[trigger] map.spec_get(ws[j].0) matches Some(x) && models(
                    x,
                    ws[j].1,
                )),
            forall|k: Seq<char>| #[trigger] map.spec_get(k) is Some ==> binds(ws, k),
        decreases mids.len() - i,
    {
        let member = match fon_member(r, mids[i]) {
            Some(mb) => mb,
            None => {
                proof {
                    lemma_lower_members_error(m, mids@, i as nat, fuel as nat, nested);
                }
                return Err(
                    if nested {
                        CoreError::InvalidNestedMemberReference
                    } else {
                        CoreError::InvalidMemberReference
                    },
                );
            },
        };
        let (key, vid) = match member {
            SyntaxMember::Binding(key, vid) => (key, vid),
            _ => {
                proof {
                    lemma_lower_members_error(m, mids@, i as nat, fuel as nat, nested);
                }
                return Err(
                    if nested {
                        CoreError::NestedTypeDeclaration
                    } else {
                        CoreError::TypeDeclarationInData
                    },
                );
            },
        };
        let v = match lower_value(r, vid, fuel) {
            Ok(v) => v,
            Err(e) => {
                proof {
                    lemma_lower_members_error(m, mids@, i as nat, fuel as nat, nested);
                }
                return Err(e);
            },
        };
        let ghost w = lower(m, vid, fuel as nat)->Ok_0;
        let ghost key_view = key@;
        let duplicate = key.clone();
        let previous = map.insert(key, v);
        if previous.is_some() {
            proof {
                assert(binds(ws, key_view));
                lemma_lower_members_error(m, mids@, i as nat, fuel as nat, nested);
            }
            return Err(CoreError::DuplicateField(duplicate));
        }
        proof {
            assert forall|j: int| 0 <= j < ws.len() implies ws[j].0 != key_view by {
                if ws[j].0 == key_view {
                    assert(map.spec_get(ws[j].0) is Some);
                }
            }
            let next = ws.push((key_view, w));
            assert forall|a: int, b: int| 0 <= a < b < next.len() implies (#[trigger] next[a]).0
                != (#[trigger] next[b]).0 by {
                if b < ws.len() {
                    assert(next[a] == ws[a] && next[b] == ws[b]);
                }
            }
            assert forall|j: int| 0 <= j < next.len() implies (#[trigger] map.spec_get(
                next[j].0,
            ) matches Some(x) && models(x, next[j].1)) by {
                if j < ws.len() {
                    assert(next[j] == ws[j]);
                }
            }
            assert forall|k: Seq<char>| #[trigger] map.spec_get(k) is Some implies binds(next, k) by {
                if k != key_view {
                    let q = choose|q: int| 0 <= q < ws.len() && (#[trigger] ws[q]).0 == k;
                    assert(next[q] == ws[q]);
                } else {
                    assert(next[ws.len() as int].0 == k);
                }
            }
            ws = next;
        }
        i = i + 1;
    }
    map.lemma_sorted();
    Ok(map)
}

proof fn lemma_lower_members_error(m: FonModel, mids: Seq<u32>, k: nat, fuel: nat, nested: bool)
    requires
        k < mids.len(),
        lower_members(m, mids, k, fuel, nested) is Ok,
        lower_members(m, mids, (k + 1) as nat, fuel, nested) is Err,
    ensures
        lower_members(m, mids, mids.len(), fuel, nested) == lower_members(
            m,
            mids,
            (k + 1) as nat,
            fuel,
            nested,
        ),
    decreases mids.len() - k,
{
    lemma_lower_members_error_from(m, mids, (k + 1) as nat, mids.len(), fuel, nested);
}

proof fn lemma_lower_members_error_from(
    m: FonModel,
    mids: Seq<u32>,
    k: nat,
    n: nat,
    fuel: nat,
    nested: bool,
)
    requires
        k <= n <= mids.len(),
        lower_members(m, mids, k, fuel, nested) is Err,
    ensures
        lower_members(m, mids, n, fuel, nested) == lower_members(m, mids, k, fuel, nested),
    decreases n,
{
    if n > k {
        lemma_lower_members_error_from(m, mids, k, (n - 1) as nat, fuel, nested);
    }
}

/// Convert one FON source document into the supported object or array runtime value.
pub fn parse_root_value(source: &str, path: &str) -> (res: Result<RuntimeValue, CoreError>)
    ensures
        match res {
            Ok(v) => root_value(fon_parse_of(source@), path@) matches Ok(w) && models(v, w),
            Err(e) => root_value(fon_parse_of(source@), path@) == Err::<ValueView, CoreFault>(e@),
        },
{
    let result = fon_parse(source);
    if fon_has_errors(&result) {
        return Err(CoreError::InvalidFon(path.to_owned()));
    }
    match fon_root(&result) {
        SyntaxRoot::Array(ids) => match lower_item_list(&result, &ids, u64::MAX) {
            Ok(vs) => Ok(RuntimeValue::Array(vs)),
            Err(e) => Err(e),
        },
        SyntaxRoot::Object(mids) => match lower_member_list(&result, &mids, u64::MAX, false) {
            Ok(map) => Ok(RuntimeValue::Object(map)),
            Err(e) => Err(e),
        },
        SyntaxRoot::Unsupported => Err(CoreError::NoSupportedRoot(path.to_owned())),
    }
}

} // verus!
