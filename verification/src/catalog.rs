//! The site catalog: the mapping index, the sitemap rows and the content
//! envelopes, and the pages they materialize.
use vstd::prelude::*;

use crate::document::{
    SearchDocument, content_hash_of, document_id_of, mapping_id_of, opt_string_view, stable_mapping_id,
};
use crate::error::{CoreError, CoreFault};
use crate::pattern::{
    PatternFault, canonical, canonical_pattern, distinct_names, law_canonical_pattern_idempotent,
    placeholder_names, placeholders, strings_view,
};
use crate::syntax::{
    FonModel, SyntaxMember, SyntaxRoot, SyntaxValue, fon_has_errors, fon_member, fon_parse,
    fon_parse_of, fon_root, fon_schema, fon_value, parse_contents,
};
use crate::pattern::{expand_from, expand_pattern, expansion, lemma_expand_from_congruent};
use crate::syntax::{parse_root_value, root_value};
use crate::text::{chars_eq, chars_of, copy_range, string_of, trim};
use crate::title::{choose_title, title_for};
use crate::value::{
    ObjectMap, RuntimeValue, ValueView, debug_text, field_of, lemma_models_field,
    lemma_models_text, lemma_view_debug_text, models, scalar_text, unquoted, view_debug_text,
    view_text,
};

verus! {

/// Describes one pattern-to-sitemap mapping declared by the site.
#[derive(Debug, Clone)]
pub struct MappingSpec {
    /// Internal key derived from the canonical pattern; never read from FON.
    pub mapping_id: String,
    pub pattern: String,
    /// The site path of the mapping's sitemap bindings.
    pub datas: String,
}

/// Contains the finite pages materialized from all submitted mappings.
#[derive(Debug, Clone)]
pub struct LoadedCatalog {
    pub mappings: Vec<MappingSpec>,
    pub pages: Vec<SearchDocument>,
}

/// The member key `pattern`.
pub open spec fn pattern_key() -> Seq<char> {
    seq!['p', 'a', 't', 't', 'e', 'r', 'n']
}

/// The member key `params`.
pub open spec fn params_key() -> Seq<char> {
    seq!['p', 'a', 'r', 'a', 'm', 's']
}

/// The member key `datas`.
pub open spec fn datas_key() -> Seq<char> {
    seq!['d', 'a', 't', 'a', 's']
}

/// The key text of a member (`Ast::member_key_text`): the key of a binding
/// or the name of a type declaration.
pub open spec fn member_key(m: FonModel, mid: u32) -> Option<Seq<char>> {
    if mid >= m.members.len() {
        None
    } else {
        match m.members[mid as int] {
            SyntaxMember::Binding(k, _) => Some(k@),
            SyntaxMember::TypeDeclaration(n) => Some(n@),
            SyntaxMember::Error => None,
        }
    }
}

/// The first member, in order, whose key is missing or not one of the
/// three mapping fields, as the error it raises.
pub open spec fn first_bad_key(m: FonModel, mids: Seq<u32>) -> Option<CoreFault>
    decreases mids.len(),
{
    if mids.len() == 0 {
        None
    } else {
        match member_key(m, mids[0]) {
            None => Some(CoreFault::InvalidMappingMember),
            Some(k) => if k == pattern_key() || k == params_key() || k == datas_key() {
                first_bad_key(m, mids.drop_first())
            } else {
                Some(CoreFault::UnsupportedMappingField(k))
            },
        }
    }
}

/// The value of the first member that binds `name` to a value of the
/// table (`object_field_value`).
pub open spec fn field_value(m: FonModel, mids: Seq<u32>, name: Seq<char>) -> Option<SyntaxValue>
    decreases mids.len(),
{
    if mids.len() == 0 {
        None
    } else {
        let mid = mids[0];
        let here = if mid < m.members.len() {
            match m.members[mid as int] {
                SyntaxMember::Binding(k, vid) => if k@ == name && vid < m.values.len() {
                    Some(m.values[vid as int])
                } else {
                    None
                },
                _ => None,
            }
        } else {
            None
        };
        match here {
            Some(v) => Some(v),
            None => field_value(m, mids.drop_first(), name),
        }
    }
}

/// A string field (`object_string_field`).
pub open spec fn string_field(m: FonModel, mids: Seq<u32>, name: Seq<char>) -> Result<
    Option<Seq<char>>,
    CoreFault,
> {
    match field_value(m, mids, name) {
        None => Ok(None),
        Some(SyntaxValue::Str(raw, _)) => Ok(Some(unquoted(raw@))),
        Some(_) => Err(CoreFault::FieldNotString(name)),
    }
}

/// A path or string field (`object_path_field`).
pub open spec fn path_field(m: FonModel, mids: Seq<u32>, name: Seq<char>) -> Result<
    Option<Seq<char>>,
    CoreFault,
> {
    match field_value(m, mids, name) {
        None => Ok(None),
        Some(SyntaxValue::Unknown(raw)) => Ok(Some(raw@)),
        Some(SyntaxValue::Str(raw, _)) => Ok(Some(unquoted(raw@))),
        Some(_) => Err(CoreFault::FieldNotPathOrString(name)),
    }
}

/// `a` and `b` hold the same names.
pub open spec fn same_names(a: Seq<Seq<char>>, b: Seq<Seq<char>>) -> bool {
    (forall|i: int| 0 <= i < a.len() ==> b.contains(#[trigger] a[i])) && (forall|j: int|
        0 <= j < b.len() ==> a.contains(#[trigger] b[j]))
}

/// The schema checks of a mapping's `params`, once its canonical pattern
/// has the placeholders `names`.
pub open spec fn params_check(m: FonModel, params: SyntaxValue, names: Seq<Seq<char>>) -> Option<
    CoreFault,
> {
    match params {
        SyntaxValue::Schema(is_struct, sid) => if !is_struct {
            Some(CoreFault::ParamsNotStructSchema)
        } else if sid >= m.schemas.len() {
            Some(CoreFault::InvalidParamsSchema)
        } else {
            let fields = strings_view(m.schemas[sid as int].fields@);
            if !distinct_names(fields) {
                Some(CoreFault::DuplicateParamsFields)
            } else if !same_names(fields, names) {
                Some(CoreFault::ParamsMismatch)
            } else {
                None
            }
        },
        _ => Some(CoreFault::ParamsNotStructSchema),
    }
}

/// One entry of the mapping index: its canonical pattern and its sitemap
/// path, or the first error it raises.
pub open spec fn mapping_entry(m: FonModel, item: u32) -> Result<(Seq<char>, Seq<char>), CoreFault> {
    if item >= m.values.len() {
        Err(CoreFault::InvalidMappingValue)
    } else {
        match m.values[item as int] {
            SyntaxValue::Object(mids) => match first_bad_key(m, mids@) {
                Some(e) => Err(e),
                None => match string_field(m, mids@, pattern_key()) {
                    Err(e) => Err(e),
                    Ok(None) => Err(CoreFault::PatternRequired),
                    Ok(Some(raw)) => match canonical(raw) {
                        Err(e) => Err(CoreFault::Pattern(e)),
                        Ok(p) => match path_field(m, mids@, datas_key()) {
                            Err(e) => Err(e),
                            Ok(None) => Err(CoreFault::DatasRequired),
                            Ok(Some(d)) => match field_value(m, mids@, params_key()) {
                                None => Err(CoreFault::ParamsRequired),
                                Some(params) => match placeholders(p) {
                                    Err(e) => Err(CoreFault::Pattern(e)),
                                    Ok(names) => match params_check(m, params, names) {
                                        Some(e) => Err(e),
                                        None => Ok((p, d)),
                                    },
                                },
                            },
                        },
                    },
                },
            },
            _ => Err(CoreFault::MappingNotObject),
        }
    }
}

/// `list` already holds the pattern `p`.
pub open spec fn has_pattern(list: Seq<(Seq<char>, Seq<char>)>, p: Seq<char>) -> bool {
    exists|i: int| 0 <= i < list.len() && (#[trigger] list[i]).0 == p
}

/// The entries of the first `k` items, in order, or the first error.
pub open spec fn mapping_list(m: FonModel, ids: Seq<u32>, k: nat) -> Result<
    Seq<(Seq<char>, Seq<char>)>,
    CoreFault,
>
    decreases k,
{
    if k == 0 || k > ids.len() {
        Ok(seq![])
    } else {
        match mapping_list(m, ids, (k - 1) as nat) {
            Err(e) => Err(e),
            Ok(prev) => match mapping_entry(m, ids[k - 1]) {
                Err(e) => Err(e),
                Ok(entry) => if has_pattern(prev, entry.0) {
                    Err(CoreFault::DuplicatePattern)
                } else {
                    Ok(prev.push(entry))
                },
            },
        }
    }
}

/// What `parse_mappings` yields for a source text read from `path`.
pub open spec fn mappings_of(source: Seq<char>, path: Seq<char>) -> Result<
    Seq<(Seq<char>, Seq<char>)>,
    CoreFault,
> {
    let m = fon_parse_of(source);
    if m.has_errors {
        Err(CoreFault::InvalidMappingFon(path))
    } else {
        match m.root {
            SyntaxRoot::Array(ids) => mapping_list(m, ids@, ids@.len()),
            _ => Err(CoreFault::NotRootArray(path)),
        }
    }
}

proof fn lemma_mapping_list_error(m: FonModel, ids: Seq<u32>, k: nat, n: nat)
    requires
        k <= n <= ids.len(),
        mapping_list(m, ids, k) is Err,
    ensures
        mapping_list(m, ids, n) == mapping_list(m, ids, k),
    decreases n,
{
    if n > k {
        lemma_mapping_list_error(m, ids, k, (n - 1) as nat);
    }
}

fn is_mapping_key(k: &[char]) -> (b: bool)
    ensures
        b == (k@ == pattern_key() || k@ == params_key() || k@ == datas_key()),
{
    let p = ['p', 'a', 't', 't', 'e', 'r', 'n'];
    let q = ['p', 'a', 'r', 'a', 'm', 's'];
    let d = ['d', 'a', 't', 'a', 's'];
    assert(p@ == pattern_key());
    assert(q@ == params_key());
    assert(d@ == datas_key());
    chars_eq(k, &p) || chars_eq(k, &q) || chars_eq(k, &d)
}

fn check_keys(r: &fon_parser::ParseResult, mids: &Vec<u32>) -> (res: Result<(), CoreError>)
    ensures
        match res {
            Ok(_) => first_bad_key(parse_contents(*r), mids@) is None,
            Err(e) => first_bad_key(parse_contents(*r), mids@) == Some(e@),
        },
{
    let ghost m = parse_contents(*r);
    let mut i: usize = 0;
    assert(mids@.skip(0) == mids@);
    while i < mids.len()
        invariant
            0 <= i <= mids.len(),
            m == parse_contents(*r),
            first_bad_key(m, mids@) == first_bad_key(m, mids@.skip(i as int)),
        decreases mids.len() - i,
    {
        let ghost rest = mids@.skip(i as int);
        assert(rest[0] == mids@[i as int]);
        assert(rest.drop_first() == mids@.skip(i + 1));
        let key = match fon_member(r, mids[i]) {
            Some(SyntaxMember::Binding(k, _)) => k,
            Some(SyntaxMember::TypeDeclaration(n)) => n,
            _ => {
                return Err(CoreError::InvalidMappingMember);
            },
        };
        let kc = chars_of(key.as_str());
        if !is_mapping_key(kc.as_slice()) {
            return Err(CoreError::UnsupportedMappingField(key));
        }
        i = i + 1;
    }
    assert(mids@.skip(i as int).len() == 0);
    Ok(())
}

pub(crate) fn field_value_of(r: &fon_parser::ParseResult, mids: &Vec<u32>, name: &[char]) -> (v: Option<
    SyntaxValue,
>)
    ensures
        v == field_value(parse_contents(*r), mids@, name@),
{
    let ghost m = parse_contents(*r);
    let mut i: usize = 0;
    assert(mids@.skip(0) == mids@);
    while i < mids.len()
        invariant
            0 <= i <= mids.len(),
            m == parse_contents(*r),
            field_value(m, mids@, name@) == field_value(m, mids@.skip(i as int), name@),
        decreases mids.len() - i,
    {
        let ghost rest = mids@.skip(i as int);
        assert(rest[0] == mids@[i as int]);
        assert(rest.drop_first() == mids@.skip(i + 1));
        match fon_member(r, mids[i]) {
            Some(SyntaxMember::Binding(k, vid)) => {
                let kc = chars_of(k.as_str());
                if chars_eq(kc.as_slice(), name) {
                    match fon_value(r, vid) {
                        Some(x) => {
                            return Some(x);
                        },
                        None => {},
                    }
                }
            },
            _ => {},
        }
        i = i + 1;
    }
    assert(mids@.skip(i as int).len() == 0);
    None
}

pub(crate) fn string_field_of(r: &fon_parser::ParseResult, mids: &Vec<u32>, name: &[char]) -> (res: Result<
    Option<String>,
    CoreError,
>)
    ensures
        match res {
            Ok(o) => string_field(parse_contents(*r), mids@, name@) == Ok::<
                Option<Seq<char>>,
                CoreFault,
            >(opt_string_view(o)),
            Err(e) => string_field(parse_contents(*r), mids@, name@) == Err::<
                Option<Seq<char>>,
                CoreFault,
            >(e@),
        },
{
    match field_value_of(r, mids, name) {
        None => Ok(None),
        Some(SyntaxValue::Str(raw, _)) => Ok(Some(crate::value::unquote_string(raw.as_str()))),
        Some(_) => Err(CoreError::FieldNotString(string_of(name))),
    }
}

pub(crate) fn path_field_of(r: &fon_parser::ParseResult, mids: &Vec<u32>, name: &[char]) -> (res: Result<
    Option<String>,
    CoreError,
>)
    ensures
        match res {
            Ok(o) => path_field(parse_contents(*r), mids@, name@) == Ok::<
                Option<Seq<char>>,
                CoreFault,
            >(opt_string_view(o)),
            Err(e) => path_field(parse_contents(*r), mids@, name@) == Err::<
                Option<Seq<char>>,
                CoreFault,
            >(e@),
        },
{
    match field_value_of(r, mids, name) {
        None => Ok(None),
        Some(SyntaxValue::Unknown(raw)) => Ok(Some(raw)),
        Some(SyntaxValue::Str(raw, _)) => Ok(Some(crate::value::unquote_string(raw.as_str()))),
        Some(_) => Err(CoreError::FieldNotPathOrString(string_of(name))),
    }
}

fn names_distinct(fs: &Vec<String>) -> (b: bool)
    ensures
        b == distinct_names(strings_view(fs@)),
{
    let ghost v = strings_view(fs@);
    let mut j: usize = 0;
    while j < fs.len()
        invariant
            0 <= j <= fs.len(),
            v == strings_view(fs@),
            forall|a: int, b: int| 0 <= a < b < j ==> v[a] != v[b],
        decreases fs.len() - j,
    {
        let mut i: usize = 0;
        while i < j
            invariant
                0 <= i <= j < fs.len(),
                v == strings_view(fs@),
                forall|a: int, b: int| 0 <= a < b < j ==> v[a] != v[b],
                forall|a: int| 0 <= a < i ==> v[a] != v[j as int],
            decreases j - i,
        {
            if fs[i] == fs[j] {
                assert(v[i as int] == v[j as int]);
                return false;
            }
            i = i + 1;
        }
        j = j + 1;
    }
    true
}

fn contains_name(names: &Vec<String>, x: &String) -> (b: bool)
    ensures
        b == strings_view(names@).contains(x@),
{
    let ghost v = strings_view(names@);
    let mut i: usize = 0;
    while i < names.len()
        invariant
            0 <= i <= names.len(),
            v == strings_view(names@),
            forall|a: int| 0 <= a < i ==> v[a] != x@,
        decreases names.len() - i,
    {
        if names[i] == *x {
            assert(v[i as int] == x@);
            return true;
        }
        i = i + 1;
    }
    false
}

fn all_contained(a: &Vec<String>, b: &Vec<String>) -> (r: bool)
    ensures
        r == (forall|i: int|
            0 <= i < a@.len() ==> strings_view(b@).contains(#[trigger] strings_view(a@)[i])),
{
    let mut i: usize = 0;
    while i < a.len()
        invariant
            0 <= i <= a.len(),
            forall|k: int| 0 <= k < i ==> strings_view(b@).contains(#[trigger] strings_view(a@)[k]),
        decreases a.len() - i,
    {
        if !contains_name(b, &a[i]) {
            assert(strings_view(a@)[i as int] == a@[i as int]@);
            return false;
        }
        i = i + 1;
    }
    true
}

fn check_params(r: &fon_parser::ParseResult, params: SyntaxValue, names: &Vec<String>) -> (res:
    Result<(), CoreError>)
    ensures
        match res {
            Ok(_) => params_check(parse_contents(*r), params, strings_view(names@)) is None,
            Err(e) => params_check(parse_contents(*r), params, strings_view(names@)) == Some(e@),
        },
{
    match params {
        SyntaxValue::Schema(is_struct, sid) => {
            if !is_struct {
                return Err(CoreError::ParamsNotStructSchema);
            }
            let schema = match fon_schema(r, sid) {
                Some(s) => s,
                None => {
                    return Err(CoreError::InvalidParamsSchema);
                },
            };
            if !names_distinct(&schema.fields) {
                return Err(CoreError::DuplicateParamsFields);
            }
            if !all_contained(&schema.fields, names) || !all_contained(names, &schema.fields) {
                return Err(CoreError::ParamsMismatch);
            }
            Ok(())
        },
        _ => Err(CoreError::ParamsNotStructSchema),
    }
}

fn mapping_entry_of(r: &fon_parser::ParseResult, item: u32) -> (res: Result<(String, String), CoreError>)
    ensures
        match res {
            Ok(e) => mapping_entry(parse_contents(*r), item) == Ok::<
                (Seq<char>, Seq<char>),
                CoreFault,
            >((e.0@, e.1@)),
            Err(e) => mapping_entry(parse_contents(*r), item) == Err::<
                (Seq<char>, Seq<char>),
                CoreFault,
            >(e@),
        },
{
    let mids = match fon_value(r, item) {
        None => {
            return Err(CoreError::InvalidMappingValue);
        },
        Some(SyntaxValue::Object(mids)) => mids,
        Some(_) => {
            return Err(CoreError::MappingNotObject);
        },
    };
    match check_keys(r, &mids) {
        Ok(_) => {},
        Err(e) => {
            return Err(e);
        },
    }
    let pk = ['p', 'a', 't', 't', 'e', 'r', 'n'];
    let qk = ['p', 'a', 'r', 'a', 'm', 's'];
    let dk = ['d', 'a', 't', 'a', 's'];
    assert(pk@ == pattern_key());
    assert(qk@ == params_key());
    assert(dk@ == datas_key());
    let raw = match string_field_of(r, &mids, &pk) {
        Err(e) => {
            return Err(e);
        },
        Ok(None) => {
            return Err(CoreError::PatternRequired);
        },
        Ok(Some(raw)) => raw,
    };
    let pattern = match canonical_pattern(raw.as_str()) {
        Err(e) => {
            return Err(CoreError::Pattern(e));
        },
        Ok(p) => p,
    };
    let datas = match path_field_of(r, &mids, &dk) {
        Err(e) => {
            return Err(e);
        },
        Ok(None) => {
            return Err(CoreError::DatasRequired);
        },
        Ok(Some(d)) => d,
    };
    let params = match field_value_of(r, &mids, &qk) {
        None => {
            return Err(CoreError::ParamsRequired);
        },
        Some(v) => v,
    };
    let names = match placeholder_names(pattern.as_str()) {
        Err(e) => {
            return Err(CoreError::Pattern(e));
        },
        Ok(n) => n,
    };
    match check_params(r, params, &names) {
        Err(e) => {
            return Err(e);
        },
        Ok(_) => {},
    }
    Ok((pattern, datas))
}

/// Parse and semantically inspect the mapping index while preserving schema syntax.
pub fn parse_mappings(source: &str, path: &str) -> (res: Result<Vec<MappingSpec>, CoreError>)
    ensures
        match res {
            Ok(v) => mappings_of(source@, path@) matches Ok(list) && v@.len() == list.len() && (
            forall|i: int|
                0 <= i < list.len() ==> {
                    &&& (#[trigger] v@[i]).pattern@ == list[i].0
                    &&& v@[i].datas@ == list[i].1
                    &&& v@[i].mapping_id@ == mapping_id_of(list[i].0)
                }),
            Err(e) => mappings_of(source@, path@) == Err::<Seq<(Seq<char>, Seq<char>)>, CoreFault>(
                e@,
            ),
        },
{
    let result = fon_parse(source);
    if fon_has_errors(&result) {
        return Err(CoreError::InvalidMappingFon(path.to_owned()));
    }
    let ids = match fon_root(&result) {
        SyntaxRoot::Array(ids) => ids,
        _ => {
            return Err(CoreError::NotRootArray(path.to_owned()));
        },
    };
    let ghost m = parse_contents(result);
    let mut out: Vec<MappingSpec> = Vec::new();
    let ghost mut list: Seq<(Seq<char>, Seq<char>)> = seq![];
    let mut i: usize = 0;
    while i < ids.len()
        invariant
            0 <= i <= ids.len(),
            m == parse_contents(result),
            m == fon_parse_of(source@),
            !m.has_errors,
            m.root == SyntaxRoot::Array(ids),
            mapping_list(m, ids@, i as nat) == Ok::<Seq<(Seq<char>, Seq<char>)>, CoreFault>(list),
            out@.len() == list.len(),
            forall|k: int|
                0 <= k < list.len() ==> {
                    &&& (#[trigger] out@[k]).pattern@ == list[k].0
                    &&& out@[k].datas@ == list[k].1
                    &&& out@[k].mapping_id@ == mapping_id_of(list[k].0)
                },
        decreases ids.len() - i,
    {
        let entry = mapping_entry_of(&result, ids[i]);
        let (pattern, datas) = match entry {
            Ok(e) => e,
            Err(e) => {
                proof {
                    assert(mapping_list(m, ids@, (i + 1) as nat) == Err::<
                        Seq<(Seq<char>, Seq<char>)>,
                        CoreFault,
                    >(e@));
                    lemma_mapping_list_error(m, ids@, (i + 1) as nat, ids@.len());
                }
                return Err(e);
            },
        };
        let mut j: usize = 0;
        while j < out.len()
            invariant
                0 <= j <= out.len(),
                0 <= i < ids.len(),
                m == fon_parse_of(source@),
                !m.has_errors,
                m.root == SyntaxRoot::Array(ids),
                mapping_list(m, ids@, i as nat) == Ok::<Seq<(Seq<char>, Seq<char>)>, CoreFault>(
                    list,
                ),
                mapping_entry(m, ids@[i as int]) == Ok::<(Seq<char>, Seq<char>), CoreFault>(
                    (pattern@, datas@),
                ),
                out@.len() == list.len(),
                forall|k: int| 0 <= k < list.len() ==> (#[trigger] out@[k]).pattern@ == list[k].0,
                forall|k: int| 0 <= k < j ==> (#[trigger] list[k]).0 != pattern@,
            decreases out.len() - j,
        {
            if out[j].pattern == pattern {
                proof {
                    assert(list[j as int].0 == pattern@);
                    assert(has_pattern(list, pattern@));
                    assert(mapping_list(m, ids@, (i + 1) as nat) == Err::<
                        Seq<(Seq<char>, Seq<char>)>,
                        CoreFault,
                    >(CoreFault::DuplicatePattern));
                    lemma_mapping_list_error(m, ids@, (i + 1) as nat, ids@.len());
                }
                return Err(CoreError::DuplicatePattern);
            }
            j = j + 1;
        }
        proof {
            if has_pattern(list, pattern@) {
                let k = choose|k: int| 0 <= k < list.len() && (#[trigger] list[k]).0 == pattern@;
                assert(list[k].0 != pattern@);
            }
        }
        let mapping_id = stable_mapping_id(pattern.as_str());
        let ghost entry_view = (pattern@, datas@);
        out.push(MappingSpec { mapping_id, pattern, datas });
        proof {
            list = list.push(entry_view);
        }
        i = i + 1;
    }
    Ok(out)
}

proof fn lemma_mapping_list_shape(m: FonModel, ids: Seq<u32>, k: nat)
    requires
        mapping_list(m, ids, k) is Ok,
    ensures
        ({
            let list = mapping_list(m, ids, k)->Ok_0;
            &&& forall|i: int, j: int|
                0 <= i < j < list.len() ==> (#[trigger] list[i]).0 != (#[trigger] list[j]).0
            &&& forall|i: int|
                0 <= i < list.len() ==> canonical((#[trigger] list[i]).0) == Ok::<
                    Seq<char>,
                    PatternFault,
                >(list[i].0)
        }),
    decreases k,
{
    if k > 0 && k <= ids.len() {
        lemma_mapping_list_shape(m, ids, (k - 1) as nat);
        let prev = mapping_list(m, ids, (k - 1) as nat)->Ok_0;
        let entry = mapping_entry(m, ids[k - 1])->Ok_0;
        let list = mapping_list(m, ids, k)->Ok_0;
        assert(list == prev.push(entry));
        assert forall|i: int, j: int| 0 <= i < j < list.len() implies (#[trigger] list[i]).0 != (
        #[trigger] list[j]).0 by {
            if j == list.len() - 1 {
                assert(list[i] == prev[i]);
                if prev[i].0 == entry.0 {
                    assert(has_pattern(prev, entry.0));
                }
            } else {
                assert(list[i] == prev[i] && list[j] == prev[j]);
            }
        }
        let item = ids[k - 1];
        let mids = m.values[item as int]->Object_0;
        let raw = string_field(m, mids@, pattern_key())->Ok_0->0;
        law_canonical_pattern_idempotent(raw);
        assert forall|i: int| 0 <= i < list.len() implies canonical((#[trigger] list[i]).0) == Ok::<
            Seq<char>,
            PatternFault,
        >(list[i].0) by {
            if i < list.len() - 1 {
                assert(list[i] == prev[i]);
            }
        }
    }
}

/// The mapping index never yields two mappings with one pattern, and each
/// pattern it yields is already canonical.
pub proof fn law_mapping_patterns_unique_and_canonical(source: Seq<char>, path: Seq<char>)
    requires
        mappings_of(source, path) is Ok,
    ensures
        ({
            let list = mappings_of(source, path)->Ok_0;
            &&& forall|i: int, j: int|
                0 <= i < j < list.len() ==> (#[trigger] list[i]).0 != (#[trigger] list[j]).0
            &&& forall|i: int|
                0 <= i < list.len() ==> canonical((#[trigger] list[i]).0) == Ok::<
                    Seq<char>,
                    PatternFault,
                >(list[i].0)
        }),
{
    let m = fon_parse_of(source);
    let ids = m.root->Array_0;
    lemma_mapping_list_shape(m, ids@, ids@.len());
}

} // verus!

verus! {

/// `p` starts with a current-directory component: `.` alone or `./`.
pub open spec fn starts_cur_dir(p: Seq<char>) -> bool {
    p.len() >= 1 && p[0] == '.' && (p.len() == 1 || p[1] == '/')
}

/// `s` without its leading empty and `.` components.
pub open spec fn drop_front_dots(s: Seq<char>) -> Seq<char>
    decreases s.len(),
{
    if s.len() > 0 && s[0] == '/' {
        drop_front_dots(s.drop_first())
    } else if s.len() == 1 && s[0] == '.' {
        seq![]
    } else if s.len() >= 2 && s[0] == '.' && s[1] == '/' {
        drop_front_dots(s.skip(2))
    } else {
        s
    }
}

/// `s` without its trailing empty and `.` components.
pub open spec fn drop_back_dots(s: Seq<char>) -> Seq<char>
    decreases s.len(),
{
    if s.len() > 0 && s.last() == '/' {
        drop_back_dots(s.drop_last())
    } else if s.len() == 1 && s[0] == '.' {
        seq![]
    } else if s.len() >= 2 && s.last() == '.' && s[s.len() - 2] == '/' {
        drop_back_dots(s.take(s.len() - 2))
    } else {
        s
    }
}

/// The path relative to the site root: a leading `./` component is
/// stripped as `Path::strip_prefix` strips it, with the empty and `.`
/// components around what remains.
pub open spec fn site_relative(p: Seq<char>) -> Seq<char> {
    if starts_cur_dir(p) {
        drop_back_dots(drop_front_dots(p.drop_first()))
    } else {
        p
    }
}

/// `s` has a `..` component.
pub open spec fn has_parent_component(s: Seq<char>) -> bool {
    exists|i: int|
        0 <= i && i + 2 <= s.len() && #[trigger] s[i] == '.' && s[i + 1] == '.' && (i == 0 || s[i
            - 1] == '/') && (i + 2 == s.len() || s[i + 2] == '/')
}

/// `root` joined with the relative path `rel` (`Path::join`).
pub open spec fn joined(root: Seq<char>, rel: Seq<char>) -> Seq<char> {
    if root.len() > 0 && root.last() != '/' {
        root + seq!['/'] + rel
    } else {
        root + rel
    }
}

/// What `resolve_site_path` yields.
pub open spec fn site_path(root: Seq<char>, path: Seq<char>) -> Result<Seq<char>, CoreFault> {
    let rel = site_relative(path);
    if (rel.len() > 0 && rel[0] == '/') || has_parent_component(rel) {
        Err(CoreFault::UnsafeSitePath(path))
    } else {
        Ok(joined(root, rel))
    }
}

fn front_dots_end(s: &[char]) -> (r: usize)
    ensures
        r <= s.len(),
        drop_front_dots(s@) == s@.skip(r as int),
{
    let mut i: usize = 0;
    assert(s@.skip(0) == s@);
    loop
        invariant
            0 <= i <= s.len(),
            drop_front_dots(s@) == drop_front_dots(s@.skip(i as int)),
        decreases s.len() - i,
    {
        let ghost rest = s@.skip(i as int);
        if i < s.len() && s[i] == '/' {
            assert(rest.drop_first() == s@.skip(i + 1));
            i = i + 1;
        } else if i < s.len() && i + 1 == s.len() && s[i] == '.' {
            assert(drop_front_dots(rest) == Seq::<char>::empty());
            assert(s@.skip(s.len() as int) == Seq::<char>::empty());
            return s.len();
        } else if i < s.len() && s[i] == '.' && i + 1 < s.len() && s[i + 1] == '/' {
            assert(rest.skip(2) == s@.skip(i + 2));
            i = i + 2;
        } else {
            return i;
        }
    }
}

fn back_dots_end(s: &[char]) -> (r: usize)
    ensures
        r <= s.len(),
        drop_back_dots(s@) == s@.take(r as int),
{
    let mut end: usize = s.len();
    assert(s@.take(s.len() as int) == s@);
    loop
        invariant
            0 <= end <= s.len(),
            drop_back_dots(s@) == drop_back_dots(s@.take(end as int)),
        decreases end,
    {
        let ghost part = s@.take(end as int);
        if end > 0 && s[end - 1] == '/' {
            assert(part.drop_last() == s@.take(end - 1));
            end = end - 1;
        } else if end == 1 && s[0] == '.' {
            assert(drop_back_dots(part) == Seq::<char>::empty());
            assert(s@.take(0) == Seq::<char>::empty());
            return 0;
        } else if end >= 2 && s[end - 1] == '.' && s[end - 2] == '/' {
            assert(part.take(part.len() - 2) == s@.take(end - 2));
            end = end - 2;
        } else {
            return end;
        }
    }
}

/// Whether `s` has a `..` component.
pub fn parent_component(s: &[char]) -> (b: bool)
    ensures
        b == has_parent_component(s@),
{
    if s.len() < 2 {
        return false;
    }
    let mut i: usize = 0;
    while i <= s.len() - 2
        invariant
            s.len() >= 2,
            0 <= i <= s.len() - 1,
            forall|j: int|
                0 <= j < i && j + 2 <= s@.len() ==> !(#[trigger] s@[j] == '.' && s@[j + 1] == '.'
                    && (j == 0 || s@[j - 1] == '/') && (j + 2 == s@.len() || s@[j + 2] == '/')),
        decreases s.len() - i,
    {
        if s[i] == '.' && s[i + 1] == '.' && (i == 0 || s[i - 1] == '/') && (i + 2 == s.len()
            || s[i + 2] == '/') {
            return true;
        }
        i = i + 1;
    }
    false
}

/// Resolve a site path below the site root, refusing absolute paths and
/// paths that climb out of the root.
pub fn resolve_site_path(root: &str, path: &str) -> (res: Result<String, CoreError>)
    ensures
        match res {
            Ok(p) => site_path(root@, path@) == Ok::<Seq<char>, CoreFault>(p@),
            Err(e) => site_path(root@, path@) == Err::<Seq<char>, CoreFault>(e@),
        },
{
    let pc = chars_of(path);
    let rel: Vec<char> = if pc.len() >= 1 && pc[0] == '.' && (pc.len() == 1 || pc[1] == '/') {
        let tail = copy_range(pc.as_slice(), 1, pc.len());
        assert(tail@ == pc@.drop_first());
        let a = front_dots_end(tail.as_slice());
        let mid = copy_range(tail.as_slice(), a, tail.len());
        assert(mid@ == tail@.skip(a as int));
        let b = back_dots_end(mid.as_slice());
        let out = copy_range(mid.as_slice(), 0, b);
        assert(out@ == mid@.take(b as int));
        out
    } else {
        pc
    };
    assert(rel@ == site_relative(path@));
    if (rel.len() > 0 && rel[0] == '/') || parent_component(rel.as_slice()) {
        return Err(CoreError::UnsafeSitePath(path.to_owned()));
    }
    let rc = chars_of(root);
    let mut out: Vec<char> = Vec::new();
    crate::text::append_chars(&mut out, rc.as_slice());
    if rc.len() > 0 && rc[rc.len() - 1] != '/' {
        out.push('/');
    }
    crate::text::append_chars(&mut out, rel.as_slice());
    assert(out@ == joined(root@, rel@));
    Ok(string_of(out.as_slice()))
}

/// What `parse_sitemap_rows` yields: the items of a root array.
pub open spec fn sitemap_rows(source: Seq<char>, path: Seq<char>) -> Result<Seq<ValueView>, CoreFault> {
    match root_value(fon_parse_of(source), path) {
        Err(e) => Err(e),
        Ok(ValueView::Array(ws)) => Ok(ws),
        Ok(_) => Err(CoreFault::NotRootArray(path)),
    }
}

/// Parse a finite sitemap binding file without fetching or executing its content.
pub fn parse_sitemap_rows(source: &str, path: &str) -> (res: Result<Vec<RuntimeValue>, CoreError>)
    ensures
        match res {
            Ok(rows) => sitemap_rows(source@, path@) matches Ok(ws) && models(
                RuntimeValue::Array(rows),
                ValueView::Array(ws),
            ),
            Err(e) => sitemap_rows(source@, path@) == Err::<Seq<ValueView>, CoreFault>(e@),
        },
{
    match parse_root_value(source, path) {
        Err(e) => Err(e),
        Ok(RuntimeValue::Array(rows)) => Ok(rows),
        Ok(_) => Err(CoreError::NotRootArray(path.to_owned())),
    }
}

/// The member key `content`.
pub open spec fn content_key() -> Seq<char> {
    seq!['c', 'o', 'n', 't', 'e', 'n', 't']
}

/// The member key `title`.
pub open spec fn title_key() -> Seq<char> {
    seq!['t', 'i', 't', 'l', 'e']
}

/// The member key `images`.
pub open spec fn images_key() -> Seq<char> {
    seq!['i', 'm', 'a', 'g', 'e', 's']
}

/// The member key `graph`.
pub open spec fn graph_key() -> Seq<char> {
    seq!['g', 'r', 'a', 'p', 'h']
}

/// The member key `updated-at`.
pub open spec fn updated_key() -> Seq<char> {
    seq!['u', 'p', 'd', 'a', 't', 'e', 'd', '-', 'a', 't']
}

/// Where a sitemap row points for its content (`row.content`).
pub open spec fn row_content(row: RuntimeValue) -> Result<Seq<char>, CoreFault> {
    match row {
        RuntimeValue::Object(obj) => match obj.spec_get(content_key()) {
            Some(x) => if scalar_text(x).len() > 0 {
                Ok(scalar_text(x))
            } else {
                Err(CoreFault::RowContentRequired)
            },
            None => Err(CoreFault::RowContentRequired),
        },
        _ => Err(CoreFault::RowNotObject),
    }
}

/// The content reference of a sitemap row: its `content` field as text,
/// which must not be empty.
pub fn row_content_reference(row: &RuntimeValue) -> (res: Result<String, CoreError>)
    ensures
        match res {
            Ok(s) => row_content(*row) == Ok::<Seq<char>, CoreFault>(s@),
            Err(e) => row_content(*row) == Err::<Seq<char>, CoreFault>(e@),
        },
{
    let obj = match row {
        RuntimeValue::Object(obj) => obj,
        _ => {
            return Err(CoreError::RowNotObject);
        },
    };
    let key = ['c', 'o', 'n', 't', 'e', 'n', 't'];
    assert(key@ == content_key());
    match obj.get_chars(&key) {
        Some(x) => {
            let t = x.as_string();
            if !t.as_str().is_empty() {
                Ok(t)
            } else {
                Err(CoreError::RowContentRequired)
            }
        },
        None => Err(CoreError::RowContentRequired),
    }
}

/// Parsed content envelope; image values are retained only as remote pointers.
#[derive(Debug, Clone)]
pub struct ContentPage {
    pub title: Option<String>,
    pub body: String,
    pub images: Vec<String>,
    pub graph: Option<String>,
}

/// The nonempty texts of `ws`, in order.
pub open spec fn nonempty_texts(ws: Seq<ValueView>) -> Seq<Seq<char>>
    decreases ws.len(),
{
    if ws.len() == 0 {
        seq![]
    } else if view_text(ws.last()).len() > 0 {
        nonempty_texts(ws.drop_last()).push(view_text(ws.last()))
    } else {
        nonempty_texts(ws.drop_last())
    }
}

/// The explicit title of a content envelope, where it is not blank.
pub open spec fn content_title(ws: Seq<(Seq<char>, ValueView)>) -> Option<Seq<char>> {
    match field_of(ws, title_key()) {
        Some(w) => if trim(view_text(w)).len() > 0 {
            Some(view_text(w))
        } else {
            None
        },
        None => None,
    }
}

/// The body of a content envelope, where it is not empty.
pub open spec fn content_body(ws: Seq<(Seq<char>, ValueView)>) -> Option<Seq<char>> {
    match field_of(ws, content_key()) {
        Some(w) => if view_text(w).len() > 0 {
            Some(view_text(w))
        } else {
            None
        },
        None => None,
    }
}

/// The image pointers of a content envelope: the nonempty texts of its
/// `images` array.
pub open spec fn content_images(ws: Seq<(Seq<char>, ValueView)>) -> Seq<Seq<char>> {
    match field_of(ws, images_key()) {
        Some(ValueView::Array(items)) => nonempty_texts(items),
        _ => seq![],
    }
}

/// The graph text of a content envelope: the `Debug` text of its `graph`
/// value, or nothing where it has none.
pub open spec fn content_graph(ws: Seq<(Seq<char>, ValueView)>) -> Option<Seq<char>> {
    match field_of(ws, graph_key()) {
        None => None,
        Some(w) => Some(view_debug_text(w)),
    }
}

/// `g` is the graph text of a content envelope.
pub open spec fn graph_text(ws: Seq<(Seq<char>, ValueView)>, g: Option<Seq<char>>) -> bool {
    g == content_graph(ws)
}

/// The entries of a content envelope, or why it is refused.
pub open spec fn content_entries(source: Seq<char>, path: Seq<char>) -> Result<
    Seq<(Seq<char>, ValueView)>,
    CoreFault,
> {
    match root_value(fon_parse_of(source), path) {
        Err(e) => Err(e),
        Ok(ValueView::Object(ws)) => if content_body(ws) is Some {
            Ok(ws)
        } else {
            Err(CoreFault::ContentMissing(path))
        },
        Ok(_) => Err(CoreFault::ContentNotObject(path)),
    }
}

fn texts_of(values: &[RuntimeValue], Ghost(items): Ghost<Seq<ValueView>>) -> (out: Vec<String>)
    requires
        values@.len() == items.len(),
        forall|i: int| 0 <= i < items.len() ==> models(#[trigger] values@[i], items[i]),
    ensures
        strings_view(out@) == nonempty_texts(items),
{
    let mut out: Vec<String> = Vec::new();
    let mut i: usize = 0;
    assert(items.take(0) =~= Seq::<ValueView>::empty());
    assert(strings_view(out@) =~= Seq::<Seq<char>>::empty());
    while i < values.len()
        invariant
            0 <= i <= values.len(),
            values@.len() == items.len(),
            forall|k: int| 0 <= k < items.len() ==> models(#[trigger] values@[k], items[k]),
            strings_view(out@) == nonempty_texts(items.take(i as int)),
        decreases values.len() - i,
    {
        let t = values[i].as_string();
        proof {
            lemma_models_text(values@[i as int], items[i as int]);
            assert(items.take(i + 1).drop_last() == items.take(i as int));
            assert(items.take(i + 1).last() == items[i as int]);
        }
        if !t.as_str().is_empty() {
            let ghost before = out@;
            out.push(t);
            assert(strings_view(out@) =~= strings_view(before).push(t@));
        }
        i = i + 1;
    }
    assert(items.take(values.len() as int) == items);
    out
}

/// Read the content envelope of a page: its title, body, image pointers
/// and graph.
pub fn parse_content_source(source: &str, path: &str) -> (res: Result<ContentPage, CoreError>)
    ensures
        match res {
            Ok(page) => content_entries(source@, path@) matches Ok(ws) && opt_string_view(
                page.title,
            ) == content_title(ws) && content_body(ws) == Some(page.body@) && strings_view(
                page.images@,
            ) == content_images(ws) && graph_text(ws, opt_string_view(page.graph)),
            Err(e) => content_entries(source@, path@) == Err::<
                Seq<(Seq<char>, ValueView)>,
                CoreFault,
            >(e@),
        },
{
    let value = match parse_root_value(source, path) {
        Ok(v) => v,
        Err(e) => {
            return Err(e);
        },
    };
    let ghost w = root_value(fon_parse_of(source@), path@)->Ok_0;
    let map = match value {
        RuntimeValue::Object(map) => map,
        _ => {
            return Err(CoreError::ContentNotObject(path.to_owned()));
        },
    };
    let ghost ws = w->Object_0;
    let tk = ['t', 'i', 't', 'l', 'e'];
    let ck = ['c', 'o', 'n', 't', 'e', 'n', 't'];
    let ik = ['i', 'm', 'a', 'g', 'e', 's'];
    let gk = ['g', 'r', 'a', 'p', 'h'];
    assert(tk@ == title_key());
    assert(ck@ == content_key());
    assert(ik@ == images_key());
    assert(gk@ == graph_key());
    proof {
        lemma_models_field(map, ws, title_key());
        lemma_models_field(map, ws, content_key());
        lemma_models_field(map, ws, images_key());
        lemma_models_field(map, ws, graph_key());
    }
    let title = match map.get_chars(&tk) {
        Some(x) => {
            proof {
                lemma_models_text(*x, field_of(ws, title_key())->0);
            }
            let t = x.as_string();
            let tc = chars_of(t.as_str());
            let tt = crate::text::trimmed(tc.as_slice());
            if tt.len() > 0 {
                Some(t)
            } else {
                None
            }
        },
        None => None,
    };
    let body = match map.get_chars(&ck) {
        Some(x) => {
            proof {
                lemma_models_text(*x, field_of(ws, content_key())->0);
            }
            let t = x.as_string();
            if !t.as_str().is_empty() {
                t
            } else {
                return Err(CoreError::ContentMissing(path.to_owned()));
            }
        },
        None => {
            return Err(CoreError::ContentMissing(path.to_owned()));
        },
    };
    let images = match map.get_chars(&ik) {
        Some(x) => match x.as_array() {
            Some(values) => texts_of(values, Ghost(field_of(ws, images_key())->0->Array_0)),
            None => Vec::new(),
        },
        None => Vec::new(),
    };
    assert(strings_view(images@) == content_images(ws));
    let graph = match map.get_chars(&gk) {
        Some(x) => {
            let g = debug_text(x);
            proof {
                lemma_view_debug_text(*x, field_of(ws, graph_key())->0);
            }
            Some(g)
        },
        None => None,
    };
    Ok(ContentPage { title, body, images, graph })
}

fn clone_strings(v: &Vec<String>) -> (r: Vec<String>)
    ensures
        r@ == v@,
{
    let mut r: Vec<String> = Vec::new();
    let mut i: usize = 0;
    while i < v.len()
        invariant
            0 <= i <= v.len(),
            r@ == v@.take(i as int),
        decreases v.len() - i,
    {
        r.push(v[i].clone());
        assert(v@.take(i + 1) == v@.take(i as int).push(v@[i as int]));
        i = i + 1;
    }
    assert(v@.take(v.len() as int) == v@);
    r
}

fn clone_opt(o: &Option<String>) -> (r: Option<String>)
    ensures
        r == *o,
{
    match o {
        Some(s) => Some(s.clone()),
        None => None,
    }
}

/// A bare row of an item list: a string, number, enum or unknown value
/// in place of an object.
pub open spec fn is_bare_row(row: RuntimeValue) -> bool {
    row is String || row is Number || row is Enum || row is Unknown
}

/// `m` binds `name` to `v` and no other key.
pub open spec fn binds_only(m: ObjectMap, name: Seq<char>, v: RuntimeValue) -> bool {
    forall|k: Seq<char>| #[trigger] m.spec_get(k) == if k == name {
        Some(v)
    } else {
        None
    }
}

/// The bindings that bind `name` to `v` and nothing else.
pub open spec fn sole_binding(name: Seq<char>, v: RuntimeValue) -> ObjectMap {
    choose|m: ObjectMap| binds_only(m, name, v)
}

/// The bindings of a sitemap row under `pattern`: `row.params` of an
/// object row; a bare row binds the pattern's single placeholder, where it
/// has exactly one.
pub open spec fn row_params(pattern: Seq<char>, row: RuntimeValue) -> Result<ObjectMap, CoreFault> {
    match row {
        RuntimeValue::Object(obj) => match obj.spec_get(params_key()) {
            Some(RuntimeValue::Object(p)) => Ok(p),
            _ => Err(CoreFault::RowParamsNotObject),
        },
        _ => if is_bare_row(row) {
            match placeholders(pattern) {
                Ok(names) => if names.len() == 1 {
                    Ok(sole_binding(names[0], row))
                } else {
                    Err(CoreFault::RowNotObject)
                },
                Err(_) => Err(CoreFault::RowNotObject),
            }
        } else {
            Err(CoreFault::RowNotObject)
        },
    }
}

/// Bindings that agree with the sole binding of `name` to `v` expand every
/// pattern as it does.
pub proof fn lemma_sole_binding_expands(
    m: ObjectMap,
    name: Seq<char>,
    v: RuntimeValue,
    s: Seq<char>,
    strict: bool,
)
    requires
        binds_only(m, name, v),
    ensures
        expand_from(s, m, 0, seq![seq![]], strict) == expand_from(
            s,
            sole_binding(name, v),
            0,
            seq![seq![]],
            strict,
        ),
        expansion(s, m) == expansion(s, sole_binding(name, v)),
{
    let c = sole_binding(name, v);
    assert(binds_only(c, name, v));
    assert forall|k: Seq<char>| #[trigger] m.spec_get(k) == c.spec_get(k) by {
        assert(m.spec_get(k) == (if k == name { Some(v) } else { None }));
        assert(c.spec_get(k) == (if k == name { Some(v) } else { None }));
    }
    lemma_expand_from_congruent(s, m, c, 0, seq![seq![]], strict);
    lemma_expand_from_congruent(s, m, c, 0, seq![seq![]], true);
}

/// A copy of a bare row.
fn copy_bare(row: &RuntimeValue) -> (r: RuntimeValue)
    requires
        is_bare_row(*row),
    ensures
        r == *row,
{
    match row {
        RuntimeValue::String(t) => RuntimeValue::String(t.clone()),
        RuntimeValue::Number(t) => RuntimeValue::Number(t.clone()),
        RuntimeValue::Enum(t) => RuntimeValue::Enum(t.clone()),
        RuntimeValue::Unknown(t) => RuntimeValue::Unknown(t.clone()),
        _ => RuntimeValue::Boolean(false),
    }
}

/// The bindings of a bare row under `pattern`: the row bound to the
/// pattern's single placeholder; nothing where the row is an object, not
/// bare, or the pattern has not exactly one placeholder.
pub fn bare_row_binding(pattern: &str, row: &RuntimeValue) -> (r: Option<ObjectMap>)
    ensures
        r is Some <==> (row !is Object && row_params(pattern@, *row) is Ok),
        r matches Some(m) ==> binds_only(m, placeholders(pattern@)->Ok_0[0], *row)
            && row_params(pattern@, *row) == Ok::<ObjectMap, CoreFault>(
            sole_binding(placeholders(pattern@)->Ok_0[0], *row),
        ),
{
    let bare = match row {
        RuntimeValue::String(_) | RuntimeValue::Number(_) | RuntimeValue::Enum(_)
        | RuntimeValue::Unknown(_) => true,
        _ => false,
    };
    if !bare {
        return None;
    }
    let names = match placeholder_names(pattern) {
        Ok(n) => n,
        Err(_) => {
            return None;
        },
    };
    if names.len() != 1 {
        return None;
    }
    let ghost name = names@[0]@;
    assert(strings_view(names@)[0] == name);
    let mut m = ObjectMap::new();
    proof {
        assert forall|k: Seq<char>| #[trigger] m.spec_get(k) is None by {}
    }
    m.insert(names[0].clone(), copy_bare(row));
    assert(binds_only(m, name, *row));
    Some(m)
}

/// The `updated-at` text of a sitemap row, empty where it has none.
pub open spec fn row_updated(row: RuntimeValue) -> Seq<char> {
    match row {
        RuntimeValue::Object(obj) => match obj.spec_get(updated_key()) {
            Some(x) => scalar_text(x),
            None => seq![],
        },
        _ => seq![],
    }
}

/// The URLs a row expands to and the entries of its content envelope, or
/// the first error.
pub open spec fn materialization(
    pattern: Seq<char>,
    row: RuntimeValue,
    content_source: Seq<char>,
    path: Seq<char>,
) -> Result<(Seq<Seq<char>>, Seq<(Seq<char>, ValueView)>), CoreFault> {
    match row_params(pattern, row) {
        Err(e) => Err(e),
        Ok(params) => match content_entries(content_source, path) {
            Err(e) => Err(e),
            Ok(ws) => match expansion(pattern, params) {
                Err(e) => Err(CoreFault::Pattern(e)),
                Ok(urls) => Ok((urls, ws)),
            },
        },
    }
}

/// `d` is the page of `url` for a mapping, its source, the row's
/// `updated-at` text, the content entries `ws` and the graph text `g`.
pub open spec fn is_page(
    d: SearchDocument,
    mapping: MappingSpec,
    source: Seq<char>,
    url: Seq<char>,
    updated: Seq<char>,
    ws: Seq<(Seq<char>, ValueView)>,
    g: Option<Seq<char>>,
) -> bool {
    let body = content_body(ws)->0;
    let title = title_for(content_title(ws), body);
    let images = content_images(ws);
    &&& d.mapping_id == mapping.mapping_id
    &&& d.source@ == source
    &&& d.url@ == url
    &&& d.title@ == title
    &&& d.body@ == body
    &&& d.updated_at@ == updated
    &&& strings_view(d.images@) == images
    &&& opt_string_view(d.graph) == g
    &&& d.document_id@ == document_id_of(mapping.mapping_id@, url)
    &&& d.content_hash@ == content_hash_of(title, body, updated, images, g)
    &&& d.generation == 0
}

/// Materialize one already-fetched content source for a sitemap row.
pub fn materialize_row_from_source(
    mapping: &MappingSpec,
    row: &RuntimeValue,
    source: &str,
    content_source: &str,
    display_path: &str,
) -> (res: Result<Vec<SearchDocument>, CoreError>)
    ensures
        match res {
            Ok(docs) => {
                &&& materialization(mapping.pattern@, *row, content_source@, display_path@) is Ok
                &&& content_entries(content_source@, display_path@) matches Ok(ws)
                &&& expansion(mapping.pattern@, row_params(mapping.pattern@, *row)->Ok_0) matches Ok(urls)
                &&& docs@.len() == urls.len()
                &&& forall|i: int, j: int|
                    0 <= i < urls.len() && 0 <= j < urls.len() ==> (#[trigger] docs@[i]).graph == (
                    #[trigger] docs@[j]).graph
                &&& forall|i: int|
                    0 <= i < urls.len() ==> graph_text(
                        ws,
                        opt_string_view((#[trigger] docs@[i]).graph),
                    ) && is_page(
                        docs@[i],
                        *mapping,
                        source@,
                        urls[i],
                        row_updated(*row),
                        ws,
                        opt_string_view(docs@[i].graph),
                    )
            },
            Err(e) => materialization(mapping.pattern@, *row, content_source@, display_path@)
                == Err::<(Seq<Seq<char>>, Seq<(Seq<char>, ValueView)>), CoreFault>(e@),
        },
{
    let pk = ['p', 'a', 'r', 'a', 'm', 's'];
    let uk = ['u', 'p', 'd', 'a', 't', 'e', 'd', '-', 'a', 't'];
    assert(pk@ == params_key());
    assert(uk@ == updated_key());
    let bare = bare_row_binding(mapping.pattern.as_str(), row);
    let params: &ObjectMap = match row {
        RuntimeValue::Object(obj) => match obj.get_chars(&pk) {
            Some(RuntimeValue::Object(p)) => p,
            _ => {
                return Err(CoreError::RowParamsNotObject);
            },
        },
        _ => match &bare {
            Some(m) => m,
            None => {
                return Err(CoreError::RowNotObject);
            },
        },
    };
    let updated_at = match row {
        RuntimeValue::Object(obj) => match obj.get_chars(&uk) {
            Some(x) => x.as_string(),
            None => String::new(),
        },
        _ => String::new(),
    };
    proof {
        if row is Object {
            assert(row_params(mapping.pattern@, *row) == Ok::<ObjectMap, CoreFault>(*params));
        } else {
            lemma_sole_binding_expands(
                *params,
                placeholders(mapping.pattern@)->Ok_0[0],
                *row,
                mapping.pattern@,
                true,
            );
        }
    }
    let content = match parse_content_source(content_source, display_path) {
        Ok(c) => c,
        Err(e) => {
            return Err(e);
        },
    };
    let urls = match expand_pattern(mapping.pattern.as_str(), params) {
        Ok(u) => u,
        Err(e) => {
            return Err(CoreError::Pattern(e));
        },
    };
    let ghost ws = content_entries(content_source@, display_path@)->Ok_0;
    let ghost g = opt_string_view(content.graph);
    let title = match &content.title {
        Some(t) => choose_title(Some(t.as_str()), content.body.as_str()),
        None => choose_title(None, content.body.as_str()),
    };
    let mut docs: Vec<SearchDocument> = Vec::new();
    let mut i: usize = 0;
    while i < urls.len()
        invariant
            0 <= i <= urls.len(),
            docs@.len() == i,
            content_body(ws) == Some(content.body@),
            opt_string_view(content.title) == content_title(ws),
            strings_view(content.images@) == content_images(ws),
            g == opt_string_view(content.graph),
            graph_text(ws, g),
            title@ == title_for(content_title(ws), content.body@),
            updated_at@ == row_updated(*row),
            forall|k: int| 0 <= k < i ==> (#[trigger] docs@[k]).graph == content.graph,
            forall|k: int|
                0 <= k < i ==> is_page(
                    #[trigger] docs@[k],
                    *mapping,
                    source@,
                    strings_view(urls@)[k],
                    row_updated(*row),
                    ws,
                    g,
                ),
        decreases urls.len() - i,
    {
        let d = SearchDocument::new(
            mapping.mapping_id.clone(),
            source.to_owned(),
            urls[i].clone(),
            title.clone(),
            content.body.clone(),
            updated_at.clone(),
            clone_strings(&content.images),
            clone_opt(&content.graph),
        );
        docs.push(d);
        i = i + 1;
    }
    Ok(docs)
}

} // verus!
