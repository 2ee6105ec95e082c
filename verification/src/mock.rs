//! The first, single-site catalog loader: mappings without identities,
//! lenient expansion, and pages without stable ids. It reads the same three
//! files as the engine and shares its FON lowering and content envelopes.
use vstd::prelude::*;

use crate::catalog::{
    ContentPage, content_body, content_entries, content_images, content_title, datas_key,
    bare_row_binding, field_value, graph_text, lemma_sole_binding_expands, params_key,
    parse_content_source, path_field, pattern_key, row_content, row_params, row_updated,
    string_field,
};
use crate::pattern::placeholders;
use crate::document::opt_string_view;
use crate::error::{CoreError, CoreFault};
use crate::pattern::{expand_chars, expand_from, strings_view};
use crate::syntax::{
    FonModel, SyntaxRoot, SyntaxValue, fon_has_errors, fon_parse, fon_parse_of, fon_root, fon_value,
    parse_contents,
};
use crate::text::chars_of;
pub use crate::title::choose_title;
use crate::title::title_for;
use crate::value::{ObjectMap, RuntimeValue, ValueView};

verus! {

/// Describes one pattern-to-sitemap mapping declared by the site.
#[derive(Debug, Clone)]
pub struct MappingSpec {
    pub pattern: String,
    pub datas: String,
}

/// A page materialized from one finite sitemap binding.
#[derive(Debug, Clone)]
pub struct IndexPage {
    pub url: String,
    pub title: String,
    pub body: String,
    pub updated_at: String,
    pub images: Vec<String>,
    pub graph: Option<String>,
}

/// Contains the finite pages materialized from all submitted mappings.
#[derive(Debug, Clone)]
pub struct LoadedCatalog {
    pub mappings: Vec<MappingSpec>,
    pub pages: Vec<IndexPage>,
}

/// Current index lifecycle state exposed to the console.
#[derive(Debug, Clone)]
pub struct IndexStatus {
    pub documents: usize,
    pub mappings: usize,
    pub last_rebuilt_at: String,
}

/// Result of one complete sitemap ingestion.
#[derive(Debug, Clone, Copy, PartialEq, Eq)]
pub struct RebuildReport {
    pub mappings: usize,
    pub rows: usize,
    pub documents: usize,
}

/// One entry of the mapping index: its pattern as written and its sitemap
/// path, or the first error it raises. `params` must be some schema.
pub open spec fn loose_entry(m: FonModel, item: u32) -> Result<(Seq<char>, Seq<char>), CoreFault> {
    if item >= m.values.len() {
        Err(CoreFault::InvalidMappingValue)
    } else {
        match m.values[item as int] {
            SyntaxValue::Object(mids) => match string_field(m, mids@, pattern_key()) {
                Err(e) => Err(e),
                Ok(None) => Err(CoreFault::PatternRequired),
                Ok(Some(p)) => match path_field(m, mids@, datas_key()) {
                    Err(e) => Err(e),
                    Ok(None) => Err(CoreFault::DatasRequired),
                    Ok(Some(d)) => match field_value(m, mids@, params_key()) {
                        None => Err(CoreFault::ParamsRequired),
                        Some(SyntaxValue::Schema(_, _)) => Ok((p, d)),
                        Some(_) => Err(CoreFault::ParamsNotSchema),
                    },
                },
            },
            _ => Err(CoreFault::MappingNotObject),
        }
    }
}

/// The entries of the first `k` items, in order, or the first error.
pub open spec fn loose_list(m: FonModel, ids: Seq<u32>, k: nat) -> Result<
    Seq<(Seq<char>, Seq<char>)>,
    CoreFault,
>
    decreases k,
{
    if k == 0 || k > ids.len() {
        Ok(seq![])
    } else {
        match loose_list(m, ids, (k - 1) as nat) {
            Err(e) => Err(e),
            Ok(prev) => match loose_entry(m, ids[k - 1]) {
                Err(e) => Err(e),
                Ok(entry) => Ok(prev.push(entry)),
            },
        }
    }
}

/// What `parse_mappings` of the single-site loader yields.
pub open spec fn loose_mappings_of(source: Seq<char>, path: Seq<char>) -> Result<
    Seq<(Seq<char>, Seq<char>)>,
    CoreFault,
> {
    let m = fon_parse_of(source);
    if m.has_errors {
        Err(CoreFault::InvalidMappingFon(path))
    } else {
        match m.root {
            SyntaxRoot::Array(ids) => loose_list(m, ids@, ids@.len()),
            _ => Err(CoreFault::NotRootArray(path)),
        }
    }
}

proof fn lemma_loose_list_error(m: FonModel, ids: Seq<u32>, k: nat, n: nat)
    requires
        k <= n <= ids.len(),
        loose_list(m, ids, k) is Err,
    ensures
        loose_list(m, ids, n) == loose_list(m, ids, k),
    decreases n,
{
    if n > k {
        lemma_loose_list_error(m, ids, k, (n - 1) as nat);
    }
}

fn loose_entry_of(r: &fon_parser::ParseResult, item: u32) -> (res: Result<(String, String), CoreError>)
    ensures
        match res {
            Ok(e) => loose_entry(parse_contents(*r), item) == Ok::<
                (Seq<char>, Seq<char>),
                CoreFault,
            >((e.0@, e.1@)),
            Err(e) => loose_entry(parse_contents(*r), item) == Err::<
                (Seq<char>, Seq<char>),
                CoreFault,
            >(e@),
        },
{
    let mids = match fon_value(r, item) {
        None => {
            return Err(CoreError::InvalidMappingValue);
        },
        Some(SyntaxValue::Object(mids)) => mids,
        Some(_) => {
            return Err(CoreError::MappingNotObject);
        },
    };
    let pk = ['p', 'a', 't', 't', 'e', 'r', 'n'];
    let qk = ['p', 'a', 'r', 'a', 'm', 's'];
    let dk = ['d', 'a', 't', 'a', 's'];
    assert(pk@ == pattern_key());
    assert(qk@ == params_key());
    assert(dk@ == datas_key());
    let pattern = match crate::catalog::string_field_of(r, &mids, &pk) {
        Err(e) => {
            return Err(e);
        },
        Ok(None) => {
            return Err(CoreError::PatternRequired);
        },
        Ok(Some(p)) => p,
    };
    let datas = match crate::catalog::path_field_of(r, &mids, &dk) {
        Err(e) => {
            return Err(e);
        },
        Ok(None) => {
            return Err(CoreError::DatasRequired);
        },
        Ok(Some(d)) => d,
    };
    match crate::catalog::field_value_of(r, &mids, &qk) {
        None => Err(CoreError::ParamsRequired),
        Some(SyntaxValue::Schema(_, _)) => Ok((pattern, datas)),
        Some(_) => Err(CoreError::ParamsNotSchema),
    }
}

/// Parse the mapping index, requiring of each mapping a pattern, a
/// sitemap path and a schema for its parameters.
pub fn parse_mappings(source: &str, path: &str) -> (res: Result<Vec<MappingSpec>, CoreError>)
    ensures
        match res {
            Ok(v) => loose_mappings_of(source@, path@) matches Ok(list) && v@.len() == list.len()
                && (forall|i: int|
                0 <= i < list.len() ==> (#[trigger] v@[i]).pattern@ == list[i].0 && v@[i].datas@
                    == list[i].1),
            Err(e) => loose_mappings_of(source@, path@) == Err::<
                Seq<(Seq<char>, Seq<char>)>,
                CoreFault,
            >(e@),
        },
{
    let result = fon_parse(source);
    if fon_has_errors(&result) {
        return Err(CoreError::InvalidMappingFon(path.to_owned()));
    }
    let ids = match fon_root(&result) {
        SyntaxRoot::Array(ids) => ids,
        _ => {
            return Err(CoreError::NotRootArray(path.to_owned()));
        },
    };
    let ghost m = parse_contents(result);
    let mut out: Vec<MappingSpec> = Vec::new();
    let ghost mut list: Seq<(Seq<char>, Seq<char>)> = seq![];
    let mut i: usize = 0;
    while i < ids.len()
        invariant
            0 <= i <= ids.len(),
            m == parse_contents(result),
            m == fon_parse_of(source@),
            !m.has_errors,
            m.root == SyntaxRoot::Array(ids),
            loose_list(m, ids@, i as nat) == Ok::<Seq<(Seq<char>, Seq<char>)>, CoreFault>(list),
            out@.len() == list.len(),
            forall|k: int|
                0 <= k < list.len() ==> (#[trigger] out@[k]).pattern@ == list[k].0 && out@[k].datas@
                    == list[k].1,
        decreases ids.len() - i,
    {
        let (pattern, datas) = match loose_entry_of(&result, ids[i]) {
            Ok(e) => e,
            Err(e) => {
                proof {
                    assert(loose_list(m, ids@, (i + 1) as nat) == Err::<
                        Seq<(Seq<char>, Seq<char>)>,
                        CoreFault,
                    >(e@));
                    lemma_loose_list_error(m, ids@, (i + 1) as nat, ids@.len());
                }
                return Err(e);
            },
        };
        let ghost entry = (pattern@, datas@);
        out.push(MappingSpec { pattern, datas });
        proof {
            list = list.push(entry);
        }
        i = i + 1;
    }
    Ok(out)
}

/// The content reference of a sitemap row, checked after its bindings:
/// only an object row with object bindings names its content.
pub open spec fn loose_row_content(row: RuntimeValue) -> Result<Seq<char>, CoreFault> {
    match row {
        RuntimeValue::Object(obj) => match obj.spec_get(params_key()) {
            Some(RuntimeValue::Object(_)) => row_content(row),
            _ => Err(CoreFault::RowParamsNotObject),
        },
        _ => Err(CoreFault::RowNotObject),
    }
}

/// The content reference of a sitemap row: the row must be an object with
/// bindings and a nonempty `content`.
pub fn row_content_reference(row: &RuntimeValue) -> (res: Result<String, CoreError>)
    ensures
        match res {
            Ok(s) => loose_row_content(*row) == Ok::<Seq<char>, CoreFault>(s@),
            Err(e) => loose_row_content(*row) == Err::<Seq<char>, CoreFault>(e@),
        },
{
    let obj = match row {
        RuntimeValue::Object(obj) => obj,
        _ => {
            return Err(CoreError::RowNotObject);
        },
    };
    let pk = ['p', 'a', 'r', 'a', 'm', 's'];
    assert(pk@ == params_key());
    match obj.get_chars(&pk) {
        Some(RuntimeValue::Object(_)) => {},
        _ => {
            return Err(CoreError::RowParamsNotObject);
        },
    }
    crate::catalog::row_content_reference(row)
}

/// The URLs a row expands to under the lenient expansion and the entries
/// of its content envelope, or the first error.
pub open spec fn loose_materialization(
    pattern: Seq<char>,
    row: RuntimeValue,
    content_source: Seq<char>,
    path: Seq<char>,
) -> Result<(Seq<Seq<char>>, Seq<(Seq<char>, ValueView)>), CoreFault> {
    match row_params(pattern, row) {
        Err(e) => Err(e),
        Ok(params) => if row is Object && row_content(row) is Err {
            Err(row_content(row)->Err_0)
        } else {
            match content_entries(content_source, path) {
                Err(e) => Err(e),
                Ok(ws) => match expand_from(pattern, params, 0, seq![seq![]], false) {
                    Err(e) => Err(CoreFault::Pattern(e)),
                    Ok(urls) => Ok((urls, ws)),
                },
            }
        },
    }
}

/// `p` is the page of `url` for the row's `updated-at` text, the content
/// entries `ws` and the graph text `g`.
pub open spec fn is_index_page(
    p: IndexPage,
    url: Seq<char>,
    updated: Seq<char>,
    ws: Seq<(Seq<char>, ValueView)>,
    g: Option<Seq<char>>,
) -> bool {
    let body = content_body(ws)->0;
    &&& p.url@ == url
    &&& p.title@ == title_for(content_title(ws), body)
    &&& p.body@ == body
    &&& p.updated_at@ == updated
    &&& strings_view(p.images@) == content_images(ws)
    &&& opt_string_view(p.graph) == g
}

fn clone_strings(v: &Vec<String>) -> (r: Vec<String>)
    ensures
        r@ == v@,
{
    let mut r: Vec<String> = Vec::new();
    let mut i: usize = 0;
    while i < v.len()
        invariant
            0 <= i <= v.len(),
            r@ == v@.take(i as int),
        decreases v.len() - i,
    {
        r.push(v[i].clone());
        assert(v@.take(i + 1) == v@.take(i as int).push(v@[i as int]));
        i = i + 1;
    }
    assert(v@.take(v.len() as int) == v@);
    r
}

/// Materialize one sitemap row, whose content source was read, into one
/// page per URL of the lenient expansion.
pub fn materialize_row(
    mapping: &MappingSpec,
    row: &RuntimeValue,
    content_source: &str,
    display_path: &str,
) -> (res: Result<Vec<IndexPage>, CoreError>)
    ensures
        match res {
            Ok(pages) => {
                &&& loose_materialization(mapping.pattern@, *row, content_source@, display_path@) is Ok
                &&& content_entries(content_source@, display_path@) matches Ok(ws)
                &&& expand_from(mapping.pattern@, row_params(mapping.pattern@, *row)->Ok_0, 0, seq![seq![]], false) matches Ok(urls)
                &&& pages@.len() == urls.len()
                &&& forall|i: int, j: int|
                    0 <= i < urls.len() && 0 <= j < urls.len() ==> (#[trigger] pages@[i]).graph == (
                    #[trigger] pages@[j]).graph
                &&& forall|i: int|
                    0 <= i < urls.len() ==> graph_text(
                        ws,
                        opt_string_view((#[trigger] pages@[i]).graph),
                    ) && is_index_page(
                        pages@[i],
                        urls[i],
                        row_updated(*row),
                        ws,
                        opt_string_view(pages@[i].graph),
                    )
            },
            Err(e) => loose_materialization(mapping.pattern@, *row, content_source@, display_path@)
                == Err::<(Seq<Seq<char>>, Seq<(Seq<char>, ValueView)>), CoreFault>(e@),
        },
{
    let pk = ['p', 'a', 'r', 'a', 'm', 's'];
    let uk = ['u', 'p', 'd', 'a', 't', 'e', 'd', '-', 'a', 't'];
    assert(pk@ == params_key());
    assert(uk@ == crate::catalog::updated_key());
    let bare = bare_row_binding(mapping.pattern.as_str(), row);
    let params: &ObjectMap = match row {
        RuntimeValue::Object(obj) => match obj.get_chars(&pk) {
            Some(RuntimeValue::Object(p)) => p,
            _ => {
                return Err(CoreError::RowParamsNotObject);
            },
        },
        _ => match &bare {
            Some(m) => m,
            None => {
                return Err(CoreError::RowNotObject);
            },
        },
    };
    if let RuntimeValue::Object(_) = row {
        match crate::catalog::row_content_reference(row) {
            Ok(_) => {},
            Err(e) => {
                return Err(e);
            },
        }
    }
    let updated_at = match row {
        RuntimeValue::Object(obj) => match obj.get_chars(&uk) {
            Some(x) => x.as_string(),
            None => String::new(),
        },
        _ => String::new(),
    };
    proof {
        if row is Object {
            assert(row_params(mapping.pattern@, *row) == Ok::<ObjectMap, CoreFault>(*params));
        } else {
            lemma_sole_binding_expands(
                *params,
                placeholders(mapping.pattern@)->Ok_0[0],
                *row,
                mapping.pattern@,
                false,
            );
        }
    }
    let content: ContentPage = match parse_content_source(content_source, display_path) {
        Ok(c) => c,
        Err(e) => {
            return Err(e);
        },
    };
    let pc = chars_of(mapping.pattern.as_str());
    let urls = match expand_chars(pc.as_slice(), params, false) {
        Ok(u) => u,
        Err(e) => {
            return Err(CoreError::Pattern(e));
        },
    };
    let ghost ws = content_entries(content_source@, display_path@)->Ok_0;
    let ghost g = opt_string_view(content.graph);
    let title = match &content.title {
        Some(t) => choose_title(Some(t.as_str()), content.body.as_str()),
        None => choose_title(None, content.body.as_str()),
    };
    let mut pages: Vec<IndexPage> = Vec::new();
    let mut i: usize = 0;
    while i < urls.len()
        invariant
            0 <= i <= urls.len(),
            pages@.len() == i,
            content_body(ws) == Some(content.body@),
            opt_string_view(content.title) == content_title(ws),
            strings_view(content.images@) == content_images(ws),
            g == opt_string_view(content.graph),
            graph_text(ws, g),
            title@ == title_for(content_title(ws), content.body@),
            updated_at@ == row_updated(*row),
            forall|k: int| 0 <= k < i ==> (#[trigger] pages@[k]).graph == content.graph,
            forall|k: int|
                0 <= k < i ==> is_index_page(
                    #[trigger] pages@[k],
                    strings_view(urls@)[k],
                    row_updated(*row),
                    ws,
                    g,
                ),
        decreases urls.len() - i,
    {
        let graph = match &content.graph {
            Some(s) => Some(s.clone()),
            None => None,
        };
        pages.push(
            IndexPage {
                url: urls[i].clone(),
                title: title.clone(),
                body: content.body.clone(),
                updated_at: updated_at.clone(),
                images: clone_strings(&content.images),
                graph,
            },
        );
        i = i + 1;
    }
    Ok(pages)
}

} // verus!
