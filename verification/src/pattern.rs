//! FRL patterns: canonicalization, placeholder extraction and expansion of
//! finite parameter bindings into canonical paths.
use vstd::prelude::*;

use crate::text::{
    ascii_alnum, chars_eq, chars_of, contains_char, contains_pair, contains_seq, control_char,
    copy_range, find_char, find_char_from, has_char, is_ascii_alnum, is_control_char,
    lemma_find_char_from, string_of, trim, trimmed,
};
use vstd::utf8::encode_utf8;
use crate::value::{ObjectMap, RuntimeValue, scalar_text, bool_text};

verus! {

/// Why a pattern or its expansion was refused.
#[derive(Debug, Clone, PartialEq, Eq)]
pub enum PatternError {
    Empty,
    NotRooted,
    RepeatedSlash,
    QueryOrFragment,
    ControlCharacter,
    UnmatchedClosingBrace,
    UnterminatedParameter,
    InvalidParameterName,
    DuplicateParameter(String),
    MissingNonTerminalParameter(String),
    NonScalarParameter,
    UnmatchedBrace,
}

/// [`PatternError`] as a value of the specification.
pub enum PatternFault {
    Empty,
    NotRooted,
    RepeatedSlash,
    QueryOrFragment,
    ControlCharacter,
    UnmatchedClosingBrace,
    UnterminatedParameter,
    InvalidParameterName,
    DuplicateParameter(Seq<char>),
    MissingNonTerminalParameter(Seq<char>),
    NonScalarParameter,
    UnmatchedBrace,
}

impl View for PatternError {
    type V = PatternFault;

    open spec fn view(&self) -> PatternFault {
        match self {
            PatternError::Empty => PatternFault::Empty,
            PatternError::NotRooted => PatternFault::NotRooted,
            PatternError::RepeatedSlash => PatternFault::RepeatedSlash,
            PatternError::QueryOrFragment => PatternFault::QueryOrFragment,
            PatternError::ControlCharacter => PatternFault::ControlCharacter,
            PatternError::UnmatchedClosingBrace => PatternFault::UnmatchedClosingBrace,
            PatternError::UnterminatedParameter => PatternFault::UnterminatedParameter,
            PatternError::InvalidParameterName => PatternFault::InvalidParameterName,
            PatternError::DuplicateParameter(n) => PatternFault::DuplicateParameter(n@),
            PatternError::MissingNonTerminalParameter(n) => PatternFault::MissingNonTerminalParameter(
                n@,
            ),
            PatternError::NonScalarParameter => PatternFault::NonScalarParameter,
            PatternError::UnmatchedBrace => PatternFault::UnmatchedBrace,
        }
    }
}

/// The views of a sequence of strings.
pub open spec fn strings_view(v: Seq<String>) -> Seq<Seq<char>> {
    v.map_values(|s: String| s@)
}

/// The views of a sequence of character vectors.
pub open spec fn chars_view(v: Seq<Vec<char>>) -> Seq<Seq<char>> {
    v.map_values(|s: Vec<char>| s@)
}

/// A character allowed in a placeholder name.
pub open spec fn is_name_char(c: char) -> bool {
    is_ascii_alnum(c) || c == '_' || c == '-'
}

/// A non-empty placeholder name made of allowed characters.
pub open spec fn valid_name(n: Seq<char>) -> bool {
    n.len() > 0 && forall|i: int| 0 <= i < n.len() ==> is_name_char(#[trigger] n[i])
}

/// The first index at or after `from` holding a brace.
pub open spec fn find_brace_from(s: Seq<char>, from: int) -> Option<int>
    decreases s.len() - from,
{
    if from < 0 || from >= s.len() {
        None
    } else if s[from] == '{' || s[from] == '}' {
        Some(from)
    } else {
        find_brace_from(s, from + 1)
    }
}

pub proof fn lemma_find_brace_from(s: Seq<char>, from: int)
    requires
        0 <= from,
    ensures
        find_brace_from(s, from) matches Some(k) ==> from <= k < s.len() && (s[k] == '{' || s[k]
            == '}') && (forall|j: int| from <= j < k ==> s[j] != '{' && s[j] != '}'),
        find_brace_from(s, from) is None ==> forall|j: int|
            from <= j < s.len() ==> s[j] != '{' && s[j] != '}',
    decreases s.len() - from,
{
    if from < s.len() && s[from] != '{' && s[from] != '}' {
        lemma_find_brace_from(s, from + 1);
    }
}

/// The placeholders of `s` from `cursor` on, after those in `names`.
pub open spec fn scan_names(s: Seq<char>, cursor: int, names: Seq<Seq<char>>) -> Result<
    Seq<Seq<char>>,
    PatternFault,
>
    decreases s.len() - cursor,
{
    if cursor < 0 || cursor >= s.len() {
        Ok(names)
    } else {
        match find_brace_from(s, cursor) {
            None => Ok(names),
            Some(p) => if s[p] == '}' {
                Err(PatternFault::UnmatchedClosingBrace)
            } else {
                match find_char_from(s, p + 1, '}') {
                    None => Err(PatternFault::UnterminatedParameter),
                    Some(c) => {
                        let name = s.subrange(p + 1, c);
                        if !valid_name(name) {
                            Err(PatternFault::InvalidParameterName)
                        } else if names.contains(name) {
                            Err(PatternFault::DuplicateParameter(name))
                        } else if cursor < c + 1 <= s.len() {
                            scan_names(s, c + 1, names.push(name))
                        } else {
                            Ok(names)
                        }
                    },
                }
            },
        }
    }
}

/// What `placeholder_names` returns: the placeholder names of `s` in order.
pub open spec fn placeholders(s: Seq<char>) -> Result<Seq<Seq<char>>, PatternFault> {
    if s.len() == 0 {
        Err(PatternFault::Empty)
    } else {
        scan_names(s, 0, seq![])
    }
}

/// Names that occur once each.
pub open spec fn distinct_names(names: Seq<Seq<char>>) -> bool {
    forall|i: int, j: int| 0 <= i < j < names.len() ==> names[i] != names[j]
}

fn find_brace(s: &[char], from: usize) -> (r: Option<usize>)
    requires
        from <= s.len(),
    ensures
        r matches Some(k) ==> find_brace_from(s@, from as int) == Some(k as int),
        r is None ==> find_brace_from(s@, from as int) is None,
{
    let mut i = from;
    while i < s.len()
        invariant
            from <= i <= s.len(),
            find_brace_from(s@, from as int) == find_brace_from(s@, i as int),
        decreases s.len() - i,
    {
        if s[i] == '{' || s[i] == '}' {
            return Some(i);
        }
        i = i + 1;
    }
    None
}

fn name_char(c: char) -> (r: bool)
    ensures
        r == is_name_char(c),
{
    ascii_alnum(c) || c == '_' || c == '-'
}

fn is_valid_name(n: &[char]) -> (r: bool)
    ensures
        r == valid_name(n@),
{
    if n.len() == 0 {
        return false;
    }
    let mut i: usize = 0;
    while i < n.len()
        invariant
            0 <= i <= n.len(),
            forall|j: int| 0 <= j < i ==> is_name_char(#[trigger] n@[j]),
        decreases n.len() - i,
    {
        if !name_char(n[i]) {
            return false;
        }
        i = i + 1;
    }
    true
}

fn contains_name(names: &Vec<Vec<char>>, name: &[char]) -> (r: bool)
    ensures
        r == chars_view(names@).contains(name@),
{
    let mut i: usize = 0;
    while i < names.len()
        invariant
            0 <= i <= names.len(),
            forall|j: int| 0 <= j < i ==> names@[j]@ != name@,
        decreases names.len() - i,
    {
        if chars_eq(names[i].as_slice(), name) {
            assert(chars_view(names@)[i as int] == name@);
            return true;
        }
        i = i + 1;
    }
    assert forall|j: int| 0 <= j < chars_view(names@).len() implies chars_view(names@)[j]
        != name@ by {
        assert(chars_view(names@)[j] == names@[j]@);
    }
    false
}

pub proof fn lemma_scan_names_distinct(s: Seq<char>, cursor: int, names: Seq<Seq<char>>)
    requires
        distinct_names(names),
        forall|i: int| 0 <= i < names.len() ==> valid_name(#[trigger] names[i]),
    ensures
        scan_names(s, cursor, names) matches Ok(r) ==> distinct_names(r) && (forall|i: int|
            0 <= i < r.len() ==> valid_name(#[trigger] r[i])),
    decreases s.len() - cursor,
{
    if 0 <= cursor < s.len() {
        if let Some(p) = find_brace_from(s, cursor) {
            lemma_find_brace_from(s, cursor);
            if s[p] != '}' {
                if let Some(c) = find_char_from(s, p + 1, '}') {
                    let name = s.subrange(p + 1, c);
                    if valid_name(name) && !names.contains(name) && cursor < c + 1 <= s.len() {
                        let next = names.push(name);
                        assert forall|i: int, j: int| 0 <= i < j < next.len() implies next[i]
                            != next[j] by {
                            if j == names.len() {
                                assert(next[i] == names[i]);
                            }
                        }
                        lemma_scan_names_distinct(s, c + 1, next);
                    }
                }
            }
        }
    }
}

/// Extract and validate unique placeholder names from one FRL pattern.
pub fn placeholder_names(pattern: &str) -> (r: Result<Vec<String>, PatternError>)
    ensures
        match r {
            Ok(v) => placeholders(pattern@) == Ok::<Seq<Seq<char>>, PatternFault>(strings_view(v@)),
            Err(e) => placeholders(pattern@) == Err::<Seq<Seq<char>>, PatternFault>(e@),
        },
        r matches Ok(v) ==> distinct_names(strings_view(v@)) && forall|i: int|
            0 <= i < v@.len() ==> valid_name(#[trigger] strings_view(v@)[i]),
{
    let s = chars_of(pattern);
    let r = placeholder_names_chars(s.as_slice());
    proof {
        lemma_scan_names_distinct(s@, 0, seq![]);
    }
    match r {
        Ok(names) => Ok(strings_of(&names)),
        Err(e) => Err(e),
    }
}

/// Turn character vectors into strings.
pub fn strings_of(names: &Vec<Vec<char>>) -> (out: Vec<String>)
    ensures
        strings_view(out@) == chars_view(names@),
{
    let mut out: Vec<String> = Vec::new();
    let mut i: usize = 0;
    while i < names.len()
        invariant
            0 <= i <= names.len(),
            out@.len() == i,
            forall|k: int| 0 <= k < i ==> (#[trigger] out@[k])@ == names@[k]@,
        decreases names.len() - i,
    {
        let st = string_of(names[i].as_slice());
        out.push(st);
        i = i + 1;
    }
    assert forall|k: int| 0 <= k < out@.len() implies strings_view(out@)[k] == chars_view(
        names@,
    )[k] by {
        assert(strings_view(out@)[k] == out@[k]@);
        assert(chars_view(names@)[k] == names@[k]@);
    }
    assert(strings_view(out@) =~= chars_view(names@));
    out
}

/// [`placeholder_names`] over characters.
pub fn placeholder_names_chars(s: &[char]) -> (r: Result<Vec<Vec<char>>, PatternError>)
    ensures
        match r {
            Ok(v) => placeholders(s@) == Ok::<Seq<Seq<char>>, PatternFault>(chars_view(v@)),
            Err(e) => placeholders(s@) == Err::<Seq<Seq<char>>, PatternFault>(e@),
        },
{
    if s.len() == 0 {
        return Err(PatternError::Empty);
    }
    let mut names: Vec<Vec<char>> = Vec::new();
    let mut cursor: usize = 0;
    assert(chars_view(names@) =~= Seq::<Seq<char>>::empty());
    while cursor < s.len()
        invariant
            0 <= cursor <= s.len(),
            s.len() > 0,
            placeholders(s@) == scan_names(s@, cursor as int, chars_view(names@)),
        decreases s.len() - cursor,
    {
        let position = match find_brace(s, cursor) {
            Some(p) => p,
            None => {
                return Ok(names);
            },
        };
        proof {
            lemma_find_brace_from(s@, cursor as int);
        }
        if s[position] == '}' {
            return Err(PatternError::UnmatchedClosingBrace);
        }
        let close = match find_char(s, position + 1, '}') {
            Some(c) => c,
            None => {
                return Err(PatternError::UnterminatedParameter);
            },
        };
        proof {
            lemma_find_char_from(s@, position + 1, '}');
        }
        let name = copy_range(s, position + 1, close);
        if !is_valid_name(name.as_slice()) {
            return Err(PatternError::InvalidParameterName);
        }
        if contains_name(&names, name.as_slice()) {
            return Err(PatternError::DuplicateParameter(string_of(name.as_slice())));
        }
        let ghost old_names = names@;
        names.push(name);
        proof {
            assert(chars_view(names@) =~= chars_view(old_names).push(s@.subrange(
                position + 1,
                close as int,
            )));
        }
        cursor = close + 1;
    }
    Ok(names)
}

/// What `canonical_pattern` returns for `p`.
pub open spec fn canonical(p: Seq<char>) -> Result<Seq<char>, PatternFault> {
    let t = trim(p);
    if t.len() == 0 {
        Err(PatternFault::Empty)
    } else if t[0] != '/' {
        Err(PatternFault::NotRooted)
    } else if contains_seq(t, seq!['/', '/']) {
        Err(PatternFault::RepeatedSlash)
    } else if has_char(t, '?') || has_char(t, '#') {
        Err(PatternFault::QueryOrFragment)
    } else if exists|i: int| 0 <= i < t.len() && is_control_char(#[trigger] t[i]) {
        Err(PatternFault::ControlCharacter)
    } else {
        match placeholders(t) {
            Ok(_) => Ok(t),
            Err(e) => Err(e),
        }
    }
}

/// Canonicalizing a canonical pattern gives it back unchanged.
pub proof fn law_canonical_pattern_idempotent(p: Seq<char>)
    requires
        canonical(p) is Ok,
    ensures
        canonical(canonical(p)->Ok_0) == canonical(p),
{
    crate::text::lemma_trim_idempotent(p);
}

fn has_control(s: &[char]) -> (r: bool)
    ensures
        r == exists|i: int| 0 <= i < s@.len() && is_control_char(#[trigger] s@[i]),
{
    let mut i: usize = 0;
    while i < s.len()
        invariant
            0 <= i <= s.len(),
            forall|j: int| 0 <= j < i ==> !is_control_char(#[trigger] s@[j]),
        decreases s.len() - i,
    {
        if control_char(s[i]) {
            return true;
        }
        i = i + 1;
    }
    false
}

/// Normalize and validate one FRL pattern before it becomes a mapping identity.
pub fn canonical_pattern(pattern: &str) -> (r: Result<String, PatternError>)
    ensures
        match r {
            Ok(t) => canonical(pattern@) == Ok::<Seq<char>, PatternFault>(t@),
            Err(e) => canonical(pattern@) == Err::<Seq<char>, PatternFault>(e@),
        },
{
    let cs = chars_of(pattern);
    let t = trimmed(cs.as_slice());
    if t.len() == 0 {
        return Err(PatternError::Empty);
    }
    if t[0] != '/' {
        return Err(PatternError::NotRooted);
    }
    if contains_pair(t.as_slice(), '/', '/') {
        return Err(PatternError::RepeatedSlash);
    }
    if contains_char(t.as_slice(), '?') || contains_char(t.as_slice(), '#') {
        return Err(PatternError::QueryOrFragment);
    }
    if has_control(t.as_slice()) {
        return Err(PatternError::ControlCharacter);
    }
    match placeholder_names_chars(t.as_slice()) {
        Ok(_) => Ok(string_of(t.as_slice())),
        Err(e) => Err(e),
    }
}

/// An unreserved URI byte, kept as it is by percent-encoding.
pub open spec fn is_unreserved(b: u8) -> bool {
    (0x30 <= b && b <= 0x39) || (0x41 <= b && b <= 0x5a) || (0x61 <= b && b <= 0x7a) || b == 0x2d
        || b == 0x2e || b == 0x5f || b == 0x7e
}

/// The upper-case hexadecimal digit for `d < 16`.
pub open spec fn hex_upper(d: u8) -> char {
    if d < 10 {
        (0x30 + d) as char
    } else {
        (0x37 + d) as char
    }
}

/// The encoding of one byte.
pub open spec fn encode_byte(b: u8) -> Seq<char> {
    if is_unreserved(b) {
        seq![b as char]
    } else {
        seq!['%', hex_upper(b / 16), hex_upper(b % 16)]
    }
}

/// Percent-encoding of a byte string, keeping unreserved bytes.
pub open spec fn percent_encoded(bytes: Seq<u8>) -> Seq<char>
    decreases bytes.len(),
{
    if bytes.len() == 0 {
        seq![]
    } else {
        percent_encoded(bytes.drop_last()) + encode_byte(bytes.last())
    }
}

fn hex_digit_upper(d: u8) -> (r: char)
    requires
        d < 16,
    ensures
        r == hex_upper(d),
{
    if d < 10 {
        (0x30 + d) as char
    } else {
        (0x37 + d) as char
    }
}

/// Percent-encode one path value while keeping unreserved URI characters intact.
pub fn percent_encode_segment(value: &str) -> (r: Vec<char>)
    ensures
        r@ == percent_encoded(encode_utf8(value@)),
{
    let bytes = value.as_bytes();
    let mut out: Vec<char> = Vec::new();
    let mut i: usize = 0;
    while i < bytes.len()
        invariant
            0 <= i <= bytes@.len(),
            bytes@ == encode_utf8(value@),
            out@ == percent_encoded(bytes@.take(i as int)),
        decreases bytes.len() - i,
    {
        let b = bytes[i];
        assert(bytes@.take(i + 1).drop_last() == bytes@.take(i as int));
        if (0x30 <= b && b <= 0x39) || (0x41 <= b && b <= 0x5a) || (0x61 <= b && b <= 0x7a) || b
            == 0x2d || b == 0x2e || b == 0x5f || b == 0x7e {
            out.push(b as char);
        } else {
            out.push('%');
            out.push(hex_digit_upper(b / 16));
            out.push(hex_digit_upper(b % 16));
        }
        assert(out@ =~= percent_encoded(bytes@.take(i + 1)));
        i = i + 1;
    }
    assert(bytes@.take(bytes@.len() as int) == bytes@);
    out
}

/// What `path_value` gives for one parameter value.
pub open spec fn path_text(v: RuntimeValue) -> Result<Seq<char>, PatternFault> {
    match v {
        RuntimeValue::String(s) => Ok(percent_encoded(encode_utf8(s@))),
        RuntimeValue::Unknown(s) => Ok(percent_encoded(encode_utf8(s@))),
        RuntimeValue::Enum(s) => Ok(percent_encoded(encode_utf8(s@))),
        RuntimeValue::Number(s) => Ok(percent_encoded(encode_utf8(s@))),
        RuntimeValue::Boolean(_) => Ok(scalar_text(v)),
        RuntimeValue::Array(_) => Err(PatternFault::NonScalarParameter),
        RuntimeValue::Object(_) => Err(PatternFault::NonScalarParameter),
    }
}

fn path_value(value: &RuntimeValue) -> (r: Result<Vec<char>, PatternError>)
    ensures
        match r {
            Ok(t) => path_text(*value) == Ok::<Seq<char>, PatternFault>(t@),
            Err(e) => path_text(*value) == Err::<Seq<char>, PatternFault>(e@),
        },
{
    match value {
        RuntimeValue::String(v) => Ok(percent_encode_segment(v.as_str())),
        RuntimeValue::Unknown(v) => Ok(percent_encode_segment(v.as_str())),
        RuntimeValue::Enum(v) => Ok(percent_encode_segment(v.as_str())),
        RuntimeValue::Number(v) => Ok(percent_encode_segment(v.as_str())),
        RuntimeValue::Boolean(b) => {
            let t = bool_text(*b);
            Ok(chars_of(t.as_str()))
        },
        RuntimeValue::Array(_) => Err(PatternError::NonScalarParameter),
        RuntimeValue::Object(_) => Err(PatternError::NonScalarParameter),
    }
}

/// What `canonical_path` returns: the value made absolute.
pub open spec fn absolute_path(v: Seq<char>) -> Seq<char> {
    if v.len() > 0 && v[0] == '/' {
        v
    } else {
        seq!['/'] + v
    }
}

/// Normalize a generated FRL to one absolute path.
pub fn canonical_path(value: &str) -> (r: String)
    ensures
        r@ == absolute_path(value@),
{
    let cs = chars_of(value);
    canonical_path_chars(cs.as_slice())
}

fn canonical_path_chars(cs: &[char]) -> (r: String)
    ensures
        r@ == absolute_path(cs@),
{
    if cs.len() > 0 && cs[0] == '/' {
        string_of(cs)
    } else {
        let mut v: Vec<char> = Vec::new();
        v.push('/');
        crate::text::append_chars(&mut v, cs);
        string_of(v.as_slice())
    }
}

/// `pattern[..open]` ends with `/` and the placeholder closes the pattern.
pub open spec fn is_terminal(s: Seq<char>, open: int, close: int) -> bool {
    open > 0 && s[open - 1] == '/' && close + 1 == s.len()
}

/// The path texts of all values, or the error of one that has none.
pub open spec fn all_paths(vs: Seq<RuntimeValue>) -> Result<Seq<Seq<char>>, PatternFault>
    decreases vs.len(),
{
    if vs.len() == 0 {
        Ok(seq![])
    } else {
        match all_paths(vs.drop_last()) {
            Err(e) => Err(e),
            Ok(p) => match path_text(vs.last()) {
                Err(e) => Err(e),
                Ok(t) => Ok(p.push(t)),
            },
        }
    }
}

/// The texts that replace one placeholder.
pub open spec fn replacements(value: Option<RuntimeValue>, optional: bool, name: Seq<char>) -> Result<
    Seq<Seq<char>>,
    PatternFault,
> {
    match value {
        Some(RuntimeValue::Array(vs)) => all_paths(vs@),
        Some(v) => match path_text(v) {
            Err(e) => Err(e),
            Ok(t) => Ok(seq![t]),
        },
        None => if optional {
            Ok(seq![seq![]])
        } else {
            Err(PatternFault::MissingNonTerminalParameter(name))
        },
    }
}

/// Each replacement appended to `base` after `prefix`.
pub open spec fn row(base: Seq<char>, prefix: Seq<char>, reps: Seq<Seq<char>>) -> Seq<Seq<char>> {
    reps.map_values(|r: Seq<char>| base + prefix + r)
}

/// Every variant extended with every replacement, variants outermost.
pub open spec fn cross(vs: Seq<Seq<char>>, prefix: Seq<char>, reps: Seq<Seq<char>>) -> Seq<Seq<char>>
    decreases vs.len(),
{
    if vs.len() == 0 {
        seq![]
    } else {
        cross(vs.drop_last(), prefix, reps) + row(vs.last(), prefix, reps)
    }
}

/// The expansion of `s` from `cursor` on, given the partial paths `variants`.
/// A `strict` expansion also refuses empty or braced parameter names and
/// braces after the last parameter.
pub open spec fn expand_from(
    s: Seq<char>,
    params: ObjectMap,
    cursor: int,
    variants: Seq<Seq<char>>,
    strict: bool,
) -> Result<
    Seq<Seq<char>>,
    PatternFault,
>
    decreases s.len() - cursor,
{
    if cursor < 0 || cursor > s.len() {
        Err(PatternFault::UnmatchedBrace)
    } else {
        match find_char_from(s, cursor, '{') {
            None => {
                let rest = s.skip(cursor);
                if strict && (has_char(rest, '{') || has_char(rest, '}')) {
                    Err(PatternFault::UnmatchedBrace)
                } else {
                    Ok(variants.map_values(|v: Seq<char>| absolute_path(v + rest)))
                }
            },
            Some(open) => match find_char_from(s, open, '}') {
                None => Err(PatternFault::UnterminatedParameter),
                Some(close) => {
                    let name = s.subrange(open + 1, close);
                    if strict && (name.len() == 0 || has_char(name, '{') || has_char(name, '}')) {
                        Err(PatternFault::InvalidParameterName)
                    } else {
                        let value = params.spec_get(name);
                        let optional = value is None && is_terminal(s, open, close);
                        match replacements(value, optional, name) {
                            Err(e) => Err(e),
                            Ok(reps) => {
                                let prefix = if optional {
                                    crate::text::trim_end_char(s.subrange(cursor, open), '/')
                                } else {
                                    s.subrange(cursor, open)
                                };
                                if cursor < close + 1 <= s.len() {
                                    expand_from(
                                        s,
                                        params,
                                        close + 1,
                                        cross(variants, prefix, reps),
                                        strict,
                                    )
                                } else {
                                    Err(PatternFault::UnterminatedParameter)
                                }
                            },
                        }
                    }
                },
            },
        }
    }
}

/// What `expand_pattern` returns for `s` and `params`.
pub open spec fn expansion(s: Seq<char>, params: ObjectMap) -> Result<Seq<Seq<char>>, PatternFault> {
    match placeholders(s) {
        Err(e) => Err(e),
        Ok(_) => expand_from(s, params, 0, seq![seq![]], true),
    }
}

/// Expansion reads the bindings only through the values they give: two
/// binding maps that agree on every key expand a pattern alike.
pub proof fn lemma_expand_from_congruent(
    s: Seq<char>,
    p1: ObjectMap,
    p2: ObjectMap,
    cursor: int,
    variants: Seq<Seq<char>>,
    strict: bool,
)
    requires
        forall|k: Seq<char>| #[trigger] p1.spec_get(k) == p2.spec_get(k),
    ensures
        expand_from(s, p1, cursor, variants, strict) == expand_from(s, p2, cursor, variants, strict),
    decreases s.len() - cursor,
{
    if 0 <= cursor <= s.len() {
        match find_char_from(s, cursor, '{') {
            None => {},
            Some(open) => match find_char_from(s, open, '}') {
                None => {},
                Some(close) => {
                    let name = s.subrange(open + 1, close);
                    assert(p1.spec_get(name) == p2.spec_get(name));
                    let value = p1.spec_get(name);
                    let optional = value is None && is_terminal(s, open, close);
                    match replacements(value, optional, name) {
                        Err(_) => {},
                        Ok(reps) => {
                            let prefix = if optional {
                                crate::text::trim_end_char(s.subrange(cursor, open), '/')
                            } else {
                                s.subrange(cursor, open)
                            };
                            if cursor < close + 1 <= s.len() {
                                lemma_expand_from_congruent(
                                    s,
                                    p1,
                                    p2,
                                    close + 1,
                                    cross(variants, prefix, reps),
                                    strict,
                                );
                            }
                        },
                    }
                },
            },
        }
    }
}

/// `p` ends with `t`.
pub open spec fn ends_with(p: Seq<char>, t: Seq<char>) -> bool {
    t.len() <= p.len() && p.skip(p.len() - t.len()) == t
}

proof fn lemma_absolute_path_ends(v: Seq<char>, t: Seq<char>)
    ensures
        ends_with(absolute_path(v + t), t),
{
    let p = absolute_path(v + t);
    assert(p.skip(p.len() - t.len()) =~= t);
}

/// Where a strict expansion from `cursor` succeeds, the text after some
/// closing brace at or after `cursor` (or `cursor` itself) holds no brace
/// and ends every path.
proof fn lemma_expand_from_tail(
    s: Seq<char>,
    params: ObjectMap,
    cursor: int,
    variants: Seq<Seq<char>>,
) -> (k: int)
    requires
        0 <= cursor <= s.len(),
    ensures
        expand_from(s, params, cursor, variants, true) matches Ok(paths) ==> {
            &&& cursor <= k <= s.len()
            &&& (k == cursor || s[k - 1] == '}')
            &&& !has_char(s.skip(k), '{')
            &&& !has_char(s.skip(k), '}')
            &&& forall|q: int| 0 <= q < paths.len() ==> ends_with(#[trigger] paths[q], s.skip(k))
        },
    decreases s.len() - cursor,
{
    match find_char_from(s, cursor, '{') {
        None => {
            let rest = s.skip(cursor);
            let paths = variants.map_values(|v: Seq<char>| absolute_path(v + rest));
            assert forall|q: int| 0 <= q < paths.len() implies ends_with(#[trigger] paths[q], rest) by {
                lemma_absolute_path_ends(variants[q], rest);
            }
            cursor
        },
        Some(open) => match find_char_from(s, open, '}') {
            None => cursor,
            Some(close) => {
                lemma_find_char_from(s, cursor, '{');
                lemma_find_char_from(s, open, '}');
                let name = s.subrange(open + 1, close);
                let value = params.spec_get(name);
                let optional = value is None && is_terminal(s, open, close);
                match replacements(value, optional, name) {
                    Err(_) => cursor,
                    Ok(reps) => {
                        let prefix = if optional {
                            crate::text::trim_end_char(s.subrange(cursor, open), '/')
                        } else {
                            s.subrange(cursor, open)
                        };
                        if cursor < close + 1 <= s.len() {
                            lemma_expand_from_tail(
                                s,
                                params,
                                close + 1,
                                cross(variants, prefix, reps),
                            )
                        } else {
                            cursor
                        }
                    },
                }
            },
        },
    }
}

/// The literal text after the last placeholder of a pattern ends every
/// path it expands to: the pattern is `a` followed by `tail`, where `a`
/// is empty or ends with a placeholder's closing brace and `tail` holds no
/// brace.
pub proof fn law_literal_tail_ends_every_path(
    s: Seq<char>,
    params: ObjectMap,
    a: Seq<char>,
    tail: Seq<char>,
)
    requires
        s == a + tail,
        a.len() == 0 || a.last() == '}',
        !has_char(tail, '{'),
        !has_char(tail, '}'),
    ensures
        expansion(s, params) matches Ok(paths) ==> forall|q: int|
            0 <= q < paths.len() ==> tail.len() <= (#[trigger] paths[q]).len() && paths[q].skip(
                paths[q].len() - tail.len(),
            ) == tail,
{
    if let Ok(paths) = expansion(s, params) {
        let k = lemma_expand_from_tail(s, params, 0, seq![seq![]]);
        if k < a.len() {
            let w = a.len() - 1 - k;
            assert(s.skip(k)[w] == '}');
        } else if k > a.len() {
            let w = k - 1 - a.len();
            assert(tail[w] == s[k - 1]);
        }
        assert(s.skip(k) =~= tail);
        assert forall|q: int| 0 <= q < paths.len() implies tail.len() <= (
        #[trigger] paths[q]).len() && paths[q].skip(paths[q].len() - tail.len()) == tail by {
            assert(ends_with(paths[q], s.skip(k)));
        }
    }
}

/// `c` is an ASCII letter or digit, `_` or `-`.
pub open spec fn name_character(c: char) -> bool {
    ('a' <= c <= 'z') || ('A' <= c <= 'Z') || ('0' <= c <= '9') || c == '_' || c == '-'
}

proof fn lemma_find_at(s: Seq<char>, from: int, k: int, c: char)
    requires
        0 <= from <= k < s.len(),
        s[k] == c,
        forall|j: int| from <= j < k ==> s[j] != c,
    ensures
        find_char_from(s, from, c) == Some(k),
    decreases k - from,
{
    if from < k {
        lemma_find_at(s, from + 1, k, c);
    }
}

proof fn lemma_brace_at(s: Seq<char>, from: int, k: int)
    requires
        0 <= from <= k < s.len(),
        s[k] == '{' || s[k] == '}',
        forall|j: int| from <= j < k ==> s[j] != '{' && s[j] != '}',
    ensures
        find_brace_from(s, from) == Some(k),
    decreases k - from,
{
    if from < k {
        lemma_brace_at(s, from + 1, k);
    }
}

proof fn lemma_no_brace(s: Seq<char>, from: int)
    requires
        0 <= from,
        forall|j: int| from <= j < s.len() ==> s[j] != '{' && s[j] != '}',
    ensures
        find_brace_from(s, from) is None,
    decreases s.len() - from,
{
    if from < s.len() {
        lemma_no_brace(s, from + 1);
    }
}

/// A placeholder whose name is made of ASCII letters, digits, `_` and `-`
/// is accepted, whatever brace-free text stands around it.
pub proof fn law_name_characters_are_accepted(a: Seq<char>, n: Seq<char>, b: Seq<char>)
    requires
        n.len() > 0,
        forall|i: int| 0 <= i < n.len() ==> name_character(#[trigger] n[i]),
        forall|i: int| 0 <= i < a.len() ==> a[i] != '{' && a[i] != '}',
        forall|i: int| 0 <= i < b.len() ==> b[i] != '{' && b[i] != '}',
    ensures
        placeholders(a + seq!['{'] + n + seq!['}'] + b) == Ok::<Seq<Seq<char>>, PatternFault>(
            seq![n],
        ),
{
    let s = a + seq!['{'] + n + seq!['}'] + b;
    let open = a.len() as int;
    let close = (a.len() + 1 + n.len()) as int;
    assert(s[open] == '{');
    assert forall|j: int| 0 <= j < open implies s[j] != '{' && s[j] != '}' by {
        assert(s[j] == a[j]);
    }
    lemma_brace_at(s, 0, open);
    assert(s[close] == '}');
    assert forall|j: int| open + 1 <= j < close implies s[j] != '}' by {
        assert(s[j] == n[j - open - 1]);
        assert(name_character(n[j - open - 1]));
    }
    lemma_find_at(s, open + 1, close, '}');
    assert(s.subrange(open + 1, close) =~= n);
    assert forall|i: int| 0 <= i < n.len() implies is_name_char(#[trigger] n[i]) by {
        assert(name_character(n[i]));
    }
    assert(valid_name(n));
    assert(!Seq::<Seq<char>>::empty().contains(n));
    assert forall|j: int| close + 1 <= j < s.len() implies s[j] != '{' && s[j] != '}' by {
        assert(s[j] == b[j - close - 1]);
    }
    lemma_no_brace(s, close + 1);
    assert(seq![].push(n) =~= seq![n]);
    assert(scan_names(s, close + 1, seq![n]) == Ok::<Seq<Seq<char>>, PatternFault>(seq![n]));
    assert(scan_names(s, 0, seq![]) == scan_names(s, close + 1, Seq::<Seq<char>>::empty().push(n)));
}

/// A rooted pattern with one placeholder whose name is made of ASCII
/// letters, digits, `_` and `-`, without `//`, `?`, `#`, control
/// characters or surrounding white space, is its own canonical form.
pub proof fn law_single_placeholder_pattern_is_canonical(a: Seq<char>, n: Seq<char>, b: Seq<char>)
    requires
        n.len() > 0,
        forall|i: int| 0 <= i < n.len() ==> name_character(#[trigger] n[i]),
        forall|i: int| 0 <= i < a.len() ==> a[i] != '{' && a[i] != '}',
        forall|i: int| 0 <= i < b.len() ==> b[i] != '{' && b[i] != '}',
        a.len() > 0 && a[0] == '/',
        trim(a + seq!['{'] + n + seq!['}'] + b) == a + seq!['{'] + n + seq!['}'] + b,
        !contains_seq(a + seq!['{'] + n + seq!['}'] + b, seq!['/', '/']),
        !has_char(a + seq!['{'] + n + seq!['}'] + b, '?'),
        !has_char(a + seq!['{'] + n + seq!['}'] + b, '#'),
        forall|i: int|
            0 <= i < (a + seq!['{'] + n + seq!['}'] + b).len() ==> !is_control_char(
                #[trigger] (a + seq!['{'] + n + seq!['}'] + b)[i],
            ),
    ensures
        canonical(a + seq!['{'] + n + seq!['}'] + b) == Ok::<Seq<char>, PatternFault>(
            a + seq!['{'] + n + seq!['}'] + b,
        ),
{
    let t = a + seq!['{'] + n + seq!['}'] + b;
    law_name_characters_are_accepted(a, n, b);
    assert(t[0] == a[0]);
}

proof fn lemma_one_placeholder_expansion(a: Seq<char>, n: Seq<char>, b: Seq<char>, params: ObjectMap)
    requires
        n.len() > 0,
        forall|i: int| 0 <= i < n.len() ==> name_character(#[trigger] n[i]),
        forall|i: int| 0 <= i < a.len() ==> a[i] != '{' && a[i] != '}',
        forall|i: int| 0 <= i < b.len() ==> b[i] != '{' && b[i] != '}',
        params.spec_get(n) is Some,
        replacements(params.spec_get(n), false, n) is Ok,
    ensures
        expansion(a + seq!['{'] + n + seq!['}'] + b, params) == Ok::<Seq<Seq<char>>, PatternFault>(
            replacements(params.spec_get(n), false, n)->Ok_0.map_values(
                |r: Seq<char>| absolute_path(a + r + b),
            ),
        ),
{
    let s = a + seq!['{'] + n + seq!['}'] + b;
    law_name_characters_are_accepted(a, n, b);
    let open = a.len() as int;
    let close = (a.len() + 1 + n.len()) as int;
    let reps = replacements(params.spec_get(n), false, n)->Ok_0;
    assert(s[open] == '{');
    assert forall|j: int| 0 <= j < open implies s[j] != '{' by {
        assert(s[j] == a[j]);
    }
    lemma_find_at(s, 0, open, '{');
    assert(s[close] == '}');
    assert forall|j: int| open <= j < close implies s[j] != '}' by {
        if j > open {
            assert(s[j] == n[j - open - 1]);
            assert(name_character(n[j - open - 1]));
        }
    }
    lemma_find_at(s, open, close, '}');
    let name = s.subrange(open + 1, close);
    assert(name =~= n);
    assert(!has_char(name, '{') && !has_char(name, '}')) by {
        assert forall|i: int| 0 <= i < name.len() implies name[i] != '{' && name[i] != '}' by {
            assert(name_character(n[i]));
        }
    }
    assert(s.subrange(0, open) =~= a);
    let start: Seq<Seq<char>> = seq![seq![]];
    let mid = reps.map_values(|r: Seq<char>| a + r);
    assert(start.drop_last() =~= Seq::<Seq<char>>::empty());
    assert(start.last() == Seq::<char>::empty());
    assert(row(start.last(), a, reps) =~= mid) by {
        assert forall|i: int| 0 <= i < reps.len() implies row(start.last(), a, reps)[i] == mid[i] by {
            assert(Seq::<char>::empty() + a + reps[i] =~= a + reps[i]);
        }
    }
    assert(cross(Seq::<Seq<char>>::empty(), a, reps) == Seq::<Seq<char>>::empty());
    assert(cross(start, a, reps) == cross(start.drop_last(), a, reps) + row(start.last(), a, reps));
    assert(cross(start, a, reps) =~= mid);
    assert forall|j: int| close + 1 <= j < s.len() implies s[j] != '{' && s[j] != '}' by {
        assert(s[j] == b[j - close - 1]);
    }
    lemma_find_char_from(s, close + 1, '{');
    let rest = s.skip(close + 1);
    assert(rest =~= b);
    assert(!has_char(rest, '{') && !has_char(rest, '}')) by {
        assert forall|i: int| 0 <= i < rest.len() implies rest[i] != '{' && rest[i] != '}' by {
            assert(rest[i] == s[close + 1 + i]);
        }
    }
    let done = mid.map_values(|v: Seq<char>| absolute_path(v + rest));
    assert(done =~= reps.map_values(|r: Seq<char>| absolute_path(a + r + b)));
    assert(expand_from(s, params, close + 1, mid, true) == Ok::<Seq<Seq<char>>, PatternFault>(
        done,
    ));
}

/// A pattern with one placeholder bound to a string expands to the single
/// path that is the pattern with the placeholder replaced by the string's
/// percent-encoded UTF-8 bytes (rooted at `/`): the text before and after
/// the placeholder is kept as written.
pub proof fn law_single_string_binding_expands(
    a: Seq<char>,
    n: Seq<char>,
    b: Seq<char>,
    params: ObjectMap,
    value: String,
)
    requires
        n.len() > 0,
        forall|i: int| 0 <= i < n.len() ==> name_character(#[trigger] n[i]),
        forall|i: int| 0 <= i < a.len() ==> a[i] != '{' && a[i] != '}',
        forall|i: int| 0 <= i < b.len() ==> b[i] != '{' && b[i] != '}',
        params.spec_get(n) == Some(RuntimeValue::String(value)),
    ensures
        expansion(a + seq!['{'] + n + seq!['}'] + b, params) == Ok::<
            Seq<Seq<char>>,
            PatternFault,
        >(seq![absolute_path(a + percent_encoded(encode_utf8(value@)) + b)]),
{
    let t = percent_encoded(encode_utf8(value@));
    assert(replacements(params.spec_get(n), false, n) == Ok::<Seq<Seq<char>>, PatternFault>(
        seq![t],
    ));
    lemma_one_placeholder_expansion(a, n, b, params);
    assert(seq![t].map_values(|r: Seq<char>| absolute_path(a + r + b)) =~= seq![
        absolute_path(a + t + b),
    ]);
}

proof fn lemma_string_paths(vs: Seq<RuntimeValue>)
    requires
        forall|i: int| 0 <= i < vs.len() ==> (#[trigger] vs[i]) is String,
    ensures
        all_paths(vs) matches Ok(ts) && ts.len() == vs.len() && forall|i: int|
            0 <= i < vs.len() ==> #[trigger] ts[i] == percent_encoded(encode_utf8(vs[i]->String_0@)),
    decreases vs.len(),
{
    if vs.len() > 0 {
        assert forall|i: int| 0 <= i < vs.drop_last().len() implies (
        #[trigger] vs.drop_last()[i]) is String by {
            assert(vs.drop_last()[i] == vs[i]);
        }
        lemma_string_paths(vs.drop_last());
        assert(vs.last() is String);
        let ts = all_paths(vs)->Ok_0;
        assert forall|i: int| 0 <= i < vs.len() implies #[trigger] ts[i] == percent_encoded(
            encode_utf8(vs[i]->String_0@),
        ) by {
            if i < vs.len() - 1 {
                assert(vs.drop_last()[i] == vs[i]);
            }
        }
    }
}

/// A placeholder bound to an array of strings expands to one path per
/// string, in the array's order, each the pattern with the placeholder
/// replaced by that string, percent-encoded.
pub proof fn law_string_array_binding_expands(
    a: Seq<char>,
    n: Seq<char>,
    b: Seq<char>,
    params: ObjectMap,
    values: Vec<RuntimeValue>,
)
    requires
        n.len() > 0,
        forall|i: int| 0 <= i < n.len() ==> name_character(#[trigger] n[i]),
        forall|i: int| 0 <= i < a.len() ==> a[i] != '{' && a[i] != '}',
        forall|i: int| 0 <= i < b.len() ==> b[i] != '{' && b[i] != '}',
        params.spec_get(n) == Some(RuntimeValue::Array(values)),
        forall|i: int| 0 <= i < values@.len() ==> (#[trigger] values@[i]) is String,
    ensures
        expansion(a + seq!['{'] + n + seq!['}'] + b, params) matches Ok(paths) && paths.len()
            == values@.len() && forall|i: int|
            0 <= i < values@.len() ==> #[trigger] paths[i] == absolute_path(
                a + percent_encoded(encode_utf8(values@[i]->String_0@)) + b,
            ),
{
    lemma_string_paths(values@);
    lemma_one_placeholder_expansion(a, n, b, params);
}

/// Every accepted placeholder name is non-empty and made of ASCII letters,
/// digits, `_` and `-`.
pub proof fn law_accepted_names_use_name_characters(s: Seq<char>)
    ensures
        placeholders(s) matches Ok(names) ==> forall|k: int|
            0 <= k < names.len() ==> (#[trigger] names[k]).len() > 0 && forall|i: int|
                0 <= i < names[k].len() ==> name_character(#[trigger] names[k][i]),
{
    if s.len() > 0 {
        lemma_scan_names_characters(s, 0, seq![]);
    }
}

proof fn lemma_scan_names_characters(s: Seq<char>, cursor: int, names: Seq<Seq<char>>)
    requires
        forall|k: int| 0 <= k < names.len() ==> valid_name(#[trigger] names[k]),
    ensures
        scan_names(s, cursor, names) matches Ok(out) ==> forall|k: int|
            0 <= k < out.len() ==> (#[trigger] out[k]).len() > 0 && forall|i: int|
                0 <= i < out[k].len() ==> name_character(#[trigger] out[k][i]),
    decreases s.len() - cursor,
{
    if !(cursor < 0 || cursor >= s.len()) {
        match find_brace_from(s, cursor) {
            None => {},
            Some(p) => if s[p] != '}' {
                match find_char_from(s, p + 1, '}') {
                    None => {},
                    Some(c) => {
                        let name = s.subrange(p + 1, c);
                        if valid_name(name) && !names.contains(name) && cursor < c + 1 <= s.len() {
                            let next = names.push(name);
                            assert forall|k: int| 0 <= k < next.len() implies valid_name(
                                #[trigger] next[k],
                            ) by {
                                if k < names.len() {
                                    assert(next[k] == names[k]);
                                }
                            }
                            lemma_scan_names_characters(s, c + 1, next);
                        }
                    },
                }
            },
        }
    }
    if scan_names(s, cursor, names) is Ok {
        let out = scan_names(s, cursor, names)->Ok_0;
        if out == names {
            assert forall|k: int| 0 <= k < out.len() implies (#[trigger] out[k]).len() > 0
                && forall|i: int| 0 <= i < out[k].len() ==> name_character(#[trigger] out[k][i]) by {
                assert(valid_name(names[k]));
                assert forall|i: int| 0 <= i < out[k].len() implies name_character(
                    #[trigger] out[k][i],
                ) by {
                    assert(is_name_char(names[k][i]));
                }
            }
        }
    }
}

/// The value behind an optional reference.
pub open spec fn owned(o: Option<&RuntimeValue>) -> Option<RuntimeValue> {
    match o {
        Some(x) => Some(*x),
        None => None,
    }
}

fn replacements_of(value: Option<&RuntimeValue>, optional: bool, name: &[char]) -> (r: Result<
    Vec<Vec<char>>,
    PatternError,
>)
    ensures
        match r {
            Ok(v) => replacements(owned(value), optional, name@) == Ok::<
                Seq<Seq<char>>,
                PatternFault,
            >(chars_view(v@)),
            Err(e) => replacements(owned(value), optional, name@) == Err::<
                Seq<Seq<char>>,
                PatternFault,
            >(e@),
        },
{
    match value {
        Some(RuntimeValue::Array(values)) => {
            let mut out: Vec<Vec<char>> = Vec::new();
            let mut i: usize = 0;
            assert(values@.take(0) =~= Seq::<RuntimeValue>::empty());
            assert(chars_view(out@) =~= Seq::<Seq<char>>::empty());
            while i < values.len()
                invariant
                    0 <= i <= values.len(),
                    owned(value) == Some(RuntimeValue::Array(*values)),
                    all_paths(values@.take(i as int)) == Ok::<Seq<Seq<char>>, PatternFault>(
                        chars_view(out@),
                    ),
                decreases values.len() - i,
            {
                assert(values@.take(i + 1).drop_last() == values@.take(i as int));
                match path_value(&values[i]) {
                    Ok(t) => {
                        let ghost before = out@;
                        out.push(t);
                        assert(chars_view(out@) =~= chars_view(before).push(t@));
                    },
                    Err(e) => {
                        proof {
                            lemma_all_paths_error(values@, i as int);
                            assert(owned(value) == Some(RuntimeValue::Array(*values)));
                            assert(e@ == PatternFault::NonScalarParameter);
                        }
                        return Err(e);
                    },
                }
                i = i + 1;
            }
            assert(values@.take(values.len() as int) == values@);
            Ok(out)
        },
        Some(v) => match path_value(v) {
            Ok(t) => {
                let mut out: Vec<Vec<char>> = Vec::new();
                out.push(t);
                assert(chars_view(out@) =~= seq![t@]);
                Ok(out)
            },
            Err(e) => Err(e),
        },
        None => if optional {
            let mut out: Vec<Vec<char>> = Vec::new();
            out.push(Vec::new());
            assert(chars_view(out@) =~= seq![Seq::<char>::empty()]);
            Ok(out)
        } else {
            Err(PatternError::MissingNonTerminalParameter(string_of(name)))
        },
    }
}

proof fn lemma_all_paths_error(vs: Seq<RuntimeValue>, i: int)
    requires
        0 <= i < vs.len(),
        path_text(vs[i]) is Err,
        all_paths(vs.take(i)) is Ok,
    ensures
        all_paths(vs) == Err::<Seq<Seq<char>>, PatternFault>(PatternFault::NonScalarParameter),
    decreases vs.len(),
{
    if i == vs.len() - 1 {
        assert(vs.drop_last() == vs.take(i));
    } else {
        assert(vs.drop_last().take(i) == vs.take(i));
        lemma_all_paths_error(vs.drop_last(), i);
    }
}

fn cross_of(variants: &Vec<Vec<char>>, prefix: &[char], reps: &Vec<Vec<char>>) -> (r: Vec<Vec<char>>)
    ensures
        chars_view(r@) == cross(chars_view(variants@), prefix@, chars_view(reps@)),
{
    let ghost vs = chars_view(variants@);
    let ghost rs = chars_view(reps@);
    let mut out: Vec<Vec<char>> = Vec::new();
    let mut i: usize = 0;
    assert(vs.take(0) =~= Seq::<Seq<char>>::empty());
    while i < variants.len()
        invariant
            0 <= i <= variants.len(),
            vs == chars_view(variants@),
            rs == chars_view(reps@),
            chars_view(out@) == cross(vs.take(i as int), prefix@, rs),
        decreases variants.len() - i,
    {
        let ghost start = chars_view(out@);
        let mut j: usize = 0;
        while j < reps.len()
            invariant
                0 <= i < variants.len(),
                0 <= j <= reps.len(),
                vs == chars_view(variants@),
                rs == chars_view(reps@),
                chars_view(out@) == start + row(vs[i as int], prefix@, rs).take(j as int),
            decreases reps.len() - j,
        {
            let mut item: Vec<char> = Vec::new();
            crate::text::append_chars(&mut item, variants[i].as_slice());
            crate::text::append_chars(&mut item, prefix);
            crate::text::append_chars(&mut item, reps[j].as_slice());
            let ghost before = chars_view(out@);
            out.push(item);
            proof {
                assert(vs[i as int] == variants@[i as int]@);
                assert(rs[j as int] == reps@[j as int]@);
                assert(chars_view(out@) =~= before.push(item@));
                assert(row(vs[i as int], prefix@, rs).take(j + 1) =~= row(
                    vs[i as int],
                    prefix@,
                    rs,
                ).take(j as int).push(vs[i as int] + prefix@ + rs[j as int]));
            }
            j = j + 1;
        }
        proof {
            assert(row(vs[i as int], prefix@, rs).take(reps.len() as int) == row(
                vs[i as int],
                prefix@,
                rs,
            ));
            assert(vs.take(i + 1).drop_last() == vs.take(i as int));
            assert(vs.take(i + 1).last() == vs[i as int]);
        }
        i = i + 1;
    }
    assert(vs.take(variants.len() as int) == vs);
    out
}

fn is_terminal_segment(s: &[char], open: usize, close: usize) -> (r: bool)
    requires
        open < s.len(),
    ensures
        r == is_terminal(s@, open as int, close as int),
{
    open > 0 && s[open - 1] == '/' && close < s.len() && close + 1 == s.len()
}

fn trim_end_slashes(s: &[char]) -> (r: Vec<char>)
    ensures
        r@ == crate::text::trim_end_char(s@, '/'),
{
    let mut end = s.len();
    while end > 0 && s[end - 1] == '/'
        invariant
            0 <= end <= s.len(),
            forall|j: int| end <= j < s.len() ==> #[trigger] s@[j] == '/',
        decreases end,
    {
        end = end - 1;
    }
    proof {
        crate::text::lemma_trim_end_char_take(s@, '/', end as int);
        assert(s@.take(end as int) == s@.subrange(0, end as int));
    }
    copy_range(s, 0, end)
}

/// Expand one finite set of bindings into canonical FRL paths.
pub fn expand_pattern(pattern: &str, params: &ObjectMap) -> (r: Result<Vec<String>, PatternError>)
    ensures
        match r {
            Ok(v) => expansion(pattern@, *params) == Ok::<Seq<Seq<char>>, PatternFault>(
                strings_view(v@),
            ),
            Err(e) => expansion(pattern@, *params) == Err::<Seq<Seq<char>>, PatternFault>(e@),
        },
{
    let s = chars_of(pattern);
    match placeholder_names_chars(s.as_slice()) {
        Ok(_) => {},
        Err(e) => {
            return Err(e);
        },
    }
    expand_chars(s.as_slice(), params, true)
}

/// Expand bindings into paths, placeholder by placeholder, checking names
/// and trailing braces where `strict`.
pub fn expand_chars(s: &[char], params: &ObjectMap, strict: bool) -> (r: Result<
    Vec<String>,
    PatternError,
>)
    ensures
        match r {
            Ok(v) => expand_from(s@, *params, 0, seq![seq![]], strict) == Ok::<
                Seq<Seq<char>>,
                PatternFault,
            >(strings_view(v@)),
            Err(e) => expand_from(s@, *params, 0, seq![seq![]], strict) == Err::<
                Seq<Seq<char>>,
                PatternFault,
            >(e@),
        },
{
    let mut variants: Vec<Vec<char>> = Vec::new();
    variants.push(Vec::new());
    assert(chars_view(variants@) =~= seq![Seq::<char>::empty()]);
    let mut cursor: usize = 0;
    loop
        invariant
            0 <= cursor <= s.len(),
            expand_from(s@, *params, 0, seq![seq![]], strict) == expand_from(
                s@,
                *params,
                cursor as int,
                chars_view(variants@),
                strict,
            ),
        decreases s.len() - cursor,
    {
        let open = match find_char(s, cursor, '{') {
            Some(o) => o,
            None => {
                let rest = copy_range(s, cursor, s.len());
                assert(rest@ == s@.skip(cursor as int));
                if strict && (contains_char(rest.as_slice(), '{') || contains_char(rest.as_slice(), '}')) {
                    return Err(PatternError::UnmatchedBrace);
                }
                let mut out: Vec<String> = Vec::new();
                let mut k: usize = 0;
                while k < variants.len()
                    invariant
                        0 <= k <= variants.len(),
                        out@.len() == k,
                        forall|q: int|
                            0 <= q < k ==> (#[trigger] out@[q])@ == absolute_path(
                                variants@[q]@ + rest@,
                            ),
                    decreases variants.len() - k,
                {
                    let mut full: Vec<char> = Vec::new();
                    crate::text::append_chars(&mut full, variants[k].as_slice());
                    crate::text::append_chars(&mut full, rest.as_slice());
                    out.push(canonical_path_chars(full.as_slice()));
                    k = k + 1;
                }
                proof {
                    let target = chars_view(variants@).map_values(
                        |v: Seq<char>| absolute_path(v + rest@),
                    );
                    assert forall|q: int| 0 <= q < out@.len() implies strings_view(out@)[q]
                        == target[q] by {
                        assert(chars_view(variants@)[q] == variants@[q]@);
                    }
                    assert(strings_view(out@) =~= target);
                }
                return Ok(out);
            },
        };
        proof {
            lemma_find_char_from(s@, cursor as int, '{');
        }
        let close = match find_char(s, open, '}') {
            Some(c) => c,
            None => {
                return Err(PatternError::UnterminatedParameter);
            },
        };
        proof {
            lemma_find_char_from(s@, open as int, '}');
        }
        let name = copy_range(s, open + 1, close);
        if strict && (name.len() == 0 || contains_char(name.as_slice(), '{') || contains_char(
            name.as_slice(),
            '}',
        )) {
            return Err(PatternError::InvalidParameterName);
        }
        let value = params.get_chars(name.as_slice());
        let optional = value.is_none() && is_terminal_segment(s, open, close);
        let reps = match replacements_of(value, optional, name.as_slice()) {
            Ok(reps) => reps,
            Err(e) => {
                return Err(e);
            },
        };
        let prefix = if optional {
            let p = copy_range(s, cursor, open);
            trim_end_slashes(p.as_slice())
        } else {
            copy_range(s, cursor, open)
        };
        variants = cross_of(&variants, prefix.as_slice(), &reps);
        cursor = close + 1;
    }
}

proof fn lemma_expand_from_absolute(
    s: Seq<char>,
    params: ObjectMap,
    cursor: int,
    variants: Seq<Seq<char>>,
    strict: bool,
)
    requires
        expand_from(s, params, cursor, variants, strict) is Ok,
    ensures
        forall|i: int|
            0 <= i < expand_from(s, params, cursor, variants, strict)->Ok_0.len() ==> {
                let u = #[trigger] expand_from(s, params, cursor, variants, strict)->Ok_0[i];
                u.len() > 0 && u[0] == '/'
            },
    decreases s.len() - cursor,
{
    if 0 <= cursor <= s.len() {
        match find_char_from(s, cursor, '{') {
            None => {},
            Some(open) => {
                lemma_find_char_from(s, cursor, '{');
                match find_char_from(s, open, '}') {
                    None => {},
                    Some(close) => {
                        lemma_find_char_from(s, open, '}');
                        let name = s.subrange(open + 1, close);
                        let value = params.spec_get(name);
                        let optional = value is None && is_terminal(s, open, close);
                        match replacements(value, optional, name) {
                            Err(_) => {},
                            Ok(reps) => {
                                let prefix = if optional {
                                    crate::text::trim_end_char(s.subrange(cursor, open), '/')
                                } else {
                                    s.subrange(cursor, open)
                                };
                                if cursor < close + 1 <= s.len() {
                                    lemma_expand_from_absolute(
                                        s,
                                        params,
                                        close + 1,
                                        cross(variants, prefix, reps),
                                        strict,
                                    );
                                }
                            },
                        }
                    },
                }
            },
        }
    }
}

/// Every path an expansion yields is absolute: it starts with `/`.
pub proof fn law_expanded_paths_are_absolute(pattern: Seq<char>, params: ObjectMap, strict: bool)
    requires
        expand_from(pattern, params, 0, seq![seq![]], strict) is Ok,
    ensures
        forall|i: int|
            0 <= i < expand_from(pattern, params, 0, seq![seq![]], strict)->Ok_0.len() ==> {
                let u = #[trigger] expand_from(pattern, params, 0, seq![seq![]], strict)->Ok_0[i];
                u.len() > 0 && u[0] == '/'
            },
{
    lemma_expand_from_absolute(pattern, params, 0, seq![seq![]], strict);
}

} // verus!
