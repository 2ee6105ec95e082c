//! Runtime values accepted by sitemap bindings and content metadata, and
//! the FON string envelope decoder.
use vstd::prelude::*;

use crate::text::{chars_of, push_char, string_of};

verus! {

/// Runtime values accepted by sitemap bindings and content metadata.
#[derive(Debug)]
pub enum RuntimeValue {
    Boolean(bool),
    Number(String),
    String(String),
    Enum(String),
    Array(Vec<RuntimeValue>),
    Object(ObjectMap),
    Unknown(String),
}

/// A map from field names to runtime values whose entries stay ordered by
/// key, as those of an ordered map are.
#[derive(Debug)]
pub struct ObjectMap {
    entries: Vec<(String, RuntimeValue)>,
}

/// Strict lexicographic order on character sequences, comparing code points
/// (characters compare by their code points).
/// For strings this is the order of `String`'s `Ord`, since UTF-8 keeps the
/// order of code points.
pub open spec fn key_lt(a: Seq<char>, b: Seq<char>) -> bool
    decreases a.len(),
{
    if a.len() == 0 {
        b.len() > 0
    } else if b.len() == 0 {
        false
    } else if a[0] != b[0] {
        a[0] < b[0]
    } else {
        key_lt(a.drop_first(), b.drop_first())
    }
}

/// The keys of `p`, in order, strictly increase.
pub open spec fn keys_sorted(p: Seq<(String, RuntimeValue)>) -> bool {
    forall|i: int, j: int| 0 <= i < j < p.len() ==> key_lt(#[trigger] p[i].0@, #[trigger] p[j].0@)
}

/// The value bound to key `k` in `p`.
pub open spec fn lookup(p: Seq<(String, RuntimeValue)>, k: Seq<char>) -> Option<RuntimeValue>
    decreases p.len(),
{
    if p.len() == 0 {
        None
    } else if p.last().0@ == k {
        Some(p.last().1)
    } else {
        lookup(p.drop_last(), k)
    }
}

pub proof fn lemma_key_lt_irreflexive(a: Seq<char>)
    ensures
        !key_lt(a, a),
    decreases a.len(),
{
    if a.len() > 0 {
        lemma_key_lt_irreflexive(a.drop_first());
    }
}

pub proof fn lemma_key_lt_transitive(a: Seq<char>, b: Seq<char>, c: Seq<char>)
    requires
        key_lt(a, b),
        key_lt(b, c),
    ensures
        key_lt(a, c),
    decreases a.len(),
{
    if a.len() > 0 && b.len() > 0 && c.len() > 0 && a[0] == b[0] && b[0] == c[0] {
        lemma_key_lt_transitive(a.drop_first(), b.drop_first(), c.drop_first());
    }
}

pub proof fn lemma_key_lt_total(a: Seq<char>, b: Seq<char>)
    ensures
        a == b || key_lt(a, b) || key_lt(b, a),
    decreases a.len(),
{
    if a.len() > 0 && b.len() > 0 && a[0] == b[0] {
        lemma_key_lt_total(a.drop_first(), b.drop_first());
        if a.drop_first() == b.drop_first() {
            assert(a =~= seq![a[0]] + a.drop_first());
            assert(b =~= seq![b[0]] + b.drop_first());
        }
    } else if a.len() == 0 && b.len() == 0 {
        assert(a =~= b);
    }
}

/// Keys absent from a key-sorted sequence map to nothing; present keys to their value.
pub proof fn lemma_lookup_index(p: Seq<(String, RuntimeValue)>, i: int)
    requires
        keys_sorted(p),
        0 <= i < p.len(),
    ensures
        lookup(p, p[i].0@) == Some(p[i].1),
    decreases p.len(),
{
    if i < p.len() - 1 {
        assert(key_lt(p[i].0@, p[p.len() - 1].0@));
        lemma_key_lt_irreflexive(p[i].0@);
        assert(p.drop_last()[i] == p[i]);
        lemma_lookup_index(p.drop_last(), i);
    }
}

pub proof fn lemma_lookup_none(p: Seq<(String, RuntimeValue)>, k: Seq<char>)
    requires
        forall|i: int| 0 <= i < p.len() ==> (#[trigger] p[i]).0@ != k,
    ensures
        lookup(p, k) is None,
    decreases p.len(),
{
    if p.len() > 0 {
        assert forall|i: int| 0 <= i < p.drop_last().len() implies (#[trigger] p.drop_last()[i]).0@
            != k by {
            assert(p.drop_last()[i] == p[i]);
        }
        lemma_lookup_none(p.drop_last(), k);
    }
}

/// Compare two keys by code point.
pub fn key_less(a: &[char], b: &[char]) -> (r: bool)
    ensures
        r == key_lt(a@, b@),
{
    let mut i: usize = 0;
    assert(a@.skip(0) == a@ && b@.skip(0) == b@);
    while i < a.len() && i < b.len()
        invariant
            0 <= i <= a.len(),
            i <= b.len(),
            key_lt(a@, b@) == key_lt(a@.skip(i as int), b@.skip(i as int)),
        decreases a.len() - i,
    {
        if a[i] != b[i] {
            return a[i] < b[i];
        }
        proof {
            assert(a@.skip(i as int).drop_first() == a@.skip(i + 1));
            assert(b@.skip(i as int).drop_first() == b@.skip(i + 1));
        }
        i = i + 1;
    }
    i == a.len() && i < b.len()
}

impl ObjectMap {
    #[verifier::type_invariant]
    spec fn sorted(self) -> bool {
        keys_sorted(self.entries@)
    }

    /// The entries of the map, ordered by key.
    pub closed spec fn pairs(self) -> Seq<(String, RuntimeValue)> {
        self.entries@
    }

    /// The value bound to `k`.
    pub open spec fn spec_get(self, k: Seq<char>) -> Option<RuntimeValue> {
        lookup(self.pairs(), k)
    }

    /// An empty map.
    pub fn new() -> (r: ObjectMap)
        ensures
            r.pairs().len() == 0,
    {
        ObjectMap { entries: Vec::new() }
    }

    /// The number of entries.
    pub fn len(&self) -> (r: usize)
        ensures
            r == self.pairs().len(),
    {
        self.entries.len()
    }

    /// The `i`-th entry in key order.
    pub fn entry(&self, i: usize) -> (r: (&String, &RuntimeValue))
        requires
            i < self.pairs().len(),
        ensures
            *r.0 == self.pairs()[i as int].0,
            *r.1 == self.pairs()[i as int].1,
    {
        let e = &self.entries[i];
        (&e.0, &e.1)
    }

    /// The keys are strictly ordered, so no key occurs twice.
    pub fn lemma_sorted(&self)
        ensures
            keys_sorted(self.pairs()),
    {
        proof {
            use_type_invariant(self);
        }
    }

    /// The position where `key` is, or where it would be inserted.
    fn position(&self, key: &[char]) -> (r: (usize, bool))
        ensures
            r.0 <= self.pairs().len(),
            r.1 ==> r.0 < self.pairs().len() && self.pairs()[r.0 as int].0@ == key@,
            forall|i: int| 0 <= i < r.0 ==> key_lt((#[trigger] self.pairs()[i]).0@, key@),
            !r.1 ==> forall|i: int|
                r.0 <= i < self.pairs().len() ==> key_lt(key@, (#[trigger] self.pairs()[i]).0@),
    {
        proof {
            use_type_invariant(self);
        }
        let mut i: usize = 0;
        while i < self.entries.len()
            invariant
                0 <= i <= self.entries@.len(),
                keys_sorted(self.entries@),
                forall|j: int| 0 <= j < i ==> key_lt((#[trigger] self.entries@[j]).0@, key@),
            decreases self.entries.len() - i,
        {
            let k = chars_of(self.entries[i].0.as_str());
            if key_less(k.as_slice(), key) {
                i = i + 1;
            } else {
                proof {
                    lemma_key_lt_total(k@, key@);
                }
                if key_less(key, k.as_slice()) {
                    assert forall|j: int| i <= j < self.entries@.len() implies key_lt(
                        key@,
                        (#[trigger] self.entries@[j]).0@,
                    ) by {
                        if j > i {
                            lemma_key_lt_transitive(key@, k@, self.entries@[j].0@);
                        }
                    }
                    return (i, false);
                }
                return (i, true);
            }
        }
        (i, false)
    }

    /// The value bound to `key` (`BTreeMap::get`).
    pub fn get(&self, key: &str) -> (r: Option<&RuntimeValue>)
        ensures
            r matches Some(v) ==> self.spec_get(key@) == Some(*v),
            r is None ==> self.spec_get(key@) is None,
    {
        let k = chars_of(key);
        self.get_chars(k.as_slice())
    }

    /// The value bound to the key spelled by `key`.
    pub fn get_chars(&self, key: &[char]) -> (r: Option<&RuntimeValue>)
        ensures
            r matches Some(v) ==> self.spec_get(key@) == Some(*v),
            r is None ==> self.spec_get(key@) is None,
    {
        proof {
            use_type_invariant(self);
        }
        let (i, found) = self.position(key);
        if found {
            proof {
                lemma_lookup_index(self.entries@, i as int);
            }
            Some(&self.entries[i].1)
        } else {
            proof {
                assert forall|j: int| 0 <= j < self.entries@.len() implies (
                #[trigger] self.entries@[j]).0@ != key@ by {
                    if j < i {
                        assert(key_lt(self.entries@[j].0@, key@));
                    } else {
                        assert(key_lt(key@, self.entries@[j].0@));
                    }
                    lemma_key_lt_irreflexive(key@);
                }
                lemma_lookup_none(self.entries@, key@);
            }
            None
        }
    }

    /// Bind `key` to `value`, giving back the value it replaced (`BTreeMap::insert`).
    pub fn insert(&mut self, key: String, value: RuntimeValue) -> (r: Option<RuntimeValue>)
        ensures
            r == old(self).spec_get(key@),
            final(self).spec_get(key@) == Some(value),
            forall|k: Seq<char>| k != key@ ==> #[trigger] final(self).spec_get(k) == old(self).spec_get(k),
            r is None ==> final(self).pairs().len() == old(self).pairs().len() + 1,
            r is Some ==> final(self).pairs().len() == old(self).pairs().len(),
    {
        proof {
            use_type_invariant(&*self);
        }
        let ghost key_view = key@;
        let k = chars_of(key.as_str());
        let (i, found) = self.position(k.as_slice());
        let ghost before = self.entries@;
        let mut entries: Vec<(String, RuntimeValue)> = Vec::new();
        std::mem::swap(&mut entries, &mut self.entries);
        if found {
            proof {
                lemma_lookup_index(before, i as int);
            }
            let (_, previous) = entries.remove(i);
            entries.insert(i, (key, value));
            proof {
                assert(entries@ == before.update(i as int, (entries@[i as int].0, value)));
                assert(keys_sorted(entries@));
                lemma_lookup_index(entries@, i as int);
                assert forall|q: Seq<char>| q != key_view implies #[trigger] lookup(entries@, q)
                    == lookup(before, q) by {
                    lemma_lookup_other(before, entries@, i as int, q);
                }
            }
            self.entries = entries;
            Some(previous)
        } else {
            entries.insert(i, (key, value));
            proof {
                assert(entries@ == before.insert(i as int, (entries@[i as int].0, value)));
                assert forall|a: int, b: int| 0 <= a < b < entries@.len() implies key_lt(
                    #[trigger] entries@[a].0@,
                    #[trigger] entries@[b].0@,
                ) by {
                    if a < i && b > i {
                        lemma_key_lt_transitive(entries@[a].0@, key_view, entries@[b].0@);
                    }
                }
                lemma_lookup_index(entries@, i as int);
                assert forall|j: int| 0 <= j < before.len() implies (#[trigger] before[j]).0@
                    != key_view by {
                    lemma_key_lt_irreflexive(key_view);
                }
                lemma_lookup_none(before, key_view);
                assert forall|q: Seq<char>| q != key_view implies #[trigger] lookup(entries@, q)
                    == lookup(before, q) by {
                    lemma_lookup_inserted(before, entries@, i as int, q);
                }
            }
            self.entries = entries;
            None
        }
    }
}

proof fn lemma_lookup_other(
    before: Seq<(String, RuntimeValue)>,
    after: Seq<(String, RuntimeValue)>,
    i: int,
    q: Seq<char>,
)
    requires
        0 <= i < before.len(),
        after.len() == before.len(),
        after[i].0@ == before[i].0@,
        forall|j: int| 0 <= j < before.len() && j != i ==> after[j] == before[j],
        q != before[i].0@,
    ensures
        lookup(after, q) == lookup(before, q),
    decreases before.len(),
{
    if before.len() > 0 {
        if i < before.len() - 1 {
            lemma_lookup_other(before.drop_last(), after.drop_last(), i, q);
        } else {
            assert(before.drop_last() =~= after.drop_last());
        }
    }
}

proof fn lemma_lookup_inserted(
    before: Seq<(String, RuntimeValue)>,
    after: Seq<(String, RuntimeValue)>,
    i: int,
    q: Seq<char>,
)
    requires
        0 <= i <= before.len(),
        after.len() == before.len() + 1,
        forall|j: int| 0 <= j < i ==> after[j] == before[j],
        forall|j: int| i < j < after.len() ==> after[j] == before[j - 1],
        q != after[i].0@,
    ensures
        lookup(after, q) == lookup(before, q),
    decreases before.len(),
{
    if i < before.len() {
        lemma_lookup_inserted(before.drop_last(), after.drop_last(), i, q);
    } else {
        assert(after.drop_last() =~= before);
    }
}

/// The text of a scalar value; compound values give the empty text.
pub open spec fn scalar_text(v: RuntimeValue) -> Seq<char> {
    match v {
        RuntimeValue::Boolean(b) => if b {
            seq!['t', 'r', 'u', 'e']
        } else {
            seq!['f', 'a', 'l', 's', 'e']
        },
        RuntimeValue::Number(s) => s@,
        RuntimeValue::String(s) => s@,
        RuntimeValue::Enum(s) => s@,
        RuntimeValue::Unknown(s) => s@,
        RuntimeValue::Array(_) => seq![],
        RuntimeValue::Object(_) => seq![],
    }
}

/// The text of a boolean, as `bool::to_string` writes it.
pub fn bool_text(b: bool) -> (r: String)
    ensures
        r@ == scalar_text(RuntimeValue::Boolean(b)),
{
    if b {
        string_of(&['t', 'r', 'u', 'e'])
    } else {
        string_of(&['f', 'a', 'l', 's', 'e'])
    }
}

impl RuntimeValue {
    /// Return a scalar value as text while rejecting compound values by returning an empty string.
    pub fn as_string(&self) -> (r: String)
        ensures
            r@ == scalar_text(*self),
    {
        match self {
            RuntimeValue::Boolean(value) => bool_text(*value),
            RuntimeValue::Number(value) => value.clone(),
            RuntimeValue::String(value) => value.clone(),
            RuntimeValue::Enum(value) => value.clone(),
            RuntimeValue::Unknown(value) => value.clone(),
            RuntimeValue::Array(_) => String::new(),
            RuntimeValue::Object(_) => String::new(),
        }
    }

    /// Borrow an array when the value is a collection.
    pub fn as_array(&self) -> (r: Option<&[RuntimeValue]>)
        ensures
            match *self {
                RuntimeValue::Array(values) => r matches Some(s) && s@ == values@,
                _ => r is None,
            },
    {
        match self {
            RuntimeValue::Array(values) => Some(values.as_slice()),
            _ => None,
        }
    }
}

/// The inside of a FON string envelope: the text between a leading and a
/// trailing backtick, or the text itself where it has no such envelope.
pub open spec fn strip_envelope(raw: Seq<char>) -> Seq<char> {
    if raw.len() >= 2 && raw[0] == '`' && raw.last() == '`' {
        raw.subrange(1, raw.len() - 1)
    } else {
        raw
    }
}

/// The decoding of one escape `\c`.
pub open spec fn escape_of(c: char) -> Seq<char> {
    if c == 'n' {
        seq!['\n']
    } else if c == 'r' {
        seq!['\r']
    } else if c == 't' {
        seq!['\t']
    } else if c == '`' {
        seq!['`']
    } else if c == '\\' {
        seq!['\\']
    } else {
        seq!['\\', c]
    }
}

/// Decode the escape sequences `\n`, `\r`, `\t`, `` \` `` and `\\`; any other
/// backslash stays as it is.
pub open spec fn unescape(s: Seq<char>) -> Seq<char>
    decreases s.len(),
{
    if s.len() == 0 {
        seq![]
    } else if s[0] != '\\' {
        seq![s[0]] + unescape(s.drop_first())
    } else if s.len() == 1 {
        seq!['\\']
    } else {
        escape_of(s[1]) + unescape(s.skip(2))
    }
}

/// What `unquote_string` returns.
pub open spec fn unquoted(raw: Seq<char>) -> Seq<char> {
    unescape(strip_envelope(raw))
}

pub(crate) fn push_all(out: &mut String, cs: &[char])
    ensures
        final(out)@ == old(out)@ + cs@,
{
    let mut i: usize = 0;
    while i < cs.len()
        invariant
            0 <= i <= cs.len(),
            out@ == old(out)@ + cs@.take(i as int),
        decreases cs.len() - i,
    {
        assert(cs@.take(i + 1) == cs@.take(i as int).push(cs@[i as int]));
        push_char(out, cs[i]);
        i = i + 1;
    }
    assert(cs@.take(cs.len() as int) == cs@);
}

/// Decode the FON string envelope and only the escape sequences supported by the data layer.
pub fn unquote_string(raw: &str) -> (r: String)
    ensures
        r@ == unquoted(raw@),
{
    let cs = chars_of(raw);
    let n = cs.len();
    let (from, to) = if n >= 2 && cs[0] == '`' && cs[n - 1] == '`' {
        (1, n - 1)
    } else {
        (0, n)
    };
    let ghost body = strip_envelope(raw@);
    assert(body == cs@.subrange(from as int, to as int));
    let mut out = String::new();
    let mut i = from;
    while i < to
        invariant
            from <= i <= to <= n,
            n == cs@.len(),
            body == cs@.subrange(from as int, to as int),
            out@ + unescape(cs@.subrange(i as int, to as int)) == unescape(body),
        decreases to - i,
    {
        let ghost rest = cs@.subrange(i as int, to as int);
        let c = cs[i];
        if c != '\\' {
            assert(rest.drop_first() == cs@.subrange(i + 1, to as int));
            push_char(&mut out, c);
            assert(out@ + unescape(cs@.subrange(i + 1, to as int)) == unescape(body)) by {
                assert(unescape(rest) == seq![c] + unescape(rest.drop_first()));
                assert(out@ + unescape(cs@.subrange(i + 1, to as int)) =~= (out@.drop_last() + (
                seq![c] + unescape(rest.drop_first()))));
            }
            i = i + 1;
        } else if i + 1 == to {
            push_char(&mut out, '\\');
            assert(unescape(rest) == seq!['\\']);
            assert(out@ + unescape(cs@.subrange(i + 1, to as int)) =~= out@);
            i = i + 1;
        } else {
            let e = cs[i + 1];
            let ghost before = out@;
            if e == 'n' {
                push_char(&mut out, '\n');
            } else if e == 'r' {
                push_char(&mut out, '\r');
            } else if e == 't' {
                push_char(&mut out, '\t');
            } else if e == '`' {
                push_char(&mut out, '`');
            } else if e == '\\' {
                push_char(&mut out, '\\');
            } else {
                push_all(&mut out, &['\\', e]);
            }
            assert(out@ =~= before + escape_of(e));
            assert(rest.skip(2) == cs@.subrange(i + 2, to as int));
            assert(unescape(rest) == escape_of(e) + unescape(rest.skip(2)));
            assert(out@ + unescape(cs@.subrange(i + 2, to as int)) =~= before + unescape(rest));
            i = i + 2;
        }
    }
    assert(cs@.subrange(to as int, to as int) =~= Seq::<char>::empty());
    assert(unescape(Seq::<char>::empty()) =~= Seq::<char>::empty());
    assert(out@ =~= unescape(body));
    out
}

} // verus!

verus! {

/// A runtime value as a value of the specification.
pub enum ValueView {
    Boolean(bool),
    Number(Seq<char>),
    Str(Seq<char>),
    Enum(Seq<char>),
    Array(Seq<ValueView>),
    Object(Seq<(Seq<char>, ValueView)>),
    Unknown(Seq<char>),
}

/// `ws` binds `k`.
pub open spec fn binds(ws: Seq<(Seq<char>, ValueView)>, k: Seq<char>) -> bool {
    exists|i: int| 0 <= i < ws.len() && (#[trigger] ws[i]).0 == k
}

/// The keys of `ws` are pairwise different.
pub open spec fn distinct_keys(ws: Seq<(Seq<char>, ValueView)>) -> bool {
    forall|i: int, j: int| 0 <= i < j < ws.len() ==> (#[trigger] ws[i]).0 != (#[trigger] ws[j]).0
}

/// `v` is the runtime value that `w` describes. Object entries of `w` are
/// listed in any order, each key once, and the map, whose entries are
/// ordered by key, binds exactly their keys.
pub open spec fn models(v: RuntimeValue, w: ValueView) -> bool
    decreases w,
{
    match w {
        ValueView::Boolean(b) => v == RuntimeValue::Boolean(b),
        ValueView::Number(t) => v matches RuntimeValue::Number(s) && s@ == t,
        ValueView::Str(t) => v matches RuntimeValue::String(s) && s@ == t,
        ValueView::Enum(t) => v matches RuntimeValue::Enum(s) && s@ == t,
        ValueView::Unknown(t) => v matches RuntimeValue::Unknown(s) && s@ == t,
        ValueView::Array(ws) => match v {
            RuntimeValue::Array(vs) => vs@.len() == ws.len() && forall|i: int|
                0 <= i < ws.len() ==> models(#[trigger] vs@[i], ws[i]),
            _ => false,
        },
        ValueView::Object(ws) => match v {
            RuntimeValue::Object(m) => keys_sorted(m.pairs()) && m.pairs().len() == ws.len()
                && distinct_keys(ws) && (forall|
                i: int,
            |
                0 <= i < ws.len() ==> (#[trigger] m.spec_get(ws[i].0) matches Some(x) && models(
                    x,
                    ws[i].1,
                ))) && (forall|k: Seq<char>| #[trigger] m.spec_get(k) is Some ==> binds(ws, k)),
            _ => false,
        },
    }
}

/// The value of the first entry of `ws` bound to `k`.
pub open spec fn field_of(ws: Seq<(Seq<char>, ValueView)>, k: Seq<char>) -> Option<ValueView>
    decreases ws.len(),
{
    if ws.len() == 0 {
        None
    } else if ws[0].0 == k {
        Some(ws[0].1)
    } else {
        field_of(ws.drop_first(), k)
    }
}

/// The text of a scalar value; compound values give the empty text.
pub open spec fn view_text(w: ValueView) -> Seq<char> {
    match w {
        ValueView::Boolean(b) => if b {
            seq!['t', 'r', 'u', 'e']
        } else {
            seq!['f', 'a', 'l', 's', 'e']
        },
        ValueView::Number(t) => t,
        ValueView::Str(t) => t,
        ValueView::Enum(t) => t,
        ValueView::Unknown(t) => t,
        ValueView::Array(_) => seq![],
        ValueView::Object(_) => seq![],
    }
}

proof fn lemma_field_of_index(ws: Seq<(Seq<char>, ValueView)>, i: int)
    requires
        distinct_keys(ws),
        0 <= i < ws.len(),
    ensures
        field_of(ws, ws[i].0) == Some(ws[i].1),
    decreases ws.len(),
{
    if i > 0 {
        assert(ws[0].0 != ws[i].0);
        assert(ws.drop_first()[i - 1] == ws[i]);
        lemma_field_of_index(ws.drop_first(), i - 1);
    }
}

proof fn lemma_field_of_none(ws: Seq<(Seq<char>, ValueView)>, k: Seq<char>)
    requires
        !binds(ws, k),
    ensures
        field_of(ws, k) is None,
    decreases ws.len(),
{
    if ws.len() > 0 {
        assert(ws[0].0 != k);
        assert forall|i: int| 0 <= i < ws.drop_first().len() implies (
        #[trigger] ws.drop_first()[i]).0 != k by {
            assert(ws.drop_first()[i] == ws[i + 1]);
        }
        lemma_field_of_none(ws.drop_first(), k);
    }
}

/// A field of an object value is found in the map exactly when the
/// description binds it, and the two agree on its value.
pub proof fn lemma_models_field(map: ObjectMap, ws: Seq<(Seq<char>, ValueView)>, k: Seq<char>)
    requires
        models(RuntimeValue::Object(map), ValueView::Object(ws)),
    ensures
        map.spec_get(k) is None <==> field_of(ws, k) is None,
        map.spec_get(k) matches Some(x) ==> models(x, field_of(ws, k)->0),
{
    if binds(ws, k) {
        let i = choose|i: int| 0 <= i < ws.len() && (#[trigger] ws[i]).0 == k;
        lemma_field_of_index(ws, i);
        assert(map.spec_get(ws[i].0) is Some);
    } else {
        lemma_field_of_none(ws, k);
        if map.spec_get(k) is Some {
            assert(binds(ws, k));
        }
    }
}

/// The text of a modelled scalar is the text of its description.
pub proof fn lemma_models_text(v: RuntimeValue, w: ValueView)
    requires
        models(v, w),
    ensures
        scalar_text(v) == view_text(w),
{
}

} // verus!

verus! {

/// What `format!("{:?}", s)` writes for a string: the string quoted, with
/// its escapes.
pub uninterp spec fn debug_str_of(s: Seq<char>) -> Seq<char>;

/// The `Debug` text of a string (`format!("{:?}", s)`). Claimed: it
/// depends on the string alone.
#[verifier::external_body]
pub(crate) fn debug_str(s: &str) -> (r: String)
    ensures
        r@ == debug_str_of(s@),
{
    format!("{:?}", s)
}

/// `name` followed by `inner` in round brackets.
pub open spec fn wrapped(name: Seq<char>, inner: Seq<char>) -> Seq<char> {
    name + seq!['('] + inner + seq![')']
}

/// The `Debug` text of a runtime value, as `derive(Debug)` writes it for
/// the enum, with objects written as ordered maps (`{"key": value, ...}`).
pub closed spec fn debug_of(v: RuntimeValue) -> Seq<char>
    decreases v, 0nat,
{
    match v {
        RuntimeValue::Boolean(b) => wrapped(
            seq!['B', 'o', 'o', 'l', 'e', 'a', 'n'],
            scalar_text(RuntimeValue::Boolean(b)),
        ),
        RuntimeValue::Number(s) => wrapped(seq!['N', 'u', 'm', 'b', 'e', 'r'], debug_str_of(s@)),
        RuntimeValue::String(s) => wrapped(seq!['S', 't', 'r', 'i', 'n', 'g'], debug_str_of(s@)),
        RuntimeValue::Enum(s) => wrapped(seq!['E', 'n', 'u', 'm'], debug_str_of(s@)),
        RuntimeValue::Unknown(s) => wrapped(
            seq!['U', 'n', 'k', 'n', 'o', 'w', 'n'],
            debug_str_of(s@),
        ),
        RuntimeValue::Array(vs) => wrapped(
            seq!['A', 'r', 'r', 'a', 'y'],
            seq!['['] + debug_items(vs@, vs@.len()) + seq![']'],
        ),
        RuntimeValue::Object(m) => wrapped(
            seq!['O', 'b', 'j', 'e', 'c', 't'],
            seq!['{'] + debug_entries(m.entries@, m.entries@.len()) + seq!['}'],
        ),
    }
}

/// The `Debug` texts of the first `k` values, separated by `, `.
pub closed spec fn debug_items(vs: Seq<RuntimeValue>, k: nat) -> Seq<char>
    decreases vs, k,
{
    if k == 0 || k > vs.len() {
        seq![]
    } else if k == 1 {
        debug_of(vs[0])
    } else {
        debug_items(vs, (k - 1) as nat) + seq![',', ' '] + debug_of(vs[k - 1])
    }
}

/// The first `k` entries written as `"key": value`, separated by `, `.
pub closed spec fn debug_entries(ps: Seq<(String, RuntimeValue)>, k: nat) -> Seq<char>
    decreases ps, k,
{
    if k == 0 || k > ps.len() {
        seq![]
    } else if k == 1 {
        debug_str_of(ps[0].0@) + seq![':', ' '] + debug_of(ps[0].1)
    } else {
        debug_entries(ps, (k - 1) as nat) + seq![',', ' '] + debug_str_of(ps[k - 1].0@) + seq![
            ':',
            ' ',
        ] + debug_of(ps[k - 1].1)
    }
}

/// A key bound in `p` is the key of one of its entries.
proof fn lemma_lookup_some(p: Seq<(String, RuntimeValue)>, k: Seq<char>)
    requires
        lookup(p, k) is Some,
    ensures
        exists|j: int| 0 <= j < p.len() && (#[trigger] p[j]).0@ == k,
    decreases p.len(),
{
    if p.last().0@ != k {
        lemma_lookup_some(p.drop_last(), k);
        let j = choose|j: int| 0 <= j < p.drop_last().len() && (#[trigger] p.drop_last()[j]).0@ == k;
        assert(p[j] == p.drop_last()[j]);
    } else {
        assert(p[p.len() - 1].0@ == k);
    }
}

/// Two key-sorted entry lists of one length that bind the same keys list
/// the keys in the same order.
proof fn lemma_sorted_same_keys(p: Seq<(String, RuntimeValue)>, q: Seq<(String, RuntimeValue)>)
    requires
        keys_sorted(p),
        keys_sorted(q),
        p.len() == q.len(),
        forall|k: Seq<char>| #[trigger] lookup(p, k) is Some <==> lookup(q, k) is Some,
    ensures
        forall|i: int| 0 <= i < p.len() ==> (#[trigger] p[i]).0@ == q[i].0@,
    decreases p.len(),
{
    if p.len() > 0 {
        let n = p.len() - 1;
        let a = p[n].0@;
        let b = q[n].0@;
        assert(lookup(p, a) is Some);
        assert(lookup(q, b) is Some);
        lemma_lookup_some(q, a);
        lemma_lookup_some(p, b);
        let j = choose|j: int| 0 <= j < q.len() && (#[trigger] q[j]).0@ == a;
        let i = choose|i: int| 0 <= i < p.len() && (#[trigger] p[i]).0@ == b;
        if a != b {
            if j < n && i < n {
                assert(key_lt(q[j].0@, q[n].0@));
                assert(key_lt(p[i].0@, p[n].0@));
                lemma_key_lt_transitive(a, b, a);
                lemma_key_lt_irreflexive(a);
            } else if j == n {
                assert(q[j].0@ == b);
            } else {
                assert(p[i].0@ == a);
            }
        }
        let p0 = p.drop_last();
        let q0 = q.drop_last();
        assert forall|x: int, y: int| 0 <= x < y < p0.len() implies key_lt(
            #[trigger] p0[x].0@,
            #[trigger] p0[y].0@,
        ) by {
            assert(p0[x] == p[x] && p0[y] == p[y]);
        }
        assert forall|x: int, y: int| 0 <= x < y < q0.len() implies key_lt(
            #[trigger] q0[x].0@,
            #[trigger] q0[y].0@,
        ) by {
            assert(q0[x] == q[x] && q0[y] == q[y]);
        }
        assert forall|x: int| 0 <= x < p0.len() implies (#[trigger] p0[x]).0@ != a by {
            assert(p0[x] == p[x]);
            assert(key_lt(p[x].0@, p[n].0@));
            lemma_key_lt_irreflexive(a);
        }
        assert forall|x: int| 0 <= x < q0.len() implies (#[trigger] q0[x]).0@ != a by {
            assert(q0[x] == q[x]);
            assert(key_lt(q[x].0@, q[n].0@));
            lemma_key_lt_irreflexive(a);
        }
        lemma_lookup_none(p0, a);
        lemma_lookup_none(q0, a);
        assert forall|k: Seq<char>| #[trigger] lookup(p0, k) is Some <==> lookup(q0, k) is Some by {
            if k != a {
                assert(lookup(p, k) == lookup(p0, k));
                assert(lookup(q, k) == lookup(q0, k));
            }
        }
        lemma_sorted_same_keys(p0, q0);
        assert forall|x: int| 0 <= x < p.len() implies (#[trigger] p[x]).0@ == q[x].0@ by {
            if x < n {
                assert(p0[x] == p[x] && q0[x] == q[x]);
            }
        }
    }
}

proof fn lemma_debug_items_agree(a: Seq<RuntimeValue>, b: Seq<RuntimeValue>, k: nat)
    requires
        a.len() == b.len(),
        k <= a.len(),
        forall|i: int| 0 <= i < k ==> #[trigger] debug_of(a[i]) == debug_of(b[i]),
    ensures
        debug_items(a, k) == debug_items(b, k),
    decreases k,
{
    if k > 1 {
        lemma_debug_items_agree(a, b, (k - 1) as nat);
        assert(debug_of(a[k - 1]) == debug_of(b[k - 1]));
    } else if k == 1 {
        assert(debug_of(a[0]) == debug_of(b[0]));
    }
}

proof fn lemma_debug_entries_agree(p: Seq<(String, RuntimeValue)>, q: Seq<(String, RuntimeValue)>, k: nat)
    requires
        p.len() == q.len(),
        k <= p.len(),
        forall|i: int|
            0 <= i < k ==> (#[trigger] p[i]).0@ == q[i].0@ && debug_of(p[i].1) == debug_of(q[i].1),
    ensures
        debug_entries(p, k) == debug_entries(q, k),
    decreases k,
{
    if k > 1 {
        lemma_debug_entries_agree(p, q, (k - 1) as nat);
        assert(p[k - 1].0@ == q[k - 1].0@);
    } else if k == 1 {
        assert(p[0].0@ == q[0].0@);
    }
}

/// Two runtime values that one description models have the same `Debug`
/// text: the text is fixed by the description alone.
pub proof fn law_debug_text_is_determined(v1: RuntimeValue, v2: RuntimeValue, w: ValueView)
    requires
        models(v1, w),
        models(v2, w),
    ensures
        debug_of(v1) == debug_of(v2),
    decreases w,
{
    match w {
        ValueView::Array(ws) => {
            let a = v1->Array_0@;
            let b = v2->Array_0@;
            assert forall|i: int| 0 <= i < a.len() implies #[trigger] debug_of(a[i]) == debug_of(
                b[i],
            ) by {
                assert(decreases_to!(w => ws[i]));
                law_debug_text_is_determined(a[i], b[i], ws[i]);
            }
            lemma_debug_items_agree(a, b, a.len());
        },
        ValueView::Object(ws) => {
            let m1 = v1->Object_0;
            let m2 = v2->Object_0;
            let p = m1.pairs();
            let q = m2.pairs();
            assert forall|k: Seq<char>| #[trigger] lookup(p, k) is Some <==> lookup(q, k) is Some by {
                if lookup(p, k) is Some {
                    assert(m1.spec_get(k) is Some);
                    let j = choose|j: int| 0 <= j < ws.len() && (#[trigger] ws[j]).0 == k;
                    assert(m2.spec_get(ws[j].0) is Some);
                }
                if lookup(q, k) is Some {
                    assert(m2.spec_get(k) is Some);
                    let j = choose|j: int| 0 <= j < ws.len() && (#[trigger] ws[j]).0 == k;
                    assert(m1.spec_get(ws[j].0) is Some);
                }
            }
            lemma_sorted_same_keys(p, q);
            assert forall|i: int| 0 <= i < p.len() implies (#[trigger] p[i]).0@ == q[i].0@
                && debug_of(p[i].1) == debug_of(q[i].1) by {
                lemma_lookup_index(p, i);
                lemma_lookup_index(q, i);
                assert(m1.spec_get(p[i].0@) is Some);
                let j = choose|j: int| 0 <= j < ws.len() && (#[trigger] ws[j]).0 == p[i].0@;
                assert(m1.spec_get(ws[j].0) matches Some(x) && models(x, ws[j].1));
                assert(m2.spec_get(ws[j].0) matches Some(x) && models(x, ws[j].1));
                assert(decreases_to!(w => ws[j].1));
                law_debug_text_is_determined(p[i].1, q[i].1, ws[j].1);
            }
            lemma_debug_entries_agree(p, q, p.len());
        },
        _ => {},
    }
}

/// The `Debug` text of the runtime values that `w` describes, which all
/// have the same one.
pub open spec fn view_debug_text(w: ValueView) -> Seq<char> {
    debug_of(choose|x: RuntimeValue| models(x, w))
}

/// A runtime value that `w` describes has the text `view_debug_text(w)`.
pub proof fn lemma_view_debug_text(x: RuntimeValue, w: ValueView)
    requires
        models(x, w),
    ensures
        debug_of(x) == view_debug_text(w),
{
    let y = choose|y: RuntimeValue| models(y, w);
    law_debug_text_is_determined(x, y, w);
}

/// Append the text of `s`.
pub(crate) fn push_str(out: &mut String, s: &str)
    ensures
        final(out)@ == old(out)@ + s@,
{
    let cs = chars_of(s);
    push_all(out, cs.as_slice());
}

/// The `Debug` text of a runtime value (`format!("{value:?}")`).
pub fn debug_text(v: &RuntimeValue) -> (r: String)
    ensures
        r@ == debug_of(*v),
    decreases v,
{
    let mut out = String::new();
    match v {
        RuntimeValue::Boolean(b) => {
            push_all(&mut out, &['B', 'o', 'o', 'l', 'e', 'a', 'n', '(']);
            let t = bool_text(*b);
            push_str(&mut out, t.as_str());
            push_char(&mut out, ')');
        },
        RuntimeValue::Number(s) => {
            push_all(&mut out, &['N', 'u', 'm', 'b', 'e', 'r', '(']);
            push_str(&mut out, debug_str(s.as_str()).as_str());
            push_char(&mut out, ')');
        },
        RuntimeValue::String(s) => {
            push_all(&mut out, &['S', 't', 'r', 'i', 'n', 'g', '(']);
            push_str(&mut out, debug_str(s.as_str()).as_str());
            push_char(&mut out, ')');
        },
        RuntimeValue::Enum(s) => {
            push_all(&mut out, &['E', 'n', 'u', 'm', '(']);
            push_str(&mut out, debug_str(s.as_str()).as_str());
            push_char(&mut out, ')');
        },
        RuntimeValue::Unknown(s) => {
            push_all(&mut out, &['U', 'n', 'k', 'n', 'o', 'w', 'n', '(']);
            push_str(&mut out, debug_str(s.as_str()).as_str());
            push_char(&mut out, ')');
        },
        RuntimeValue::Array(vs) => {
            push_all(&mut out, &['A', 'r', 'r', 'a', 'y', '(', '[']);
            let ghost start = out@;
            let mut i: usize = 0;
            while i < vs.len()
                invariant
                    0 <= i <= vs.len(),
                    *v == RuntimeValue::Array(*vs),
                    out@ == start + debug_items(vs@, i as nat),
                decreases vs.len() - i,
            {
                if i > 0 {
                    push_all(&mut out, &[',', ' ']);
                }
                proof {
                    assert(decreases_to!(*v => (*v)->Array_0));
                    assert(decreases_to!(*vs => vs[i as int]));
                }
                let item = debug_text(&vs[i]);
                push_str(&mut out, item.as_str());
                proof {
                    reveal_with_fuel(debug_items, 2);
                }
                assert(out@ =~= start + debug_items(vs@, (i + 1) as nat));
                i = i + 1;
            }
            push_all(&mut out, &[']', ')']);
        },
        RuntimeValue::Object(m) => {
            push_all(&mut out, &['O', 'b', 'j', 'e', 'c', 't', '(', '{']);
            let ghost start = out@;
            let mut i: usize = 0;
            while i < m.entries.len()
                invariant
                    0 <= i <= m.entries@.len(),
                    *v == RuntimeValue::Object(*m),
                    out@ == start + debug_entries(m.entries@, i as nat),
                decreases m.entries.len() - i,
            {
                if i > 0 {
                    push_all(&mut out, &[',', ' ']);
                }
                let key = debug_str(m.entries[i].0.as_str());
                push_str(&mut out, key.as_str());
                push_all(&mut out, &[':', ' ']);
                proof {
                    assert(decreases_to!(*v => (*v)->Object_0));
                    assert(decreases_to!(*m => m.entries));
                    assert(decreases_to!(m.entries => m.entries[i as int]));
                    assert(decreases_to!(m.entries[i as int] => m.entries[i as int].1));
                }
                let item = debug_text(&m.entries[i].1);
                push_str(&mut out, item.as_str());
                assert(out@ =~= start + debug_entries(m.entries@, (i + 1) as nat));
                i = i + 1;
            }
            push_all(&mut out, &['}', ')']);
        },
    }
    out
}

} // verus!
