//! Canonical searchable documents and their stable identities.
use vstd::prelude::*;

use vstd::utf8::encode_utf8;

use crate::text::{push_char, string_of};

verus! {

/// The SHA-256 digest of a byte string.
pub uninterp spec fn sha256_of(data: Seq<u8>) -> Seq<u8>;

/// SHA-256 of `data` (`sha2::Sha256::digest`). Claimed: the digest depends
/// on the data alone and has 32 bytes.
#[verifier::external_body]
pub(crate) fn sha256_digest(data: &[u8]) -> (r: Vec<u8>)
    ensures
        r@ == sha256_of(data@),
        r@.len() == 32,
{
    <sha2::Sha256 as sha2::Digest>::digest(data).to_vec()
}

/// The eight big-endian bytes of `n`.
pub open spec fn be_u64(n: u64) -> Seq<u8> {
    seq![
        (n >> 56u64) as u8,
        (n >> 48u64) as u8,
        (n >> 40u64) as u8,
        (n >> 32u64) as u8,
        (n >> 24u64) as u8,
        (n >> 16u64) as u8,
        (n >> 8u64) as u8,
        n as u8,
    ]
}

/// `b` preceded by its length.
pub open spec fn length_prefixed(b: Seq<u8>) -> Seq<u8> {
    be_u64(b.len() as u64) + b
}

/// The length-prefixed UTF-8 encodings of `items`, one after another.
pub open spec fn prefixed_all(items: Seq<Seq<char>>) -> Seq<u8>
    decreases items.len(),
{
    if items.len() == 0 {
        seq![]
    } else {
        length_prefixed(encode_utf8(items[0])) + prefixed_all(items.drop_first())
    }
}

proof fn lemma_prefixed_all_push(items: Seq<Seq<char>>, x: Seq<char>)
    ensures
        prefixed_all(items.push(x)) == prefixed_all(items) + length_prefixed(encode_utf8(x)),
    decreases items.len(),
{
    if items.len() == 0 {
        assert(items.push(x).drop_first() =~= Seq::<Seq<char>>::empty());
        assert(items.push(x)[0] == x);
        assert(prefixed_all(items.push(x).drop_first()) =~= Seq::<u8>::empty());
        assert(prefixed_all(items) =~= Seq::<u8>::empty());
        assert(prefixed_all(items.push(x)) =~= prefixed_all(items) + length_prefixed(encode_utf8(x)));
    } else {
        let head = length_prefixed(encode_utf8(items[0]));
        let tail = items.drop_first();
        assert(items.push(x).drop_first() =~= tail.push(x));
        assert(items.push(x)[0] == items[0]);
        lemma_prefixed_all_push(tail, x);
        assert(prefixed_all(items.push(x)) == head + prefixed_all(tail.push(x)));
        assert(prefixed_all(tail.push(x)) == prefixed_all(tail) + length_prefixed(encode_utf8(x)));
        assert(prefixed_all(items) == head + prefixed_all(tail));
        assert(head + (prefixed_all(tail) + length_prefixed(encode_utf8(x))) =~= (head
            + prefixed_all(tail)) + length_prefixed(encode_utf8(x)));
    }
}

/// The ASCII bytes of `s` (for the fixed domain tags).
pub open spec fn ascii_bytes(s: Seq<char>) -> Seq<u8> {
    Seq::new(s.len(), |i: int| s[i] as u8)
}

/// The domain tag of mapping identities, `fetch/mapping/v1` and a NUL.
pub open spec fn mapping_tag() -> Seq<u8> {
    ascii_bytes(seq!['f', 'e', 't', 'c', 'h', '/', 'm', 'a', 'p', 'p', 'i', 'n', 'g', '/', 'v', '1'])
        + seq![0u8]
}

/// The domain tag of document identities, `fetch/document/v1` and a NUL.
pub open spec fn document_tag() -> Seq<u8> {
    ascii_bytes(
        seq!['f', 'e', 't', 'c', 'h', '/', 'd', 'o', 'c', 'u', 'm', 'e', 'n', 't', '/', 'v', '1'],
    ) + seq![0u8]
}

/// The domain tag of content hashes, `fetch/content/v1` and a NUL.
pub open spec fn content_tag() -> Seq<u8> {
    ascii_bytes(seq!['f', 'e', 't', 'c', 'h', '/', 'c', 'o', 'n', 't', 'e', 'n', 't', '/', 'v', '1'])
        + seq![0u8]
}

/// The bytes hashed for a mapping identity.
pub open spec fn mapping_preimage(pattern: Seq<char>) -> Seq<u8> {
    mapping_tag() + length_prefixed(encode_utf8(pattern))
}

/// The bytes hashed for a document identity.
pub open spec fn document_preimage(mapping_id: Seq<char>, url: Seq<char>) -> Seq<u8> {
    document_tag() + length_prefixed(encode_utf8(mapping_id)) + length_prefixed(encode_utf8(url))
}

/// The bytes hashed for a content hash.
pub open spec fn content_preimage(
    title: Seq<char>,
    body: Seq<char>,
    updated_at: Seq<char>,
    images: Seq<Seq<char>>,
    graph: Option<Seq<char>>,
) -> Seq<u8> {
    content_tag() + length_prefixed(encode_utf8(title)) + length_prefixed(encode_utf8(body))
        + length_prefixed(encode_utf8(updated_at)) + be_u64(images.len() as u64) + prefixed_all(
        images,
    ) + match graph {
        Some(g) => seq![1u8] + length_prefixed(encode_utf8(g)),
        None => seq![0u8],
    }
}

/// The lower-case hexadecimal digit for `d < 16`.
pub open spec fn hex_lower(d: u8) -> char {
    if d < 10 {
        (0x30 + d) as char
    } else {
        (0x57 + d) as char
    }
}

/// Two lower-case hexadecimal digits per byte.
pub open spec fn hex_text(b: Seq<u8>) -> Seq<char>
    decreases b.len(),
{
    if b.len() == 0 {
        seq![]
    } else {
        hex_text(b.drop_last()) + seq![hex_lower(b.last() / 16), hex_lower(b.last() % 16)]
    }
}

/// `map_` and the hexadecimal digest of the mapping preimage.
pub open spec fn mapping_id_of(pattern: Seq<char>) -> Seq<char> {
    seq!['m', 'a', 'p', '_'] + hex_text(sha256_of(mapping_preimage(pattern)))
}

/// `doc_` and the hexadecimal digest of the document preimage.
pub open spec fn document_id_of(mapping_id: Seq<char>, url: Seq<char>) -> Seq<char> {
    seq!['d', 'o', 'c', '_'] + hex_text(sha256_of(document_preimage(mapping_id, url)))
}

/// `sha256:` and the hexadecimal digest of the content preimage.
pub open spec fn content_hash_of(
    title: Seq<char>,
    body: Seq<char>,
    updated_at: Seq<char>,
    images: Seq<Seq<char>>,
    graph: Option<Seq<char>>,
) -> Seq<char> {
    seq!['s', 'h', 'a', '2', '5', '6', ':'] + hex_text(
        sha256_of(content_preimage(title, body, updated_at, images, graph)),
    )
}

fn hex_digit_lower(d: u8) -> (r: char)
    requires
        d < 16,
    ensures
        r == hex_lower(d),
{
    if d < 10 {
        (0x30 + d) as char
    } else {
        (0x57 + d) as char
    }
}

/// `prefix` followed by the lower-case hexadecimal digits of `bytes`.
pub fn hex_digest(prefix: &[char], bytes: &[u8]) -> (r: String)
    ensures
        r@ == prefix@ + hex_text(bytes@),
{
    let mut out = string_of(prefix);
    let mut i: usize = 0;
    while i < bytes.len()
        invariant
            0 <= i <= bytes.len(),
            out@ == prefix@ + hex_text(bytes@.take(i as int)),
        decreases bytes.len() - i,
    {
        let b = bytes[i];
        let ghost before = out@;
        push_char(&mut out, hex_digit_lower(b / 16));
        push_char(&mut out, hex_digit_lower(b % 16));
        proof {
            assert(bytes@.take(i + 1).drop_last() == bytes@.take(i as int));
            assert(out@ =~= prefix@ + hex_text(bytes@.take(i + 1)));
        }
        i = i + 1;
    }
    assert(bytes@.take(bytes.len() as int) == bytes@);
    out
}

fn push_be_u64(out: &mut Vec<u8>, n: u64)
    ensures
        final(out)@ == old(out)@ + be_u64(n),
{
    out.push((n >> 56u64) as u8);
    out.push((n >> 48u64) as u8);
    out.push((n >> 40u64) as u8);
    out.push((n >> 32u64) as u8);
    out.push((n >> 24u64) as u8);
    out.push((n >> 16u64) as u8);
    out.push((n >> 8u64) as u8);
    out.push(n as u8);
    assert(final(out)@ =~= old(out)@ + be_u64(n));
}

fn push_bytes(out: &mut Vec<u8>, b: &[u8])
    ensures
        final(out)@ == old(out)@ + b@,
{
    let mut i: usize = 0;
    while i < b.len()
        invariant
            0 <= i <= b.len(),
            out@ == old(out)@ + b@.take(i as int),
        decreases b.len() - i,
    {
        assert(b@.take(i + 1) == b@.take(i as int).push(b@[i as int]));
        out.push(b[i]);
        i = i + 1;
    }
    assert(b@.take(b.len() as int) == b@);
}

fn push_prefixed(out: &mut Vec<u8>, s: &str)
    ensures
        final(out)@ == old(out)@ + length_prefixed(encode_utf8(s@)),
{
    let b = s.as_bytes();
    push_be_u64(out, b.len() as u64);
    push_bytes(out, b);
    assert(final(out)@ =~= old(out)@ + length_prefixed(encode_utf8(s@)));
}

fn push_ascii(out: &mut Vec<u8>, tag: &[char])
    requires
        forall|i: int| 0 <= i < tag@.len() ==> (tag@[i] as u32) < 128,
    ensures
        final(out)@ == old(out)@ + ascii_bytes(tag@),
{
    let mut i: usize = 0;
    while i < tag.len()
        invariant
            0 <= i <= tag.len(),
            forall|k: int| 0 <= k < tag@.len() ==> (tag@[k] as u32) < 128,
            out@ == old(out)@ + ascii_bytes(tag@.take(i as int)),
        decreases tag.len() - i,
    {
        let c = tag[i];
        out.push(c as u8);
        assert(out@ =~= old(out)@ + ascii_bytes(tag@.take(i + 1)));
        i = i + 1;
    }
    assert(tag@.take(tag.len() as int) == tag@);
}

/// Derive a stable internal mapping key from the canonical FRL pattern only.
pub fn stable_mapping_id(canonical_pattern: &str) -> (r: String)
    ensures
        r@ == mapping_id_of(canonical_pattern@),
{
    let mut pre: Vec<u8> = Vec::new();
    push_ascii(
        &mut pre,
        &['f', 'e', 't', 'c', 'h', '/', 'm', 'a', 'p', 'p', 'i', 'n', 'g', '/', 'v', '1'],
    );
    pre.push(0u8);
    push_prefixed(&mut pre, canonical_pattern);
    assert(pre@ =~= mapping_preimage(canonical_pattern@));
    let digest = sha256_digest(pre.as_slice());
    hex_digest(&['m', 'a', 'p', '_'], digest.as_slice())
}

/// Derive a stable ID from protocol identity, not from mutable page content.
pub fn stable_document_id(mapping_id: &str, canonical_url: &str) -> (r: String)
    ensures
        r@ == document_id_of(mapping_id@, canonical_url@),
{
    let mut pre: Vec<u8> = Vec::new();
    push_ascii(
        &mut pre,
        &['f', 'e', 't', 'c', 'h', '/', 'd', 'o', 'c', 'u', 'm', 'e', 'n', 't', '/', 'v', '1'],
    );
    pre.push(0u8);
    push_prefixed(&mut pre, mapping_id);
    push_prefixed(&mut pre, canonical_url);
    assert(pre@ =~= document_preimage(mapping_id@, canonical_url@));
    let digest = sha256_digest(pre.as_slice());
    hex_digest(&['d', 'o', 'c', '_'], digest.as_slice())
}

/// The views of optional text.
pub open spec fn opt_view(o: Option<&str>) -> Option<Seq<char>> {
    match o {
        Some(s) => Some(s@),
        None => None,
    }
}

/// Hash all indexed content and metadata using an unambiguous length-prefixed encoding.
pub fn content_hash(
    title: &str,
    body: &str,
    updated_at: &str,
    images: &[String],
    graph: Option<&str>,
) -> (r: String)
    ensures
        r@ == content_hash_of(
            title@,
            body@,
            updated_at@,
            crate::pattern::strings_view(images@),
            opt_view(graph),
        ),
{
    let ghost imgs = crate::pattern::strings_view(images@);
    let mut pre: Vec<u8> = Vec::new();
    push_ascii(
        &mut pre,
        &['f', 'e', 't', 'c', 'h', '/', 'c', 'o', 'n', 't', 'e', 'n', 't', '/', 'v', '1'],
    );
    pre.push(0u8);
    push_prefixed(&mut pre, title);
    push_prefixed(&mut pre, body);
    push_prefixed(&mut pre, updated_at);
    push_be_u64(&mut pre, images.len() as u64);
    let ghost head = pre@;
    let mut i: usize = 0;
    assert(imgs.take(0) =~= Seq::<Seq<char>>::empty());
    while i < images.len()
        invariant
            0 <= i <= images.len(),
            imgs == crate::pattern::strings_view(images@),
            pre@ == head + prefixed_all(imgs.take(i as int)),
        decreases images.len() - i,
    {
        push_prefixed(&mut pre, images[i].as_str());
        proof {
            assert(imgs.take(i + 1) == imgs.take(i as int).push(imgs[i as int]));
            assert(imgs[i as int] == images@[i as int]@);
            lemma_prefixed_all_push(imgs.take(i as int), imgs[i as int]);
            assert(pre@ =~= head + prefixed_all(imgs.take(i + 1)));
        }
        i = i + 1;
    }
    assert(imgs.take(images.len() as int) == imgs);
    match graph {
        Some(g) => {
            pre.push(1u8);
            push_prefixed(&mut pre, g);
        },
        None => {
            pre.push(0u8);
        },
    }
    assert(pre@ =~= content_preimage(title@, body@, updated_at@, imgs, opt_view(graph)));
    let digest = sha256_digest(pre.as_slice());
    hex_digest(&['s', 'h', 'a', '2', '5', '6', ':'], digest.as_slice())
}

/// A canonical searchable document independent of the index implementation.
#[derive(Debug, Clone, PartialEq, Eq)]
pub struct SearchDocument {
    pub document_id: String,
    /// Internal mapping key derived exclusively from the canonical FRL pattern.
    pub mapping_id: String,
    pub source: String,
    pub url: String,
    pub title: String,
    pub body: String,
    pub updated_at: String,
    pub images: Vec<String>,
    pub graph: Option<String>,
    pub content_hash: String,
    pub generation: u64,
}

/// The views of an optional string.
pub open spec fn opt_string_view(o: Option<String>) -> Option<Seq<char>> {
    match o {
        Some(s) => Some(s@),
        None => None,
    }
}

impl SearchDocument {
    /// Build a document and derive identity from its pattern-derived mapping key and URL.
    pub fn new(
        mapping_id: String,
        source: String,
        url: String,
        title: String,
        body: String,
        updated_at: String,
        images: Vec<String>,
        graph: Option<String>,
    ) -> (d: SearchDocument)
        ensures
            d.mapping_id == mapping_id,
            d.source == source,
            d.url == url,
            d.title == title,
            d.body == body,
            d.updated_at == updated_at,
            d.images == images,
            d.graph == graph,
            d.document_id@ == document_id_of(mapping_id@, url@),
            d.content_hash@ == content_hash_of(
                title@,
                body@,
                updated_at@,
                crate::pattern::strings_view(images@),
                opt_string_view(graph),
            ),
            d.generation == 0,
    {
        let document_id = stable_document_id(mapping_id.as_str(), url.as_str());
        let g: Option<&str> = match &graph {
            Some(s) => Some(s.as_str()),
            None => None,
        };
        let content_hash = content_hash(
            title.as_str(),
            body.as_str(),
            updated_at.as_str(),
            images.as_slice(),
            g,
        );
        SearchDocument {
            document_id,
            mapping_id,
            source,
            url,
            title,
            body,
            updated_at,
            images,
            graph,
            content_hash,
            generation: 0,
        }
    }

    /// Attach the immutable index generation that published this document.
    pub fn with_generation(self, generation: u64) -> (d: SearchDocument)
        ensures
            d == (SearchDocument { generation, ..self }),
    {
        let mut d = self;
        d.generation = generation;
        d
    }
}

proof fn lemma_be_u64_injective(a: u64, b: u64)
    requires
        be_u64(a) == be_u64(b),
    ensures
        a == b,
{
    assert(be_u64(a)[0] == be_u64(b)[0]);
    assert(be_u64(a)[1] == be_u64(b)[1]);
    assert(be_u64(a)[2] == be_u64(b)[2]);
    assert(be_u64(a)[3] == be_u64(b)[3]);
    assert(be_u64(a)[4] == be_u64(b)[4]);
    assert(be_u64(a)[5] == be_u64(b)[5]);
    assert(be_u64(a)[6] == be_u64(b)[6]);
    assert(be_u64(a)[7] == be_u64(b)[7]);
    assert(((a >> 56u64) as u8 == (b >> 56u64) as u8 && (a >> 48u64) as u8 == (b >> 48u64) as u8
        && (a >> 40u64) as u8 == (b >> 40u64) as u8 && (a >> 32u64) as u8 == (b >> 32u64) as u8
        && (a >> 24u64) as u8 == (b >> 24u64) as u8 && (a >> 16u64) as u8 == (b >> 16u64) as u8
        && (a >> 8u64) as u8 == (b >> 8u64) as u8 && a as u8 == b as u8) ==> a == b)
        by (bit_vector);
}

/// A byte string that a `usize` length can count.
pub open spec fn countable(b: Seq<u8>) -> bool {
    b.len() <= u64::MAX
}

proof fn lemma_prefixed_peel(x: Seq<u8>, y: Seq<u8>, r1: Seq<u8>, r2: Seq<u8>)
    requires
        countable(x),
        countable(y),
        length_prefixed(x) + r1 == length_prefixed(y) + r2,
    ensures
        x == y,
        r1 == r2,
{
    let l = length_prefixed(x) + r1;
    assert(l.take(8) =~= be_u64(x.len() as u64));
    assert((length_prefixed(y) + r2).take(8) =~= be_u64(y.len() as u64));
    lemma_be_u64_injective(x.len() as u64, y.len() as u64);
    assert(x.len() == y.len());
    assert(l.subrange(8, 8 + x.len() as int) =~= x);
    assert((length_prefixed(y) + r2).subrange(8, 8 + y.len() as int) =~= y);
    assert(l.skip(8 + x.len() as int) =~= r1);
    assert((length_prefixed(y) + r2).skip(8 + y.len() as int) =~= r2);
}

proof fn lemma_utf8_injective(a: Seq<char>, b: Seq<char>)
    requires
        encode_utf8(a) == encode_utf8(b),
    ensures
        a == b,
{
    vstd::utf8::encode_utf8_decode_utf8(a);
    vstd::utf8::encode_utf8_decode_utf8(b);
}

proof fn lemma_text_peel(a: Seq<char>, b: Seq<char>, r1: Seq<u8>, r2: Seq<u8>)
    requires
        countable(encode_utf8(a)),
        countable(encode_utf8(b)),
        length_prefixed(encode_utf8(a)) + r1 == length_prefixed(encode_utf8(b)) + r2,
    ensures
        a == b,
        r1 == r2,
{
    lemma_prefixed_peel(encode_utf8(a), encode_utf8(b), r1, r2);
    lemma_utf8_injective(a, b);
}

/// Every text of `items` has a countable encoding.
pub open spec fn all_countable(items: Seq<Seq<char>>) -> bool {
    forall|i: int| 0 <= i < items.len() ==> countable(encode_utf8(#[trigger] items[i]))
}

proof fn lemma_prefixed_all_peel(a: Seq<Seq<char>>, b: Seq<Seq<char>>, r1: Seq<u8>, r2: Seq<u8>)
    requires
        a.len() == b.len(),
        all_countable(a),
        all_countable(b),
        prefixed_all(a) + r1 == prefixed_all(b) + r2,
    ensures
        a == b,
        r1 == r2,
    decreases a.len(),
{
    if a.len() > 0 {
        assert(prefixed_all(a) + r1 =~= length_prefixed(encode_utf8(a[0])) + (prefixed_all(
            a.drop_first(),
        ) + r1));
        assert(prefixed_all(b) + r2 =~= length_prefixed(encode_utf8(b[0])) + (prefixed_all(
            b.drop_first(),
        ) + r2));
        lemma_text_peel(a[0], b[0], prefixed_all(a.drop_first()) + r1, prefixed_all(b.drop_first()) + r2);
        assert(all_countable(a.drop_first()) && all_countable(b.drop_first())) by {
            assert forall|i: int| 0 <= i < a.drop_first().len() implies countable(encode_utf8(
                #[trigger] a.drop_first()[i],
            )) by {
                assert(a.drop_first()[i] == a[i + 1]);
            }
            assert forall|i: int| 0 <= i < b.drop_first().len() implies countable(encode_utf8(
                #[trigger] b.drop_first()[i],
            )) by {
                assert(b.drop_first()[i] == b[i + 1]);
            }
        }
        lemma_prefixed_all_peel(a.drop_first(), b.drop_first(), r1, r2);
        assert forall|i: int| 0 <= i < a.len() implies a[i] == b[i] by {
            if i > 0 {
                assert(a[i] == a.drop_first()[i - 1]);
                assert(b[i] == b.drop_first()[i - 1]);
            }
        }
        assert(a =~= b);
    } else {
        assert(a =~= b);
        assert(r1 =~= prefixed_all(a) + r1);
        assert(r2 =~= prefixed_all(b) + r2);
    }
}

proof fn lemma_tag_peel(t: Seq<u8>, r1: Seq<u8>, r2: Seq<u8>)
    requires
        t + r1 == t + r2,
    ensures
        r1 == r2,
{
    assert(r1 =~= (t + r1).skip(t.len() as int));
    assert(r2 =~= (t + r2).skip(t.len() as int));
}

/// Document identities are unambiguous: two (mapping key, URL) pairs with
/// the same hashed bytes are the same pair.
pub proof fn law_document_preimage_unambiguous(
    mapping_a: Seq<char>,
    url_a: Seq<char>,
    mapping_b: Seq<char>,
    url_b: Seq<char>,
)
    requires
        countable(encode_utf8(mapping_a)),
        countable(encode_utf8(url_a)),
        countable(encode_utf8(mapping_b)),
        countable(encode_utf8(url_b)),
        document_preimage(mapping_a, url_a) == document_preimage(mapping_b, url_b),
    ensures
        mapping_a == mapping_b,
        url_a == url_b,
{
    let ra = length_prefixed(encode_utf8(mapping_a)) + length_prefixed(encode_utf8(url_a));
    let rb = length_prefixed(encode_utf8(mapping_b)) + length_prefixed(encode_utf8(url_b));
    assert(document_preimage(mapping_a, url_a) =~= document_tag() + ra);
    assert(document_preimage(mapping_b, url_b) =~= document_tag() + rb);
    lemma_tag_peel(document_tag(), ra, rb);
    lemma_text_peel(
        mapping_a,
        mapping_b,
        length_prefixed(encode_utf8(url_a)),
        length_prefixed(encode_utf8(url_b)),
    );
    assert(length_prefixed(encode_utf8(url_a)) =~= length_prefixed(encode_utf8(url_a)) + Seq::<
        u8,
    >::empty());
    assert(length_prefixed(encode_utf8(url_b)) =~= length_prefixed(encode_utf8(url_b)) + Seq::<
        u8,
    >::empty());
    lemma_text_peel(url_a, url_b, Seq::<u8>::empty(), Seq::<u8>::empty());
}

proof fn lemma_assoc(x: Seq<u8>, y: Seq<u8>, z: Seq<u8>)
    ensures
        (x + y) + z == x + (y + z),
{
    assert((x + y) + z =~= x + (y + z));
}

proof fn lemma_content_shape(
    title: Seq<char>,
    body: Seq<char>,
    updated: Seq<char>,
    images: Seq<Seq<char>>,
    graph: Option<Seq<char>>,
)
    ensures
        content_preimage(title, body, updated, images, graph) == content_tag() + (length_prefixed(
            encode_utf8(title),
        ) + (length_prefixed(encode_utf8(body)) + (length_prefixed(encode_utf8(updated)) + (
        be_u64(images.len() as u64) + (prefixed_all(images) + graph_part(graph)))))),
{
    let t = content_tag();
    let l1 = length_prefixed(encode_utf8(title));
    let l2 = length_prefixed(encode_utf8(body));
    let l3 = length_prefixed(encode_utf8(updated));
    let b = be_u64(images.len() as u64);
    let p = prefixed_all(images);
    let g = graph_part(graph);
    assert(content_preimage(title, body, updated, images, graph) == t + l1 + l2 + l3 + b + p + g);
    lemma_assoc(t + l1 + l2 + l3 + b, p, g);
    lemma_assoc(t + l1 + l2 + l3, b, p + g);
    lemma_assoc(t + l1 + l2, l3, b + (p + g));
    lemma_assoc(t + l1, l2, l3 + (b + (p + g)));
    lemma_assoc(t, l1, l2 + (l3 + (b + (p + g))));
}

/// The graph part of a content preimage.
pub open spec fn graph_part(graph: Option<Seq<char>>) -> Seq<u8> {
    match graph {
        Some(g) => seq![1u8] + length_prefixed(encode_utf8(g)),
        None => seq![0u8],
    }
}

/// Content hashes use an unambiguous encoding: two pages whose hashed bytes
/// agree have the same title, body, update time, images and graph.
pub proof fn law_content_preimage_unambiguous(
    title_a: Seq<char>,
    body_a: Seq<char>,
    updated_a: Seq<char>,
    images_a: Seq<Seq<char>>,
    graph_a: Option<Seq<char>>,
    title_b: Seq<char>,
    body_b: Seq<char>,
    updated_b: Seq<char>,
    images_b: Seq<Seq<char>>,
    graph_b: Option<Seq<char>>,
)
    requires
        countable(encode_utf8(title_a)),
        countable(encode_utf8(body_a)),
        countable(encode_utf8(updated_a)),
        images_a.len() <= u64::MAX,
        all_countable(images_a),
        graph_a matches Some(g) ==> countable(encode_utf8(g)),
        countable(encode_utf8(title_b)),
        countable(encode_utf8(body_b)),
        countable(encode_utf8(updated_b)),
        images_b.len() <= u64::MAX,
        all_countable(images_b),
        graph_b matches Some(g) ==> countable(encode_utf8(g)),
        content_preimage(title_a, body_a, updated_a, images_a, graph_a) == content_preimage(
            title_b,
            body_b,
            updated_b,
            images_b,
            graph_b,
        ),
    ensures
        title_a == title_b,
        body_a == body_b,
        updated_a == updated_b,
        images_a == images_b,
        graph_a == graph_b,
{
    let ia = prefixed_all(images_a) + graph_part(graph_a);
    let ib = prefixed_all(images_b) + graph_part(graph_b);
    let ca = be_u64(images_a.len() as u64) + ia;
    let cb = be_u64(images_b.len() as u64) + ib;
    let ua = length_prefixed(encode_utf8(updated_a)) + ca;
    let ub = length_prefixed(encode_utf8(updated_b)) + cb;
    let ba = length_prefixed(encode_utf8(body_a)) + ua;
    let bb = length_prefixed(encode_utf8(body_b)) + ub;
    let ta = length_prefixed(encode_utf8(title_a)) + ba;
    let tb = length_prefixed(encode_utf8(title_b)) + bb;
    lemma_content_shape(title_a, body_a, updated_a, images_a, graph_a);
    lemma_content_shape(title_b, body_b, updated_b, images_b, graph_b);
    lemma_tag_peel(content_tag(), ta, tb);
    lemma_text_peel(title_a, title_b, ba, bb);
    lemma_text_peel(body_a, body_b, ua, ub);
    lemma_text_peel(updated_a, updated_b, ca, cb);
    assert(ca.take(8) =~= be_u64(images_a.len() as u64));
    assert(cb.take(8) =~= be_u64(images_b.len() as u64));
    lemma_be_u64_injective(images_a.len() as u64, images_b.len() as u64);
    assert(ia =~= ca.skip(8));
    assert(ib =~= cb.skip(8));
    lemma_prefixed_all_peel(images_a, images_b, graph_part(graph_a), graph_part(graph_b));
    match graph_a {
        Some(ga) => {
            assert(graph_part(graph_a)[0] == 1u8);
            match graph_b {
                Some(gb) => {
                    assert(graph_part(graph_a).skip(1) =~= length_prefixed(encode_utf8(ga)));
                    assert(graph_part(graph_b).skip(1) =~= length_prefixed(encode_utf8(gb)));
                    assert(length_prefixed(encode_utf8(ga)) =~= length_prefixed(encode_utf8(ga))
                        + Seq::<u8>::empty());
                    assert(length_prefixed(encode_utf8(gb)) =~= length_prefixed(encode_utf8(gb))
                        + Seq::<u8>::empty());
                    lemma_text_peel(ga, gb, Seq::<u8>::empty(), Seq::<u8>::empty());
                },
                None => {
                    assert(graph_part(graph_b)[0] == 0u8);
                },
            }
        },
        None => {
            assert(graph_part(graph_a)[0] == 0u8);
            if graph_b is Some {
                assert(graph_part(graph_b)[0] == 1u8);
            }
        },
    }
}

} // verus!
