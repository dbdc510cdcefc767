//! The key of a document.

use crate::document::{Document, DocumentView};
use std::collections::hash_map::DefaultHasher;
use std::hash::Hasher;
use vstd::prelude::*;
use vstd::std_specs::hash::DefaultHasherAdditionalSpecFns;
use vstd::utf8::{encode_scalar, encode_utf8, encode_utf8_decode_utf8};

verus! {

/// The byte that closes each field. It occurs in no UTF-8 text, so the
/// fields cannot run into one another.
pub const FIELD_END: u8 = 0xff;

/// What is fed to the hasher for a document: the bytes of `id`, `title` and
/// `url` in this order, each closed by `FIELD_END`.
pub open spec fn key_input(doc: DocumentView) -> Seq<Seq<u8>> {
    seq![
        encode_utf8(doc.id),
        seq![FIELD_END],
        encode_utf8(doc.title),
        seq![FIELD_END],
        encode_utf8(doc.url),
        seq![FIELD_END],
    ]
}

/// The 64-bit key of a document: the digest of the standard hasher, started
/// afresh, over `key_input`. It depends on the three fields and on nothing
/// else.
pub open spec fn key_of(doc: DocumentView) -> u64 {
    DefaultHasher::spec_finish(key_input(doc))
}

/// The run of bytes that reaches the hasher for a document: the pieces of
/// `key_input`, one behind the other.
pub open spec fn key_bytes(doc: DocumentView) -> Seq<u8> {
    encode_utf8(doc.id) + seq![FIELD_END] + encode_utf8(doc.title) + seq![FIELD_END] + encode_utf8(
        doc.url,
    ) + seq![FIELD_END]
}

/// `key_bytes` is `key_input` with its pieces joined.
pub proof fn lemma_key_bytes_join_the_input(doc: DocumentView)
    ensures
        key_input(doc).flatten() == key_bytes(doc),
{
    reveal_with_fuel(Seq::flatten, 7);
}

/// No byte of the UTF-8 form of one character is `FIELD_END`.
proof fn lemma_scalar_holds_no_field_end(scalar: u32)
    ensures
        forall|i: int|
            0 <= i < encode_scalar(scalar).len() ==> (#[trigger] encode_scalar(scalar)[i])
                != FIELD_END,
{
    assert((scalar & 0x7F) as u8 != 0xffu8) by (bit_vector);
    assert(0xC0u8 | ((scalar >> 6) & 0x1F) as u8 != 0xffu8) by (bit_vector);
    assert(0xE0u8 | ((scalar >> 12) & 0x0F) as u8 != 0xffu8) by (bit_vector);
    assert(0xF0u8 | ((scalar >> 18) & 0x7) as u8 != 0xffu8) by (bit_vector);
    assert(0x80u8 | (scalar & 0x3F) as u8 != 0xffu8) by (bit_vector);
    assert(0x80u8 | ((scalar >> 6) & 0x3F) as u8 != 0xffu8) by (bit_vector);
    assert(0x80u8 | ((scalar >> 12) & 0x3F) as u8 != 0xffu8) by (bit_vector);
}

/// `FIELD_END` occurs in the UTF-8 form of no text.
pub proof fn lemma_text_holds_no_field_end(chars: Seq<char>)
    ensures
        !encode_utf8(chars).contains(FIELD_END),
    decreases chars.len(),
{
    if chars.len() > 0 {
        let first = encode_scalar(chars[0] as u32);
        let rest = encode_utf8(chars.drop_first());
        lemma_scalar_holds_no_field_end(chars[0] as u32);
        lemma_text_holds_no_field_end(chars.drop_first());
        assert forall|i: int| 0 <= i < (first + rest).len() implies (first + rest)[i]
            != FIELD_END by {
            if i >= first.len() {
                assert(rest.contains(rest[i - first.len()]));
            }
        }
    }
}

/// Two runs of bytes that begin with a closed field begin with the same
/// field and go on in the same way.
proof fn lemma_closed_field_splits(x: Seq<u8>, r: Seq<u8>, y: Seq<u8>, s: Seq<u8>)
    requires
        !x.contains(FIELD_END),
        !y.contains(FIELD_END),
        x + seq![FIELD_END] + r == y + seq![FIELD_END] + s,
    ensures
        x == y,
        r == s,
{
    let left = x + seq![FIELD_END] + r;
    let right = y + seq![FIELD_END] + s;
    // The first `FIELD_END` stands behind `x` in the one and behind `y` in
    // the other, so neither field is longer than the other.
    if x.len() < y.len() {
        assert(right[x.len() as int] == y[x.len() as int]);
    }
    if y.len() < x.len() {
        assert(left[y.len() as int] == x[y.len() as int]);
    }
    assert forall|i: int| 0 <= i < x.len() implies x[i] == y[i] by {
        assert(left[i] == x[i] && right[i] == y[i]);
    }
    assert(left.len() == right.len());
    assert forall|i: int| 0 <= i < r.len() implies r[i] == s[i] by {
        assert(left[x.len() + 1 + i] == r[i] && right[y.len() + 1 + i] == s[i]);
    }
}

/// Documents that differ in a field reach the hasher as different runs of
/// bytes: where two keys are the same though the documents are not, it is
/// the digest that made them so.
pub proof fn lemma_key_bytes_tell_documents_apart(a: DocumentView, b: DocumentView)
    requires
        key_bytes(a) == key_bytes(b),
    ensures
        a == b,
{
    let end = seq![FIELD_END];
    lemma_text_holds_no_field_end(a.id);
    lemma_text_holds_no_field_end(b.id);
    lemma_text_holds_no_field_end(a.title);
    lemma_text_holds_no_field_end(b.title);
    lemma_text_holds_no_field_end(a.url);
    lemma_text_holds_no_field_end(b.url);
    let tail_a = encode_utf8(a.title) + end + (encode_utf8(a.url) + end);
    let tail_b = encode_utf8(b.title) + end + (encode_utf8(b.url) + end);
    assert(key_bytes(a) =~= encode_utf8(a.id) + end + tail_a);
    assert(key_bytes(b) =~= encode_utf8(b.id) + end + tail_b);
    lemma_closed_field_splits(encode_utf8(a.id), tail_a, encode_utf8(b.id), tail_b);
    lemma_closed_field_splits(
        encode_utf8(a.title),
        encode_utf8(a.url) + end,
        encode_utf8(b.title),
        encode_utf8(b.url) + end,
    );
    lemma_closed_field_splits(
        encode_utf8(a.url),
        Seq::empty(),
        encode_utf8(b.url),
        Seq::empty(),
    );
    encode_utf8_decode_utf8(a.id);
    encode_utf8_decode_utf8(b.id);
    encode_utf8_decode_utf8(a.title);
    encode_utf8_decode_utf8(b.title);
    encode_utf8_decode_utf8(a.url);
    encode_utf8_decode_utf8(b.url);
}

/// Two documents with the same three fields have the same key.
pub proof fn lemma_same_fields_same_key(a: DocumentView, b: DocumentView)
    requires
        a.id == b.id,
        a.title == b.title,
        a.url == b.url,
    ensures
        key_of(a) == key_of(b),
{
}

/// Computes the key of the document with the three given fields.
pub(crate) fn key_of_fields(id: &String, title: &String, url: &String) -> (key: u64)
    ensures
        key == key_of(DocumentView { id: id@, title: title@, url: url@ }),
{
    let end: [u8; 1] = [FIELD_END];
    assert(end@ =~= seq![FIELD_END]);
    let mut hasher = DefaultHasher::new();
    hasher.write(id.as_str().as_bytes());
    hasher.write(end.as_slice());
    hasher.write(title.as_str().as_bytes());
    hasher.write(end.as_slice());
    hasher.write(url.as_str().as_bytes());
    hasher.write(end.as_slice());
    assert(hasher@ =~= key_input(DocumentView { id: id@, title: title@, url: url@ }));
    hasher.finish()
}

/// Computes the key under which a document is stored and found again.
pub fn hash(target: &Document) -> (key: u64)
    ensures
        key == key_of(target@),
{
    key_of_fields(&target.id, &target.title, &target.url)
}

} // verus!
