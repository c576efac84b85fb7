//! Decoding undoes encoding: the proof that the bytes of a tree stand for
//! that tree, and for no other.

use vstd::prelude::*;
use vstd::utf8::{encode_utf8, encode_utf8_decode_utf8, encode_utf8_valid_utf8};
use crate::nbt::cursor::ReaderView;
use crate::nbt::error::NbtError;
use crate::nbt::kind::{kind_of_code, TagKind};
use crate::nbt::parse::{
    parse_array_len, parse_children, parse_elements, parse_entries, parse_payload,
    parse_string, parse_tag, parse_tree,
};
use crate::nbt::value::{
    all_homogeneous, count_i32, count_u16, count_u32, i32s_bytes, i64s_bytes, i8s_bytes,
    payloads_bytes, string_bytes, tags_bytes, tree_bytes, NamedValue, TagValue,
};
use crate::nbt::wire::{
    i32_bytes, i32_value, i64_bytes, i64_value, i8_value, lemma_i16_roundtrip,
    lemma_i32_roundtrip, lemma_i64_roundtrip, lemma_i8_roundtrip, lemma_u16_roundtrip,
    lemma_u32_roundtrip, lemma_u64_roundtrip, u16_bytes, u32_bytes,
};

verus! {

/// True if the bytes that the reader has before it begin with `run`.
pub open spec fn starts_with(r: ReaderView, run: Seq<u8>) -> bool {
    r.has(run.len() as int) && r.next(run.len() as int) == run
}

/// A reader that has `a + b` before it has `a` before it, and has `b`
/// before it once it has consumed `a`.
pub proof fn lemma_starts_with_both(r: ReaderView, a: Seq<u8>, b: Seq<u8>)
    requires
        starts_with(r, a + b),
    ensures
        starts_with(r, a),
        starts_with(r.advance(a.len() as int), b),
{
    let whole = r.next((a + b).len() as int);
    assert(r.next(a.len() as int) =~= whole.subrange(0, a.len() as int));
    assert(whole.subrange(0, a.len() as int) =~= a);
    assert(r.advance(a.len() as int).next(b.len() as int) =~= whole.subrange(
        a.len() as int,
        (a + b).len() as int,
    ));
    assert(whole.subrange(a.len() as int, (a + b).len() as int) =~= b);
}

/// A reader that has `run` before it has every beginning of `run` before
/// it.
pub proof fn lemma_starts_with_beginning(r: ReaderView, run: Seq<u8>, n: int)
    requires
        starts_with(r, run),
        0 <= n <= run.len(),
    ensures
        starts_with(r, run.subrange(0, n)),
{
    assert(run =~= run.subrange(0, n) + run.subrange(n, run.len() as int));
    lemma_starts_with_both(r, run.subrange(0, n), run.subrange(n, run.len() as int));
}

/// True if the length of the UTF-8 form of `s` can be written in 16 bits.
pub open spec fn string_fits(s: Seq<char>) -> bool {
    encode_utf8(s).len() <= 0xffff
}

/// A string that was written is read back as it was.
pub proof fn lemma_string_roundtrip(r: ReaderView, s: Seq<char>)
    requires
        string_fits(s),
        starts_with(r, string_bytes(r.little_endian, s)),
    ensures
        parse_string(r) == Ok::<(Seq<char>, ReaderView), NbtError>(
            (s, r.advance(string_bytes(r.little_endian, s).len() as int)),
        ),
        string_bytes(r.little_endian, s).len() == 2 + encode_utf8(s).len(),
{
    let le = r.little_endian;
    let form = encode_utf8(s);
    let head = u16_bytes(le, count_u16(form.len()));
    lemma_u16_roundtrip(le, count_u16(form.len()));
    lemma_starts_with_both(r, head, form);
    encode_utf8_valid_utf8(s);
    encode_utf8_decode_utf8(s);
    assert(r.advance(2).advance(form.len() as int) == r.advance(2 + form.len() as int));
}

/// The first `n` elements of an int array take four bytes each, and lie in
/// order.
pub proof fn lemma_i32s_layout(little_endian: bool, a: Seq<i32>, n: nat)
    requires
        n <= a.len(),
    ensures
        i32s_bytes(little_endian, a, n).len() == 4 * n,
        forall|i: int|
            0 <= i < n ==> #[trigger] i32s_bytes(little_endian, a, n).subrange(4 * i, 4 * i + 4)
                == i32_bytes(little_endian, a[i]),
    decreases n,
{
    if n > 0 {
        let before = i32s_bytes(little_endian, a, (n - 1) as nat);
        let last = i32_bytes(little_endian, a[n - 1]);
        let all = i32s_bytes(little_endian, a, n);
        lemma_i32s_layout(little_endian, a, (n - 1) as nat);
        lemma_i32_roundtrip(little_endian, a[n - 1]);
        assert forall|i: int| 0 <= i < n implies #[trigger] all.subrange(4 * i, 4 * i + 4)
            == i32_bytes(little_endian, a[i]) by {
            if i < n - 1 {
                assert(all.subrange(4 * i, 4 * i + 4) =~= before.subrange(4 * i, 4 * i + 4));
            } else {
                assert(all.subrange(4 * i, 4 * i + 4) =~= last);
            }
        }
    }
}

/// The first `n` elements of a long array take eight bytes each, and lie in
/// order.
pub proof fn lemma_i64s_layout(little_endian: bool, a: Seq<i64>, n: nat)
    requires
        n <= a.len(),
    ensures
        i64s_bytes(little_endian, a, n).len() == 8 * n,
        forall|i: int|
            0 <= i < n ==> #[trigger] i64s_bytes(little_endian, a, n).subrange(8 * i, 8 * i + 8)
                == i64_bytes(little_endian, a[i]),
    decreases n,
{
    if n > 0 {
        let before = i64s_bytes(little_endian, a, (n - 1) as nat);
        let last = i64_bytes(little_endian, a[n - 1]);
        let all = i64s_bytes(little_endian, a, n);
        lemma_i64s_layout(little_endian, a, (n - 1) as nat);
        lemma_i64_roundtrip(little_endian, a[n - 1]);
        assert forall|i: int| 0 <= i < n implies #[trigger] all.subrange(8 * i, 8 * i + 8)
            == i64_bytes(little_endian, a[i]) by {
            if i < n - 1 {
                assert(all.subrange(8 * i, 8 * i + 8) =~= before.subrange(8 * i, 8 * i + 8));
            } else {
                assert(all.subrange(8 * i, 8 * i + 8) =~= last);
            }
        }
    }
}

/// The count of an array that was written is read back as the length of the
/// array.
pub proof fn lemma_array_len_roundtrip(r: ReaderView, len: nat)
    requires
        len <= i32::MAX,
        starts_with(r, i32_bytes(r.little_endian, count_i32(len))),
    ensures
        parse_array_len(r) == Ok::<(nat, ReaderView), NbtError>((len, r.advance(4))),
{
    lemma_i32_roundtrip(r.little_endian, count_i32(len));
}

/// A byte array that was written is read back as it was.
pub proof fn lemma_byte_array_roundtrip(r: ReaderView, a: Seq<i8>)
    requires
        a.len() <= i32::MAX,
        starts_with(r, TagValue::ByteArray(a).payload_bytes(r.little_endian)),
    ensures
        parse_payload(r, TagKind::ByteArray) == Ok::<(TagValue, ReaderView), NbtError>(
            (
                TagValue::ByteArray(a),
                r.advance(TagValue::ByteArray(a).payload_bytes(r.little_endian).len() as int),
            ),
        ),
{
    let le = r.little_endian;
    let head = i32_bytes(le, count_i32(a.len()));
    lemma_i32_roundtrip(le, count_i32(a.len()));
    lemma_starts_with_both(r, head, i8s_bytes(a));
    lemma_array_len_roundtrip(r, a.len());
    let body = r.advance(4);
    let read = Seq::new(a.len(), |i: int| i8_value(body.bytes[body.position + i]));
    assert forall|i: int| 0 <= i < a.len() implies read[i] == a[i] by {
        assert(body.next(a.len() as int)[i] == i8s_bytes(a)[i]);
        lemma_i8_roundtrip(a[i]);
    }
    assert(read =~= a);
    assert(body.advance(a.len() as int) == r.advance(4 + a.len() as int));
}

/// An int array that was written is read back as it was.
pub proof fn lemma_int_array_roundtrip(r: ReaderView, a: Seq<i32>)
    requires
        a.len() <= i32::MAX,
        starts_with(r, TagValue::IntArray(a).payload_bytes(r.little_endian)),
    ensures
        parse_payload(r, TagKind::IntArray) == Ok::<(TagValue, ReaderView), NbtError>(
            (
                TagValue::IntArray(a),
                r.advance(TagValue::IntArray(a).payload_bytes(r.little_endian).len() as int),
            ),
        ),
{
    let le = r.little_endian;
    let head = i32_bytes(le, count_i32(a.len()));
    let run = i32s_bytes(le, a, a.len());
    lemma_i32_roundtrip(le, count_i32(a.len()));
    lemma_starts_with_both(r, head, run);
    lemma_array_len_roundtrip(r, a.len());
    lemma_i32s_layout(le, a, a.len());
    let body = r.advance(4);
    let read = Seq::new(a.len(), |i: int| i32_value(le, body.advance(4 * i).next(4)));
    assert forall|i: int| 0 <= i < a.len() implies read[i] == a[i] by {
        assert(body.advance(4 * i).next(4) =~= run.subrange(4 * i, 4 * i + 4));
        lemma_i32_roundtrip(le, a[i]);
    }
    assert(read =~= a);
    assert(body.advance(4 * (a.len() as int)) == r.advance(4 + 4 * a.len() as int));
}

/// A long array that was written is read back as it was.
pub proof fn lemma_long_array_roundtrip(r: ReaderView, a: Seq<i64>)
    requires
        a.len() <= i32::MAX,
        starts_with(r, TagValue::LongArray(a).payload_bytes(r.little_endian)),
    ensures
        parse_payload(r, TagKind::LongArray) == Ok::<(TagValue, ReaderView), NbtError>(
            (
                TagValue::LongArray(a),
                r.advance(TagValue::LongArray(a).payload_bytes(r.little_endian).len() as int),
            ),
        ),
{
    let le = r.little_endian;
    let head = i32_bytes(le, count_i32(a.len()));
    let run = i64s_bytes(le, a, a.len());
    lemma_i32_roundtrip(le, count_i32(a.len()));
    lemma_starts_with_both(r, head, run);
    lemma_array_len_roundtrip(r, a.len());
    lemma_i64s_layout(le, a, a.len());
    let body = r.advance(4);
    let read = Seq::new(a.len(), |i: int| i64_value(le, body.advance(8 * i).next(8)));
    assert forall|i: int| 0 <= i < a.len() implies read[i] == a[i] by {
        assert(body.advance(8 * i).next(8) =~= run.subrange(8 * i, 8 * i + 8));
        lemma_i64_roundtrip(le, a[i]);
    }
    assert(read =~= a);
    assert(body.advance(8 * (a.len() as int)) == r.advance(4 + 8 * a.len() as int));
}

/// True if the bytes of `v` say all that `v` holds: each count fits into
/// the bits that the format gives it, and no tag in `v` has a payload of the
/// kind `End`, whose code is the byte that ends a compound.
pub open spec fn writable(v: TagValue) -> bool
    decreases v,
{
    match v {
        TagValue::ByteArray(a) => a.len() <= i32::MAX,
        TagValue::String(s) => string_fits(s),
        TagValue::List(_, elements) => elements.len() <= u32::MAX && forall|i: int|
            0 <= i < elements.len() ==> writable(#[trigger] elements[i]),
        TagValue::Compound(children) => forall|i: int|
            0 <= i < children.len() ==> tag_writable(#[trigger] children[i]),
        TagValue::IntArray(a) => a.len() <= i32::MAX,
        TagValue::LongArray(a) => a.len() <= i32::MAX,
        _ => true,
    }
}

/// True if the bytes of the tag `t` say all that `t` holds: the length of
/// its identifier fits into 16 bits, its payload is not of the kind `End`,
/// and its payload is writable.
pub open spec fn tag_writable(t: NamedValue) -> bool
    decreases t,
{
    string_fits(t.id) && t.data.kind() != TagKind::End && writable(t.data)
}

/// The payloads of the first `i` elements are the beginning of the payloads
/// of the first `n`.
pub proof fn lemma_payloads_beginning(little_endian: bool, elements: Seq<TagValue>, i: nat, n: nat)
    requires
        i <= n <= elements.len(),
    ensures
        payloads_bytes(little_endian, elements, i).len() <= payloads_bytes(
            little_endian,
            elements,
            n,
        ).len(),
        payloads_bytes(little_endian, elements, n).subrange(
            0,
            payloads_bytes(little_endian, elements, i).len() as int,
        ) == payloads_bytes(little_endian, elements, i),
    decreases n,
{
    let short = payloads_bytes(little_endian, elements, i);
    let long = payloads_bytes(little_endian, elements, n);
    if i == n {
        assert(long.subrange(0, short.len() as int) =~= short);
    } else {
        lemma_payloads_beginning(little_endian, elements, i, (n - 1) as nat);
        let shorter = payloads_bytes(little_endian, elements, (n - 1) as nat);
        assert(long.subrange(0, short.len() as int) =~= shorter.subrange(0, short.len() as int));
    }
}

/// The first `i` tags are the beginning of the first `n`.
pub proof fn lemma_tags_beginning(little_endian: bool, tags: Seq<NamedValue>, i: nat, n: nat)
    requires
        i <= n <= tags.len(),
    ensures
        tags_bytes(little_endian, tags, i).len() <= tags_bytes(little_endian, tags, n).len(),
        tags_bytes(little_endian, tags, n).subrange(
            0,
            tags_bytes(little_endian, tags, i).len() as int,
        ) == tags_bytes(little_endian, tags, i),
    decreases n,
{
    let short = tags_bytes(little_endian, tags, i);
    let long = tags_bytes(little_endian, tags, n);
    if i == n {
        assert(long.subrange(0, short.len() as int) =~= short);
    } else {
        lemma_tags_beginning(little_endian, tags, i, (n - 1) as nat);
        let shorter = tags_bytes(little_endian, tags, (n - 1) as nat);
        assert(long.subrange(0, short.len() as int) =~= shorter.subrange(0, short.len() as int));
    }
}

/// A payload that was written is read back as it was, by a reader that has
/// its bytes before it, and the reader then stands behind them.
pub proof fn lemma_payload_roundtrip(r: ReaderView, v: TagValue)
    requires
        v.homogeneous(),
        writable(v),
        starts_with(r, v.payload_bytes(r.little_endian)),
    ensures
        parse_payload(r, v.kind()) == Ok::<(TagValue, ReaderView), NbtError>(
            (v, r.advance(v.payload_bytes(r.little_endian).len() as int)),
        ),
    decreases v,
{
    let le = r.little_endian;
    let run = v.payload_bytes(le);
    match v {
        TagValue::End => {
            assert(r.advance(0) == r);
        },
        TagValue::Byte(x) => {
            lemma_i8_roundtrip(x);
            assert(r.next(1)[0] == run[0]);
        },
        TagValue::Short(x) => {
            lemma_i16_roundtrip(le, x);
        },
        TagValue::Int(x) => {
            lemma_i32_roundtrip(le, x);
        },
        TagValue::Long(x) => {
            lemma_i64_roundtrip(le, x);
        },
        TagValue::Float(x) => {
            lemma_u32_roundtrip(le, x);
        },
        TagValue::Double(x) => {
            lemma_u64_roundtrip(le, x);
        },
        TagValue::ByteArray(a) => {
            lemma_byte_array_roundtrip(r, a);
        },
        TagValue::String(s) => {
            lemma_string_roundtrip(r, s);
        },
        TagValue::List(kind, elements) => {
            let count = u32_bytes(le, count_u32(elements.len()));
            let rest = payloads_bytes(le, elements, elements.len());
            lemma_u32_roundtrip(le, count_u32(elements.len()));
            lemma_starts_with_both(r, seq![kind.spec_code()] + count, rest);
            lemma_starts_with_both(r, seq![kind.spec_code()], count);
            assert(r.next(1)[0] == kind.spec_code());
            let body = r.advance(1).advance(4);
            assert(body == r.advance(5));
            lemma_elements_roundtrip(body, kind, elements, 0);
            assert(elements.subrange(0, 0) =~= Seq::empty());
            assert(body.advance(0) == body);
            assert(body.advance(rest.len() as int) == r.advance(run.len() as int));
        },
        TagValue::Compound(children) => {
            lemma_children_roundtrip(r, children, 0);
            assert(children.subrange(0, 0) =~= Seq::empty());
            assert(r.advance(0) == r);
        },
        TagValue::IntArray(a) => {
            lemma_int_array_roundtrip(r, a);
        },
        TagValue::LongArray(a) => {
            lemma_long_array_roundtrip(r, a);
        },
    }
}

/// The elements of a list that were written are read back as they were:
/// a reader that has read the first `i` and stands behind them reads the
/// others and then stands behind the last.
pub proof fn lemma_elements_roundtrip(
    body: ReaderView,
    kind: TagKind,
    elements: Seq<TagValue>,
    i: nat,
)
    requires
        i <= elements.len(),
        forall|j: int|
            0 <= j < elements.len() ==> (#[trigger] elements[j]).kind() == kind
                && elements[j].homogeneous() && writable(elements[j]),
        starts_with(body, payloads_bytes(body.little_endian, elements, elements.len())),
    ensures
        parse_elements(
            body.advance(payloads_bytes(body.little_endian, elements, i).len() as int),
            kind,
            (elements.len() - i) as nat,
            elements.subrange(0, i as int),
        ) == Ok::<(Seq<TagValue>, ReaderView), NbtError>(
            (
                elements,
                body.advance(
                    payloads_bytes(body.little_endian, elements, elements.len()).len() as int,
                ),
            ),
        ),
    decreases elements, elements.len() - i,
{
    let le = body.little_endian;
    let all = payloads_bytes(le, elements, elements.len());
    let done = payloads_bytes(le, elements, i);
    let here = body.advance(done.len() as int);
    if i == elements.len() {
        assert(elements.subrange(0, i as int) =~= elements);
    } else {
        let element = elements[i as int];
        let run = element.payload_bytes(le);
        let more = payloads_bytes(le, elements, i + 1);
        assert(more == done + run);
        lemma_payloads_beginning(le, elements, i + 1, elements.len());
        lemma_starts_with_beginning(body, all, more.len() as int);
        lemma_starts_with_both(body, done, run);
        lemma_payload_roundtrip(here, element);
        let next = here.advance(run.len() as int);
        assert(next == body.advance(more.len() as int));
        lemma_elements_roundtrip(body, kind, elements, i + 1);
        assert(elements.subrange(0, i as int).push(element) =~= elements.subrange(0, i as int + 1));
    }
}

/// A tag that was written is read back as it was, by a reader that stands
/// behind its kind byte.
pub proof fn lemma_tag_roundtrip(r: ReaderView, t: NamedValue)
    requires
        t.data.homogeneous(),
        tag_writable(t),
        starts_with(
            r,
            string_bytes(r.little_endian, t.id) + t.data.payload_bytes(r.little_endian),
        ),
    ensures
        parse_tag(r, t.data.kind()) == Ok::<(NamedValue, ReaderView), NbtError>(
            (
                t,
                r.advance(
                    (string_bytes(r.little_endian, t.id) + t.data.payload_bytes(
                        r.little_endian,
                    )).len() as int,
                ),
            ),
        ),
    decreases t, 0nat,
{
    let le = r.little_endian;
    let id = string_bytes(le, t.id);
    let run = t.data.payload_bytes(le);
    lemma_starts_with_both(r, id, run);
    lemma_string_roundtrip(r, t.id);
    let body = r.advance(id.len() as int);
    lemma_payload_roundtrip(body, t.data);
    assert(body.advance(run.len() as int) == r.advance((id + run).len() as int));
}

/// The children of a compound that were written are read back as they
/// were: a reader that has read the first `i` and stands behind them reads
/// the others and the zero byte, and then stands behind that byte.
pub proof fn lemma_children_roundtrip(start: ReaderView, children: Seq<NamedValue>, i: nat)
    requires
        i <= children.len(),
        forall|j: int|
            0 <= j < children.len() ==> (#[trigger] children[j]).data.homogeneous() && tag_writable(
                children[j],
            ),
        starts_with(
            start,
            tags_bytes(start.little_endian, children, children.len()) + seq![0u8],
        ),
    ensures
        parse_children(
            start.advance(tags_bytes(start.little_endian, children, i).len() as int),
            children.subrange(0, i as int),
        ) == Ok::<(Seq<NamedValue>, ReaderView), NbtError>(
            (
                children,
                start.advance(
                    tags_bytes(start.little_endian, children, children.len()).len() as int + 1,
                ),
            ),
        ),
    decreases children, children.len() - i,
{
    let le = start.little_endian;
    let all = tags_bytes(le, children, children.len());
    let done = tags_bytes(le, children, i);
    let here = start.advance(done.len() as int);
    lemma_starts_with_both(start, all, seq![0u8]);
    if i == children.len() {
        assert(children.subrange(0, i as int) =~= children);
        assert(here.next(1)[0] == 0u8);
        assert(here.advance(1) == start.advance(all.len() as int + 1));
    } else {
        let child = children[i as int];
        let run = child.tag_bytes(le);
        let more = tags_bytes(le, children, i + 1);
        assert(more == done + run);
        lemma_tags_beginning(le, children, i + 1, children.len());
        lemma_starts_with_beginning(start, all, more.len() as int);
        lemma_starts_with_both(start, done, run);
        lemma_whole_tag_roundtrip(here, child);
        let next = here.advance(run.len() as int);
        assert(next == start.advance(more.len() as int));
        assert(next.left() < here.left());
        lemma_children_roundtrip(start, children, i + 1);
        assert(children.subrange(0, i as int).push(child) =~= children.subrange(0, i as int + 1));
    }
}

/// True if the bytes of a tree with these top-level tags say all that the
/// tree holds.
pub open spec fn tree_writable(entries: Seq<NamedValue>) -> bool {
    forall|i: int| 0 <= i < entries.len() ==> tag_writable(#[trigger] entries[i])
}

/// A reader that has a whole tag before it, kind byte first, finds the
/// kind of the tag in the first byte, and reads the tag back as it was from
/// behind that byte.
pub proof fn lemma_whole_tag_roundtrip(r: ReaderView, t: NamedValue)
    requires
        t.data.homogeneous(),
        tag_writable(t),
        starts_with(r, t.tag_bytes(r.little_endian)),
    ensures
        r.has(1),
        kind_of_code(r.bytes[r.position]) == Some(t.data.kind()),
        t.data.kind() != TagKind::End,
        t.tag_bytes(r.little_endian).len() >= 1,
        parse_tag(r.advance(1), t.data.kind()) == Ok::<(NamedValue, ReaderView), NbtError>(
            (t, r.advance(t.tag_bytes(r.little_endian).len() as int)),
        ),
    decreases t, 1nat,
{
    let le = r.little_endian;
    let code = t.data.kind().spec_code();
    let named = string_bytes(le, t.id) + t.data.payload_bytes(le);
    assert(t.tag_bytes(le) =~= seq![code] + named);
    lemma_starts_with_both(r, seq![code], named);
    assert(r.next(1)[0] == code);
    lemma_tag_roundtrip(r.advance(1), t);
    assert(r.advance(1).advance(named.len() as int) == r.advance(
        t.tag_bytes(le).len() as int,
    ));
}

/// The top-level tags that were written are read back as they were: a
/// reader that has read the first `i` and stands behind them reads the
/// others, to the end of the buffer.
pub proof fn lemma_entries_roundtrip(start: ReaderView, entries: Seq<NamedValue>, i: nat)
    requires
        i <= entries.len(),
        all_homogeneous(entries),
        tree_writable(entries),
        start.position == 0,
        start.bytes == tree_bytes(start.little_endian, entries),
    ensures
        parse_entries(
            start.advance(tags_bytes(start.little_endian, entries, i).len() as int),
            entries.subrange(0, i as int),
        ) == Ok::<Seq<NamedValue>, NbtError>(entries),
    decreases entries.len() - i,
{
    let le = start.little_endian;
    let all = tags_bytes(le, entries, entries.len());
    let done = tags_bytes(le, entries, i);
    let here = start.advance(done.len() as int);
    assert(starts_with(start, all)) by {
        assert(start.next(all.len() as int) =~= all);
    }
    lemma_tags_beginning(le, entries, i, entries.len());
    if i == entries.len() {
        assert(entries.subrange(0, i as int) =~= entries);
        assert(!here.has(1));
    } else {
        let entry = entries[i as int];
        let run = entry.tag_bytes(le);
        let more = tags_bytes(le, entries, i + 1);
        assert(more == done + run);
        lemma_tags_beginning(le, entries, i + 1, entries.len());
        lemma_starts_with_beginning(start, all, more.len() as int);
        lemma_starts_with_both(start, done, run);
        lemma_whole_tag_roundtrip(here, entry);
        let next = here.advance(run.len() as int);
        assert(next == start.advance(more.len() as int));
        assert(next.left() < here.left());
        lemma_entries_roundtrip(start, entries, i + 1);
        assert(entries.subrange(0, i as int).push(entry) =~= entries.subrange(0, i as int + 1));
    }
}

/// Decoding undoes encoding, in either byte order: the bytes of a tree
/// stand for that tree. This holds of every tree that can be encoded, that
/// is, in which every list is homogeneous, and whose bytes say all that it
/// holds.
pub proof fn lemma_decoding_undoes_encoding(little_endian: bool, entries: Seq<NamedValue>)
    requires
        all_homogeneous(entries),
        tree_writable(entries),
    ensures
        parse_tree(little_endian, tree_bytes(little_endian, entries)) == Ok::<
            Seq<NamedValue>,
            NbtError,
        >(entries),
{
    let start = ReaderView {
        little_endian,
        bytes: tree_bytes(little_endian, entries),
        position: 0,
    };
    lemma_entries_roundtrip(start, entries, 0);
    assert(entries.subrange(0, 0) =~= Seq::empty());
    assert(start.advance(0) == start);
}

/// Encoding is a function of the tree: two trees that hold the same encode
/// to the same bytes, however each was built.
pub proof fn lemma_encoding_is_deterministic(
    little_endian: bool,
    first: Seq<NamedValue>,
    second: Seq<NamedValue>,
)
    requires
        first == second,
    ensures
        tree_bytes(little_endian, first) == tree_bytes(little_endian, second),
        all_homogeneous(first) == all_homogeneous(second),
{
}

} // verus!
