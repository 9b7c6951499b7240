//! The record codec: a deterministic byte encoding of a `Book`, with an
//! exact round trip and a fixed maximum encoded size of 1024 bytes.
//!
//! Layout: the id and `created_at` as 8-byte little-endian words, one tag
//! byte for `updated_at` followed by its 8-byte value (zero when absent),
//! then the four text fields, each as an 8-byte little-endian byte length
//! followed by the field's UTF-8 bytes.

use vstd::prelude::*;
use vstd::bytes::{
    spec_u64_to_le_bytes, spec_u64_from_le_bytes, u64_to_le_bytes, u64_from_le_bytes,
    lemma_auto_spec_u64_to_from_le_bytes,
};
use vstd::utf8::{
    encode_utf8, decode_utf8, valid_utf8, encode_utf8_valid_utf8, encode_utf8_decode_utf8,
    decode_utf8_encode_utf8,
};
use vstd::string::StringSliceAdditionalSpecFns;
use crate::book::{Book, BookPayload, BookView, PayloadView};

verus! {

/// Hard bound on the encoded size of one record, a capacity contract of
/// the storage layer: callers keep field sizes within this budget.
pub const MAX_ENCODED_SIZE: u64 = 1024;

/// Tag byte of the optional `updated_at`: 1 when present, 0 when absent.
pub open spec fn spec_opt_tag(o: Option<u64>) -> u8 {
    if o is Some {
        1u8
    } else {
        0u8
    }
}

/// Value word of the optional `updated_at`: the timestamp, or 0 when absent.
pub open spec fn spec_opt_val(o: Option<u64>) -> u64 {
    match o {
        Some(t) => t,
        None => 0u64,
    }
}

/// One text field: 8-byte little-endian byte length, then the UTF-8 bytes.
pub open spec fn spec_encode_field(s: Seq<char>) -> Seq<u8> {
    spec_u64_to_le_bytes(encode_utf8(s).len() as u64) + encode_utf8(s)
}

/// The full encoding of one record.
pub open spec fn spec_encode_book(v: BookView) -> Seq<u8> {
    spec_u64_to_le_bytes(v.id) + spec_u64_to_le_bytes(v.created_at)
        + seq![spec_opt_tag(v.updated_at)] + spec_u64_to_le_bytes(spec_opt_val(v.updated_at))
        + spec_encode_field(v.title) + spec_encode_field(v.author) + spec_encode_field(v.summary)
        + spec_encode_field(v.store_name)
}

/// The encoded size of a record: a fixed 57-byte frame plus the UTF-8
/// bytes of the four text fields.
pub proof fn lemma_encode_book_len(v: BookView)
    ensures
        spec_encode_book(v).len() == 57 + encode_utf8(v.title).len() + encode_utf8(v.author).len()
            + encode_utf8(v.summary).len() + encode_utf8(v.store_name).len(),
{
    lemma_auto_spec_u64_to_from_le_bytes();
    assert(spec_encode_field(v.title).len() == 8 + encode_utf8(v.title).len());
    assert(spec_encode_field(v.author).len() == 8 + encode_utf8(v.author).len());
    assert(spec_encode_field(v.summary).len() == 8 + encode_utf8(v.summary).len());
    assert(spec_encode_field(v.store_name).len() == 8 + encode_utf8(v.store_name).len());
    assert(seq![spec_opt_tag(v.updated_at)].len() == 1);
    assert(spec_u64_to_le_bytes(v.id).len() == 8);
    assert(spec_u64_to_le_bytes(v.created_at).len() == 8);
    assert(spec_u64_to_le_bytes(spec_opt_val(v.updated_at)).len() == 8);
    assert(spec_encode_book(v).len() == spec_u64_to_le_bytes(v.id).len()
        + spec_u64_to_le_bytes(v.created_at).len() + seq![spec_opt_tag(v.updated_at)].len()
        + spec_u64_to_le_bytes(spec_opt_val(v.updated_at)).len() + spec_encode_field(v.title).len()
        + spec_encode_field(v.author).len() + spec_encode_field(v.summary).len()
        + spec_encode_field(v.store_name).len());
}

/// Appends the bytes of a slice to a vector.
fn push_bytes(out: &mut Vec<u8>, s: &[u8])
    ensures
        final(out)@ == old(out)@ + s@,
{
    let ghost start = out@;
    let n = s.len();
    let mut i: usize = 0;
    while i < n
        invariant
            n == s@.len(),
            i <= n,
            out@ == start + s@.subrange(0, i as int),
        decreases n - i,
    {
        out.push(*vstd::slice::slice_index_get(s, i));
        i = i + 1;
        proof {
            assert(out@ =~= start + s@.subrange(0, i as int));
        }
    }
    proof {
        assert(out@ =~= start + s@);
    }
}

/// Appends the 8-byte little-endian encoding of a word.
fn push_u64(out: &mut Vec<u8>, x: u64)
    ensures
        final(out)@ == old(out)@ + spec_u64_to_le_bytes(x),
{
    let bs = u64_to_le_bytes(x);
    push_bytes(out, bs.as_slice());
}

/// Appends one encoded text field: its UTF-8 byte length, then its bytes.
fn push_field(out: &mut Vec<u8>, s: &String)
    ensures
        final(out)@ == old(out)@ + spec_encode_field(s@),
{
    let bs = s.as_str().as_bytes();
    let n = bs.len();
    push_u64(out, n as u64);
    push_bytes(out, bs);
    proof {
        assert(out@ =~= old(out)@ + spec_encode_field(s@));
    }
}

/// Encodes a record. Returns the bytes when the encoded form fits the
/// 1024-byte bound of the storage layer, and nothing when it would not:
/// an oversized record is a storage-contract violation, never truncated.
pub fn encode_book(book: &Book) -> (r: Option<Vec<u8>>)
    ensures
        match r {
            Some(bytes) => bytes@ == spec_encode_book(book@) && bytes@.len()
                <= MAX_ENCODED_SIZE,
            None => spec_encode_book(book@).len() > MAX_ENCODED_SIZE,
        },
{
    proof {
        lemma_encode_book_len(book@);
    }
    let tl = book.title.as_str().as_bytes().len();
    let al = book.author.as_str().as_bytes().len();
    let sl = book.summary.as_str().as_bytes().len();
    let nl = book.store_name.as_str().as_bytes().len();
    if tl > 1024 || al > 1024 || sl > 1024 || nl > 1024 {
        return None;
    }
    if 57 + tl + al + sl + nl > 1024 {
        return None;
    }
    let mut out: Vec<u8> = Vec::new();
    push_u64(&mut out, book.id);
    push_u64(&mut out, book.created_at);
    match book.updated_at {
        Some(t) => {
            out.push(1u8);
            push_u64(&mut out, t);
        },
        None => {
            out.push(0u8);
            push_u64(&mut out, 0u64);
        },
    }
    push_field(&mut out, &book.title);
    push_field(&mut out, &book.author);
    push_field(&mut out, &book.summary);
    push_field(&mut out, &book.store_name);
    proof {
        assert(out@ =~= spec_encode_book(book@));
    }
    Some(out)
}

/// Relies on String::from_utf8: it succeeds exactly on valid UTF-8 input,
/// and the returned string is the text those bytes encode.
#[verifier::external_body]
fn string_from_utf8(bytes: Vec<u8>) -> (r: Option<String>)
    ensures
        r is Some <==> valid_utf8(bytes@),
        r matches Some(s) ==> s@ == decode_utf8(bytes@),
{
    String::from_utf8(bytes).ok()
}

/// How an encoded record decomposes: the fixed 25-byte header fields at
/// their offsets, then the four encoded text fields.
proof fn lemma_encode_book_parts(v: BookView)
    ensures
        spec_encode_book(v).len() >= 57,
        spec_encode_book(v).subrange(0, 8) == spec_u64_to_le_bytes(v.id),
        spec_encode_book(v).subrange(8, 16) == spec_u64_to_le_bytes(v.created_at),
        spec_encode_book(v)[16] == spec_opt_tag(v.updated_at),
        spec_encode_book(v).subrange(17, 25) == spec_u64_to_le_bytes(spec_opt_val(v.updated_at)),
        spec_encode_book(v).subrange(25, spec_encode_book(v).len() as int) == spec_encode_field(
            v.title,
        ) + spec_encode_field(v.author) + spec_encode_field(v.summary) + spec_encode_field(
            v.store_name,
        ),
{
    lemma_auto_spec_u64_to_from_le_bytes();
    lemma_encode_book_len(v);
    let e = spec_encode_book(v);
    assert(e.subrange(0, 8) =~= spec_u64_to_le_bytes(v.id));
    assert(e.subrange(8, 16) =~= spec_u64_to_le_bytes(v.created_at));
    assert(e.subrange(17, 25) =~= spec_u64_to_le_bytes(spec_opt_val(v.updated_at)));
    assert(e.subrange(25, e.len() as int) =~= spec_encode_field(v.title) + spec_encode_field(
        v.author,
    ) + spec_encode_field(v.summary) + spec_encode_field(v.store_name));
}

/// How a byte sequence that begins with one encoded text field
/// decomposes: the length prefix, the UTF-8 bytes, and the remainder.
proof fn lemma_field_chain(bytes: Seq<u8>, t: Seq<char>, rest: Seq<u8>)
    requires
        bytes == spec_encode_field(t) + rest,
    ensures
        bytes.len() == 8 + encode_utf8(t).len() + rest.len(),
        bytes.subrange(0, 8) == spec_u64_to_le_bytes(encode_utf8(t).len() as u64),
        bytes.subrange(8, 8 + encode_utf8(t).len() as int) == encode_utf8(t),
        bytes.subrange(8 + encode_utf8(t).len() as int, bytes.len() as int) == rest,
{
    lemma_auto_spec_u64_to_from_le_bytes();
    let l = encode_utf8(t).len() as int;
    assert(bytes.subrange(0, 8) =~= spec_u64_to_le_bytes(encode_utf8(t).len() as u64));
    assert(bytes.subrange(8, 8 + l) =~= encode_utf8(t));
    assert(bytes.subrange(8 + l, bytes.len() as int) =~= rest);
}

/// Reads one encoded text field at offset `pos`: the 8-byte length, then
/// that many UTF-8 bytes. Succeeds exactly when the bytes from `pos` on
/// begin with a well-formed field, and returns the field's text together
/// with the offset just past it.
fn read_field(bytes: &[u8], pos: usize) -> (r: Option<(String, usize)>)
    requires
        pos <= bytes@.len(),
    ensures
        r matches Some(p) ==> pos + 8 <= p.1 <= bytes@.len() && bytes@.subrange(
            pos as int,
            p.1 as int,
        ) == spec_encode_field(p.0@),
        forall|t: Seq<char>, rest: Seq<u8>|
            bytes@.subrange(pos as int, bytes@.len() as int) == #[trigger] (spec_encode_field(t)
                + rest) ==> (r matches Some(p) && p.0@ == t && p.1 == pos + 8 + encode_utf8(
                t,
            ).len()),
{
    let n = bytes.len();
    let ghost tail = bytes@.subrange(pos as int, n as int);
    if n - pos < 8 {
        proof {
            assert forall|t: Seq<char>, rest: Seq<u8>|
                tail != #[trigger] (spec_encode_field(t) + rest) by {
                if tail == spec_encode_field(t) + rest {
                    lemma_field_chain(tail, t, rest);
                }
            }
        }
        return None;
    }
    let len_slice = vstd::slice::slice_subrange(bytes, pos, pos + 8);
    let l = u64_from_le_bytes(len_slice);
    proof {
        lemma_auto_spec_u64_to_from_le_bytes();
        assert(len_slice@ =~= tail.subrange(0, 8));
    }
    let rem = n - pos - 8;
    if l > rem as u64 {
        proof {
            assert forall|t: Seq<char>, rest: Seq<u8>|
                tail != #[trigger] (spec_encode_field(t) + rest) by {
                if tail == spec_encode_field(t) + rest {
                    lemma_field_chain(tail, t, rest);
                    assert(encode_utf8(t).len() <= rem);
                    assert(l == encode_utf8(t).len() as u64);
                }
            }
        }
        return None;
    }
    let lu = l as usize;
    let piece = vstd::slice::slice_subrange(bytes, pos + 8, pos + 8 + lu);
    proof {
        assert(piece@ =~= tail.subrange(8, 8 + lu as int));
    }
    let pv = vstd::slice::slice_to_vec(piece);
    match string_from_utf8(pv) {
        Some(s) => {
            proof {
                decode_utf8_encode_utf8(piece@);
                assert(encode_utf8(s@) == piece@);
                assert(bytes@.subrange(pos as int, (pos + 8 + lu) as int) =~= len_slice@
                    + piece@);
                assert(spec_u64_to_le_bytes(spec_u64_from_le_bytes(len_slice@)) == len_slice@);
                assert(len_slice@ == spec_u64_to_le_bytes(encode_utf8(s@).len() as u64));
                assert(bytes@.subrange(pos as int, (pos + 8 + lu) as int) == spec_encode_field(
                    s@,
                ));
                assert forall|t: Seq<char>, rest: Seq<u8>|
                    tail == #[trigger] (spec_encode_field(t) + rest) implies s@ == t && pos + 8
                    + lu == pos + 8 + encode_utf8(t).len() by {
                    lemma_field_chain(tail, t, rest);
                    assert(encode_utf8(t).len() <= rem);
                    assert(l == encode_utf8(t).len() as u64);
                    assert(piece@ == encode_utf8(t));
                    encode_utf8_decode_utf8(t);
                }
            }
            Some((s, pos + 8 + lu))
        },
        None => {
            proof {
                assert forall|t: Seq<char>, rest: Seq<u8>|
                    tail != #[trigger] (spec_encode_field(t) + rest) by {
                    if tail == spec_encode_field(t) + rest {
                        lemma_field_chain(tail, t, rest);
                        assert(l == encode_utf8(t).len() as u64);
                        assert(piece@ == encode_utf8(t));
                        encode_utf8_valid_utf8(t);
                    }
                }
            }
            None
        },
    }
}

/// Two byte sequences that begin with encoded text fields and agree as
/// wholes carry the same text and the same remainder.
proof fn lemma_field_chain_eq(t1: Seq<char>, r1: Seq<u8>, t2: Seq<char>, r2: Seq<u8>)
    requires
        spec_encode_field(t1) + r1 == spec_encode_field(t2) + r2,
        encode_utf8(t1).len() <= u64::MAX,
        encode_utf8(t2).len() <= u64::MAX,
    ensures
        t1 == t2,
        r1 == r2,
{
    lemma_auto_spec_u64_to_from_le_bytes();
    let b = spec_encode_field(t1) + r1;
    lemma_field_chain(b, t1, r1);
    lemma_field_chain(b, t2, r2);
    assert(spec_u64_from_le_bytes(spec_u64_to_le_bytes(encode_utf8(t1).len() as u64))
        == encode_utf8(t1).len() as u64);
    assert(spec_u64_from_le_bytes(spec_u64_to_le_bytes(encode_utf8(t2).len() as u64))
        == encode_utf8(t2).len() as u64);
    assert(encode_utf8(t1).len() == encode_utf8(t2).len());
    assert(encode_utf8(t1) == encode_utf8(t2));
    encode_utf8_decode_utf8(t1);
    encode_utf8_decode_utf8(t2);
    assert(t1 == t2);
}

/// The encoding is injective: records with equal encodings are equal.
pub proof fn lemma_encode_book_injective(v1: BookView, v2: BookView)
    requires
        spec_encode_book(v1) == spec_encode_book(v2),
        spec_encode_book(v1).len() <= u64::MAX,
    ensures
        v1 == v2,
{
    lemma_auto_spec_u64_to_from_le_bytes();
    lemma_encode_book_parts(v1);
    lemma_encode_book_parts(v2);
    lemma_encode_book_len(v1);
    lemma_encode_book_len(v2);
    let e = spec_encode_book(v1);
    assert(spec_u64_from_le_bytes(spec_u64_to_le_bytes(v1.id)) == v1.id);
    assert(spec_u64_from_le_bytes(spec_u64_to_le_bytes(v2.id)) == v2.id);
    assert(v1.id == v2.id);
    assert(v1.created_at == v2.created_at);
    assert(spec_opt_tag(v1.updated_at) == spec_opt_tag(v2.updated_at));
    assert(spec_opt_val(v1.updated_at) == spec_opt_val(v2.updated_at));
    assert(v1.updated_at == v2.updated_at);
    let r1a = spec_encode_field(v1.author) + spec_encode_field(v1.summary) + spec_encode_field(
        v1.store_name,
    );
    let r2a = spec_encode_field(v2.author) + spec_encode_field(v2.summary) + spec_encode_field(
        v2.store_name,
    );
    assert(e.subrange(25, e.len() as int) =~= spec_encode_field(v1.title) + r1a);
    assert(e.subrange(25, e.len() as int) =~= spec_encode_field(v2.title) + r2a);
    lemma_field_chain_eq(v1.title, r1a, v2.title, r2a);
    let r1b = spec_encode_field(v1.summary) + spec_encode_field(v1.store_name);
    let r2b = spec_encode_field(v2.summary) + spec_encode_field(v2.store_name);
    assert(r1a =~= spec_encode_field(v1.author) + r1b);
    assert(r2a =~= spec_encode_field(v2.author) + r2b);
    lemma_field_chain_eq(v1.author, r1b, v2.author, r2b);
    let r1c = spec_encode_field(v1.store_name);
    let r2c = spec_encode_field(v2.store_name);
    lemma_field_chain_eq(v1.summary, r1c, v2.summary, r2c);
    lemma_field_chain_eq(v1.store_name, Seq::<u8>::empty(), v2.store_name, Seq::<u8>::empty());
    assert(v1 =~= v2);
}

/// A byte sequence whose header words and field regions all match one
/// record is that record's encoding.
proof fn lemma_assemble_book(bytes: Seq<u8>, b: BookView, p1: int, p2: int, p3: int)
    requires
        25 <= p1 <= p2 <= p3 <= bytes.len(),
        bytes.subrange(0, 8) == spec_u64_to_le_bytes(b.id),
        bytes.subrange(8, 16) == spec_u64_to_le_bytes(b.created_at),
        bytes.subrange(16, 17) == seq![spec_opt_tag(b.updated_at)],
        bytes.subrange(17, 25) == spec_u64_to_le_bytes(spec_opt_val(b.updated_at)),
        bytes.subrange(25, p1) == spec_encode_field(b.title),
        bytes.subrange(p1, p2) == spec_encode_field(b.author),
        bytes.subrange(p2, p3) == spec_encode_field(b.summary),
        bytes.subrange(p3, bytes.len() as int) == spec_encode_field(b.store_name),
    ensures
        bytes == spec_encode_book(b),
{
    lemma_auto_spec_u64_to_from_le_bytes();
    assert(bytes =~= spec_encode_book(b));
}

/// Where each of the four encoded text fields of a record starts: the
/// byte suffix at each field's offset is that field followed by the rest.
proof fn lemma_book_field_layout(bytes: Seq<u8>, v: BookView)
    requires
        bytes == spec_encode_book(v),
    ensures
        spec_encode_field(v.title).len() == 8 + encode_utf8(v.title).len(),
        spec_encode_field(v.author).len() == 8 + encode_utf8(v.author).len(),
        spec_encode_field(v.summary).len() == 8 + encode_utf8(v.summary).len(),
        spec_encode_field(v.store_name).len() == 8 + encode_utf8(v.store_name).len(),
        bytes.len() == 25 + spec_encode_field(v.title).len() + spec_encode_field(v.author).len()
            + spec_encode_field(v.summary).len() + spec_encode_field(v.store_name).len(),
        bytes.subrange(25, bytes.len() as int) == spec_encode_field(v.title) + (spec_encode_field(
            v.author,
        ) + spec_encode_field(v.summary) + spec_encode_field(v.store_name)),
        bytes.subrange(25 + spec_encode_field(v.title).len() as int, bytes.len() as int)
            == spec_encode_field(v.author) + (spec_encode_field(v.summary) + spec_encode_field(
            v.store_name,
        )),
        bytes.subrange(
            (25 + spec_encode_field(v.title).len() + spec_encode_field(v.author).len()) as int,
            bytes.len() as int,
        ) == spec_encode_field(v.summary) + spec_encode_field(v.store_name),
        bytes.subrange(
            (25 + spec_encode_field(v.title).len() + spec_encode_field(v.author).len()
                + spec_encode_field(v.summary).len()) as int,
            bytes.len() as int,
        ) == spec_encode_field(v.store_name) + Seq::<u8>::empty(),
{
    lemma_auto_spec_u64_to_from_le_bytes();
    lemma_encode_book_parts(v);
    lemma_encode_book_len(v);
    let blen = bytes.len() as int;
    let eft = spec_encode_field(v.title);
    let efa = spec_encode_field(v.author);
    let efs = spec_encode_field(v.summary);
    let efn = spec_encode_field(v.store_name);
    assert(bytes.subrange(25, blen) =~= eft + (efa + efs + efn));
    assert(bytes.subrange(25 + eft.len() as int, blen) =~= efa + (efs + efn));
    assert(bytes.subrange((25 + eft.len() + efa.len()) as int, blen) =~= efs + efn);
    assert(bytes.subrange((25 + eft.len() + efa.len() + efs.len()) as int, blen) =~= efn
        + Seq::<u8>::empty());
}

/// Decodes a record. Succeeds exactly on the byte sequences the encoder
/// produces, and then returns the one record that encodes to them;
/// corrupt bytes yield nothing.
#[verifier::rlimit(100)]
pub fn decode_book(bytes: &[u8]) -> (r: Option<Book>)
    ensures
        r matches Some(b) ==> bytes@ == spec_encode_book(b@),
        forall|v: BookView|
            bytes@ == #[trigger] spec_encode_book(v) ==> (r matches Some(b) && b@ == v),
{
    let n = bytes.len();
    if n < 57 {
        proof {
            assert forall|v: BookView| bytes@ != #[trigger] spec_encode_book(v) by {
                if bytes@ == spec_encode_book(v) {
                    lemma_encode_book_parts(v);
                }
            }
        }
        return None;
    }
    let id = u64_from_le_bytes(vstd::slice::slice_subrange(bytes, 0, 8));
    let created_at = u64_from_le_bytes(vstd::slice::slice_subrange(bytes, 8, 16));
    let tag = *vstd::slice::slice_index_get(bytes, 16);
    let uval = u64_from_le_bytes(vstd::slice::slice_subrange(bytes, 17, 25));
    proof {
        lemma_auto_spec_u64_to_from_le_bytes();
    }
    let updated_at: Option<u64>;
    if tag == 1 {
        updated_at = Some(uval);
    } else if tag == 0 && uval == 0 {
        updated_at = None;
    } else {
        proof {
            assert forall|v: BookView| bytes@ != #[trigger] spec_encode_book(v) by {
                if bytes@ == spec_encode_book(v) {
                    lemma_encode_book_parts(v);
                    assert(tag == spec_opt_tag(v.updated_at));
                    assert(uval == spec_opt_val(v.updated_at));
                }
            }
        }
        return None;
    }
    let f1 = read_field(bytes, 25);
    let (title, p1) = match f1 {
        Some(p) => p,
        None => {
            proof {
                assert forall|v: BookView| bytes@ != #[trigger] spec_encode_book(v) by {
                    if bytes@ == spec_encode_book(v) {
                        lemma_book_field_layout(bytes@, v);
                    }
                }
            }
            return None;
        },
    };
    let f2 = read_field(bytes, p1);
    let (author, p2) = match f2 {
        Some(p) => p,
        None => {
            proof {
                assert forall|v: BookView| bytes@ != #[trigger] spec_encode_book(v) by {
                    if bytes@ == spec_encode_book(v) {
                        lemma_book_field_layout(bytes@, v);
                    }
                }
            }
            return None;
        },
    };
    let f3 = read_field(bytes, p2);
    let (summary, p3) = match f3 {
        Some(p) => p,
        None => {
            proof {
                assert forall|v: BookView| bytes@ != #[trigger] spec_encode_book(v) by {
                    if bytes@ == spec_encode_book(v) {
                        lemma_book_field_layout(bytes@, v);
                    }
                }
            }
            return None;
        },
    };
    let f4 = read_field(bytes, p3);
    let (store_name, p4) = match f4 {
        Some(p) => p,
        None => {
            proof {
                assert forall|v: BookView| bytes@ != #[trigger] spec_encode_book(v) by {
                    if bytes@ == spec_encode_book(v) {
                        lemma_book_field_layout(bytes@, v);
                    }
                }
            }
            return None;
        },
    };
    if p4 != n {
        proof {
            assert forall|v: BookView| bytes@ != #[trigger] spec_encode_book(v) by {
                if bytes@ == spec_encode_book(v) {
                    lemma_book_field_layout(bytes@, v);
                }
            }
        }
        return None;
    }
    let book = Book { id, title, author, summary, store_name, created_at, updated_at };
    proof {
        lemma_auto_spec_u64_to_from_le_bytes();
        assert(bytes@.subrange(16, 17) =~= seq![tag]);
        assert(seq![tag] == seq![spec_opt_tag(book@.updated_at)]);
        assert(uval == spec_opt_val(book@.updated_at));
        assert(bytes@.subrange(0, 8) == spec_u64_to_le_bytes(book@.id));
        assert(bytes@.subrange(8, 16) == spec_u64_to_le_bytes(book@.created_at));
        assert(bytes@.subrange(17, 25) == spec_u64_to_le_bytes(spec_opt_val(book@.updated_at)));
        lemma_assemble_book(bytes@, book@, p1 as int, p2 as int, p3 as int);
        assert forall|v: BookView| bytes@ == #[trigger] spec_encode_book(v) implies book@
            == v by {
            lemma_encode_book_injective(book@, v);
        }
    }
    Some(book)
}

/// The decoding relation at the specification level: the one record that
/// encodes to the given bytes, when such a record exists.
pub open spec fn spec_decode_book(bytes: Seq<u8>) -> Option<BookView> {
    if exists|v: BookView| spec_encode_book(v) == bytes {
        Some(choose|v: BookView| spec_encode_book(v) == bytes)
    } else {
        None
    }
}

/// Codec round trip: decoding the encoding of any record whose encoded
/// form fits the 1024-byte bound yields exactly that record.
pub proof fn lemma_codec_round_trip(v: BookView)
    requires
        spec_encode_book(v).len() <= MAX_ENCODED_SIZE,
    ensures
        spec_decode_book(spec_encode_book(v)) == Some(v),
{
    let bytes = spec_encode_book(v);
    assert(spec_encode_book(v) == bytes);
    let w = choose|w: BookView| spec_encode_book(w) == bytes;
    lemma_encode_book_injective(w, v);
}

/// The encoded size a record with the given payload fields will have:
/// the fixed 57-byte frame plus the UTF-8 bytes of the four text fields,
/// whatever the id and the timestamps.
pub open spec fn spec_payload_len(p: PayloadView) -> nat {
    57 + encode_utf8(p.title).len() + encode_utf8(p.author).len() + encode_utf8(p.summary).len()
        + encode_utf8(p.store_name).len()
}

/// Whether a payload's fields keep a record within the storage bound.
pub fn payload_fits(payload: &BookPayload) -> (r: bool)
    ensures
        r == (spec_payload_len(payload@) <= MAX_ENCODED_SIZE),
{
    let tl = payload.title.as_str().as_bytes().len();
    let al = payload.author.as_str().as_bytes().len();
    let sl = payload.summary.as_str().as_bytes().len();
    let nl = payload.store_name.as_str().as_bytes().len();
    if tl > 1024 || al > 1024 || sl > 1024 || nl > 1024 {
        false
    } else {
        57 + tl + al + sl + nl <= 1024
    }
}

} // verus!
