//! Decoding of DNS-encoded domain names, including the label-compression
//! scheme: a name is a sequence of length-prefixed labels, ended either by a
//! zero byte or by a 14-bit pointer to an absolute offset in the same buffer
//! where the remainder of the name continues.
//!
//! The specification-level decoder is [`spec_parse_name`]; the executable
//! decoder [`parse_name`] is proved to return exactly its outcome, and to
//! leave the cursor exactly at [`spec_name_end`]. Termination on adversarial
//! pointer chains (cycles, self-references, deep chains) is enforced by the
//! chase bound [`MAX_POINTER_CHASES`] and proved by the `decreases` measures.

use crate::reader::ByteReader;
use crate::types::DecodeError;
use vstd::prelude::*;
use vstd::string::StringExecFns;
use vstd::utf8::decode_utf8;
use vstd::utf8::valid_utf8;

verus! {

/// The most compression pointers one name may chase before decoding fails
/// with [`DecodeError::BadPointer`].
pub const MAX_POINTER_CHASES: u32 = 128;

/// True of a label tag byte that begins a compression pointer (bits `11`).
pub open spec fn is_pointer_tag(tag: u8) -> bool {
    tag & 0xc0 == 0xc0
}

/// The absolute buffer offset named by a two-byte compression pointer: the
/// low 14 bits of the pair, big-endian.
pub open spec fn spec_pointer_target(b0: u8, b1: u8) -> int {
    (b0 & 0x3f) as int * 256 + b1 as int
}

/// The labels of the name encoded at `pos`, as raw byte sequences, in order.
///
/// Reads of the primary cursor are confined to `pos < limit`; a pointer
/// re-enters the buffer at any offset below `bytes.len()` (compression may
/// legally reference bytes outside the current region). `depth` bounds the
/// remaining pointer chases. Errors:
/// - `Truncated` when a tag, pointer or label text would cross `limit`;
/// - `BadPointer` on a reserved tag (`01`/`10`), a target at or past the end
///   of the buffer, or an exhausted chase bound;
/// - `BadLabel` when a pointer resolves to an empty name.
pub open spec fn spec_scan_labels(
    bytes: Seq<u8>,
    pos: int,
    limit: int,
    depth: nat,
) -> Result<Seq<Seq<u8>>, DecodeError>
    decreases depth, limit - pos,
{
    if pos < 0 || pos >= limit {
        Err(DecodeError::Truncated)
    } else {
        let tag = bytes[pos];
        if tag == 0 {
            Ok(Seq::empty())
        } else if is_pointer_tag(tag) {
            if pos + 2 > limit {
                Err(DecodeError::Truncated)
            } else {
                let target = spec_pointer_target(tag, bytes[pos + 1]);
                if target >= bytes.len() {
                    Err(DecodeError::BadPointer)
                } else if depth == 0 {
                    Err(DecodeError::BadPointer)
                } else {
                    match spec_scan_labels(bytes, target, bytes.len() as int, (depth - 1) as nat) {
                        Ok(inner) => if inner.len() == 0 {
                            Err(DecodeError::BadLabel)
                        } else {
                            Ok(inner)
                        },
                        Err(e) => Err(e),
                    }
                }
            }
        } else if tag & 0xc0 != 0 {
            Err(DecodeError::BadPointer)
        } else {
            if pos + 1 + tag as int > limit {
                Err(DecodeError::Truncated)
            } else {
                match spec_scan_labels(bytes, pos + 1 + tag as int, limit, depth) {
                    Ok(rest) => Ok(seq![bytes.subrange(pos + 1, pos + 1 + tag as int)] + rest),
                    Err(e) => Err(e),
                }
            }
        }
    }
}

/// Where the primary cursor stands after scanning the name at `pos`: past the
/// zero terminator, past the two pointer bytes, or — when the scan stops at a
/// malformed or out-of-range element — at that element itself.
pub open spec fn spec_name_end(bytes: Seq<u8>, pos: int, limit: int) -> int
    decreases limit - pos,
{
    if pos < 0 || pos >= limit {
        pos
    } else {
        let tag = bytes[pos];
        if tag == 0 {
            pos + 1
        } else if is_pointer_tag(tag) {
            if pos + 2 > limit {
                pos
            } else {
                pos + 2
            }
        } else if tag & 0xc0 != 0 {
            pos
        } else {
            if pos + 1 + tag as int > limit {
                pos
            } else {
                spec_name_end(bytes, pos + 1 + tag as int, limit)
            }
        }
    }
}

/// The dotted concatenation of decoded labels: each label's UTF-8 text,
/// joined with `'.'`.
pub open spec fn spec_join_name(labels: Seq<Seq<u8>>) -> Seq<char>
    decreases labels.len(),
{
    if labels.len() == 0 {
        Seq::empty()
    } else if labels.len() == 1 {
        decode_utf8(labels[0])
    } else {
        spec_join_name(labels.drop_last()) + seq!['.'] + decode_utf8(labels.last())
    }
}

/// True when every label is valid UTF-8 text.
pub open spec fn all_labels_utf8(labels: Seq<Seq<u8>>) -> bool {
    forall|i: int| 0 <= i < labels.len() ==> valid_utf8(#[trigger] labels[i])
}

/// Turns scanned labels into the final name: fails with `BadLabel` when some
/// label is not UTF-8 or when the name has no labels at all; otherwise the
/// labels joined with dots.
pub open spec fn spec_labels_to_name(labels: Seq<Seq<u8>>) -> Result<Seq<char>, DecodeError> {
    if !all_labels_utf8(labels) {
        Err(DecodeError::BadLabel)
    } else if labels.len() == 0 {
        Err(DecodeError::BadLabel)
    } else {
        Ok(spec_join_name(labels))
    }
}

/// The complete name decoder at the specification level: scan the labels of
/// the name at `pos` (chasing up to [`MAX_POINTER_CHASES`] pointers), then
/// join their UTF-8 texts with dots.
pub open spec fn spec_parse_name(bytes: Seq<u8>, pos: int, limit: int) -> Result<
    Seq<char>,
    DecodeError,
> {
    match spec_scan_labels(bytes, pos, limit, MAX_POINTER_CHASES as nat) {
        Ok(labels) => spec_labels_to_name(labels),
        Err(e) => Err(e),
    }
}

/// A string result, seen as its character sequence.
pub open spec fn name_result_view(r: Result<String, DecodeError>) -> Result<
    Seq<char>,
    DecodeError,
> {
    match r {
        Ok(s) => Ok(s@),
        Err(e) => Err(e),
    }
}

/// A list of owned labels, seen as a sequence of byte sequences.
pub open spec fn labels_seq(v: Vec<Vec<u8>>) -> Seq<Seq<u8>> {
    Seq::new(v@.len(), |i: int| v@[i]@)
}

/// A label-list result, seen as its sequence of byte sequences.
pub open spec fn labels_result_view(r: Result<Vec<Vec<u8>>, DecodeError>) -> Result<
    Seq<Seq<u8>>,
    DecodeError,
> {
    match r {
        Ok(v) => Ok(labels_seq(v)),
        Err(e) => Err(e),
    }
}

/// A scan outcome with already-gathered labels prepended to it.
pub open spec fn scan_with_prefix(
    prefix: Seq<Seq<u8>>,
    r: Result<Seq<Seq<u8>>, DecodeError>,
) -> Result<Seq<Seq<u8>>, DecodeError> {
    match r {
        Ok(rest) => Ok(prefix + rest),
        Err(e) => Err(e),
    }
}

/// True when the tag byte begins a compression pointer.
fn is_label_pointer(byte: u8) -> (r: bool)
    ensures
        r == is_pointer_tag(byte),
{
    (byte & 0b1100_0000) == 0b1100_0000
}

/// The 14-bit offset carried by a pointer's two bytes, read big-endian.
fn get_pointer(double_byte: u16) -> (r: u16)
    ensures
        r == double_byte & 0x3fff,
{
    double_byte & 0b0011_1111_1111_1111
}

/// The pointer mask keeps exactly the low 14 bits: applied to the big-endian
/// pair it yields [`spec_pointer_target`], always below `0x4000`.
proof fn lemma_pointer_target(w: u16, b0: u8, b1: u8)
    requires
        w == b0 as int * 256 + b1 as int,
    ensures
        w & 0x3fff == spec_pointer_target(b0, b1),
        0 <= spec_pointer_target(b0, b1) < 0x4000,
{
    assert(w & 0x3fff == ((b0 & 0x3f) as u16) * 256 + (b1 as u16)) by (bit_vector)
        requires
            w == (b0 as u16) * 256 + (b1 as u16),
    ;
    assert((b0 & 0x3f) < 0x40) by (bit_vector);
}

/// Relies on `std::str::from_utf8`: conversion succeeds exactly when the
/// bytes are valid UTF-8, and then yields the characters they encode, a
/// function of the bytes alone.
#[verifier::external_body]
fn bytes_to_string(bytes: &Vec<u8>) -> (r: Option<String>)
    ensures
        r is Some <==> valid_utf8(bytes@),
        r is Some ==> r->0@ == decode_utf8(bytes@),
{
    match std::str::from_utf8(bytes.as_slice()) {
        Ok(s) => Some(s.to_string()),
        Err(_) => None,
    }
}

/// Copies `bytes[from..to]` into an owned buffer.
fn copy_range(bytes: &Vec<u8>, from: usize, to: usize) -> (r: Vec<u8>)
    requires
        from <= to <= bytes@.len(),
    ensures
        r@ == bytes@.subrange(from as int, to as int),
{
    let mut buffer: Vec<u8> = Vec::new();
    let mut k: usize = from;
    while k < to
        invariant
            from <= k <= to <= bytes@.len(),
            buffer@ == bytes@.subrange(from as int, k as int),
        decreases to - k,
    {
        buffer.push(bytes[k]);
        k = k + 1;
        proof {
            assert(buffer@ =~= bytes@.subrange(from as int, k as int));
        }
    }
    buffer
}

/// Scans the labels of the name starting at `start`, following compression
/// pointers through the whole buffer, with `depth` chases left.
fn scan_labels(bytes: &Vec<u8>, start: usize, depth: u32) -> (r: Result<Vec<Vec<u8>>, DecodeError>)
    requires
        start <= bytes@.len(),
    ensures
        labels_result_view(r) == spec_scan_labels(
            bytes@,
            start as int,
            bytes@.len() as int,
            depth as nat,
        ),
    decreases depth,
{
    let len = bytes.len();
    let mut acc: Vec<Vec<u8>> = Vec::new();
    let mut pos = start;
    proof {
        assert(labels_seq(acc) =~= Seq::<Seq<u8>>::empty());
        if spec_scan_labels(bytes@, start as int, len as int, depth as nat) is Ok {
            assert(labels_seq(acc) + spec_scan_labels(
                bytes@,
                start as int,
                len as int,
                depth as nat,
            )->Ok_0 =~= spec_scan_labels(bytes@, start as int, len as int, depth as nat)->Ok_0);
        }
    }
    loop
        invariant
            len == bytes@.len(),
            pos <= len,
            scan_with_prefix(
                labels_seq(acc),
                spec_scan_labels(bytes@, pos as int, len as int, depth as nat),
            ) == spec_scan_labels(bytes@, start as int, len as int, depth as nat),
        decreases len - pos,
    {
        if pos >= len {
            return Err(DecodeError::Truncated);
        }
        let tag = bytes[pos];
        proof {
            assert((tag & 0xc0 == 0) <==> (tag < 64)) by (bit_vector);
        }
        if tag == 0 {
            proof {
                assert(labels_seq(acc) + Seq::<Seq<u8>>::empty() =~= labels_seq(acc));
            }
            return Ok(acc);
        } else if is_label_pointer(tag) {
            if len - pos < 2 {
                return Err(DecodeError::Truncated);
            }
            let b1 = bytes[pos + 1];
            let w = (tag as u16) * 256 + (b1 as u16);
            let target = get_pointer(w) as usize;
            proof {
                lemma_pointer_target(w, tag, b1);
            }
            if target >= len {
                return Err(DecodeError::BadPointer);
            }
            if depth == 0 {
                return Err(DecodeError::BadPointer);
            }
            match scan_labels(bytes, target, depth - 1) {
                Ok(mut inner) => {
                    if inner.len() == 0 {
                        return Err(DecodeError::BadLabel);
                    }
                    let ghost acc_view = labels_seq(acc);
                    let ghost inner_view = labels_seq(inner);
                    acc.append(&mut inner);
                    proof {
                        assert(labels_seq(acc) =~= acc_view + inner_view);
                    }
                    return Ok(acc);
                },
                Err(e) => {
                    return Err(e);
                },
            }
        } else if tag > 63 {
            return Err(DecodeError::BadPointer);
        } else {
            let l = tag as usize;
            if l > len - (pos + 1) {
                return Err(DecodeError::Truncated);
            }
            let label = copy_range(bytes, pos + 1, pos + 1 + l);
            let ghost acc_view = labels_seq(acc);
            acc.push(label);
            proof {
                assert(labels_seq(acc) =~= acc_view + seq![label@]);
                let rest_r = spec_scan_labels(bytes@, pos + 1 + l, len as int, depth as nat);
                if rest_r is Ok {
                    assert((acc_view + seq![label@]) + rest_r->Ok_0 =~= acc_view + (seq![label@]
                        + rest_r->Ok_0));
                }
            }
            pos = pos + 1 + l;
        }
    }
}

/// Scans the labels of a name from the primary cursor, confined to offsets
/// below `limit`; pointer targets are resolved against the whole buffer.
fn scan_name_from_reader(reader: &mut ByteReader, limit: usize) -> (r: Result<
    Vec<Vec<u8>>,
    DecodeError,
>)
    requires
        limit <= old(reader).bytes@.len(),
    ensures
        final(reader).bytes == old(reader).bytes,
        final(reader).byte_index as int == spec_name_end(
            old(reader).bytes@,
            old(reader).byte_index as int,
            limit as int,
        ),
        labels_result_view(r) == spec_scan_labels(
            old(reader).bytes@,
            old(reader).byte_index as int,
            limit as int,
            MAX_POINTER_CHASES as nat,
        ),
{
    let ghost depth = MAX_POINTER_CHASES as nat;
    let mut acc: Vec<Vec<u8>> = Vec::new();
    proof {
        assert(labels_seq(acc) =~= Seq::<Seq<u8>>::empty());
        let whole = spec_scan_labels(
            old(reader).bytes@,
            old(reader).byte_index as int,
            limit as int,
            depth,
        );
        if whole is Ok {
            assert(labels_seq(acc) + whole->Ok_0 =~= whole->Ok_0);
        }
    }
    loop
        invariant
            depth == MAX_POINTER_CHASES as nat,
            limit <= old(reader).bytes@.len(),
            reader.bytes == old(reader).bytes,
            scan_with_prefix(
                labels_seq(acc),
                spec_scan_labels(
                    old(reader).bytes@,
                    reader.byte_index as int,
                    limit as int,
                    depth,
                ),
            ) == spec_scan_labels(
                old(reader).bytes@,
                old(reader).byte_index as int,
                limit as int,
                depth,
            ),
            spec_name_end(old(reader).bytes@, reader.byte_index as int, limit as int)
                == spec_name_end(
                old(reader).bytes@,
                old(reader).byte_index as int,
                limit as int,
            ),
        decreases limit - reader.byte_index,
    {
        let pos = reader.byte_index;
        if pos >= limit {
            return Err(DecodeError::Truncated);
        }
        let tag = reader.bytes[pos];
        proof {
            assert((tag & 0xc0 == 0) <==> (tag < 64)) by (bit_vector);
        }
        if tag == 0 {
            reader.byte_index = pos + 1;
            proof {
                assert(labels_seq(acc) + Seq::<Seq<u8>>::empty() =~= labels_seq(acc));
            }
            return Ok(acc);
        } else if is_label_pointer(tag) {
            if limit - pos < 2 {
                return Err(DecodeError::Truncated);
            }
            let b1 = reader.bytes[pos + 1];
            let w = (tag as u16) * 256 + (b1 as u16);
            let target = get_pointer(w) as usize;
            proof {
                lemma_pointer_target(w, tag, b1);
            }
            reader.byte_index = pos + 2;
            if target >= reader.bytes.len() {
                return Err(DecodeError::BadPointer);
            }
            match scan_labels(&reader.bytes, target, MAX_POINTER_CHASES - 1) {
                Ok(mut inner) => {
                    if inner.len() == 0 {
                        return Err(DecodeError::BadLabel);
                    }
                    let ghost acc_view = labels_seq(acc);
                    let ghost inner_view = labels_seq(inner);
                    acc.append(&mut inner);
                    proof {
                        assert(labels_seq(acc) =~= acc_view + inner_view);
                    }
                    return Ok(acc);
                },
                Err(e) => {
                    return Err(e);
                },
            }
        } else if tag > 63 {
            return Err(DecodeError::BadPointer);
        } else {
            let l = tag as usize;
            if l > limit - (pos + 1) {
                return Err(DecodeError::Truncated);
            }
            let label = copy_range(&reader.bytes, pos + 1, pos + 1 + l);
            let ghost acc_view = labels_seq(acc);
            acc.push(label);
            proof {
                assert(labels_seq(acc) =~= acc_view + seq![label@]);
                let rest_r = spec_scan_labels(
                    old(reader).bytes@,
                    pos + 1 + l,
                    limit as int,
                    depth,
                );
                if rest_r is Ok {
                    assert((acc_view + seq![label@]) + rest_r->Ok_0 =~= acc_view + (seq![label@]
                        + rest_r->Ok_0));
                }
            }
            reader.byte_index = pos + 1 + l;
        }
    }
}

/// Joins decoded labels into the dotted name; fails with `BadLabel` when a
/// label is not valid UTF-8 or when there is no label at all.
fn labels_to_name(labels: &Vec<Vec<u8>>) -> (r: Result<String, DecodeError>)
    ensures
        name_result_view(r) == spec_labels_to_name(labels_seq(*labels)),
{
    let ghost dv = labels_seq(*labels);
    let mut name = String::new();
    let mut i: usize = 0;
    proof {
        assert(dv.take(0) =~= Seq::<Seq<u8>>::empty());
    }
    while i < labels.len()
        invariant
            dv == labels_seq(*labels),
            i <= labels@.len(),
            dv.len() == labels@.len(),
            forall|j: int| 0 <= j < i ==> valid_utf8(#[trigger] dv[j]),
            name@ == spec_join_name(dv.take(i as int)),
        decreases labels@.len() - i,
    {
        proof {
            assert(dv[i as int] == labels@[i as int]@);
        }
        let converted = match bytes_to_string(&labels[i]) {
            Some(s) => s,
            None => {
                proof {
                    assert(!valid_utf8(dv[i as int]));
                    assert(!all_labels_utf8(dv));
                }
                return Err(DecodeError::BadLabel);
            },
        };
        if i > 0 {
            proof {
                reveal_strlit(".");
                assert("."@ =~= seq!['.']);
            }
            name.append(".");
        }
        name.append(converted.as_str());
        i = i + 1;
        proof {
            assert(dv.take(i as int).drop_last() =~= dv.take(i - 1));
            assert(dv.take(i as int).last() == dv[i as int - 1]);
            if i == 1 {
                assert(spec_join_name(dv.take(1)) == decode_utf8(dv.take(1)[0]));
                assert(name@ =~= decode_utf8(dv[0]));
            } else {
                assert(spec_join_name(dv.take(i as int)) == spec_join_name(dv.take(i - 1))
                    + seq!['.'] + decode_utf8(dv[i as int - 1]));
                assert(name@ =~= spec_join_name(dv.take(i - 1)) + seq!['.'] + decode_utf8(
                    dv[i as int - 1],
                ));
            }
        }
    }
    if labels.len() == 0 {
        return Err(DecodeError::BadLabel);
    }
    proof {
        assert(dv.take(dv.len() as int) =~= dv);
    }
    Ok(name)
}

/// Decodes the DNS name at the cursor, reading the primary cursor only below
/// `limit`; compression pointers re-enter the whole buffer.
pub(crate) fn parse_name_limited(reader: &mut ByteReader, limit: usize) -> (r: Result<
    String,
    DecodeError,
>)
    requires
        limit <= old(reader).bytes@.len(),
    ensures
        final(reader).bytes == old(reader).bytes,
        final(reader).byte_index as int == spec_name_end(
            old(reader).bytes@,
            old(reader).byte_index as int,
            limit as int,
        ),
        name_result_view(r) == spec_parse_name(
            old(reader).bytes@,
            old(reader).byte_index as int,
            limit as int,
        ),
{
    let labels = match scan_name_from_reader(reader, limit) {
        Ok(l) => l,
        Err(e) => {
            return Err(e);
        },
    };
    labels_to_name(&labels)
}

/// Decodes the DNS name at the cursor into a dotted UTF-8 string, resolving
/// compression pointers against the whole buffer.
///
/// The result is exactly [`spec_parse_name`] over the buffer and starting
/// offset, and the cursor is left exactly at [`spec_name_end`]: past the zero
/// terminator or the pointer, however many bytes the logical name spans.
pub fn parse_name(reader: &mut ByteReader) -> (r: Result<String, DecodeError>)
    ensures
        final(reader).bytes == old(reader).bytes,
        final(reader).byte_index as int == spec_name_end(
            old(reader).bytes@,
            old(reader).byte_index as int,
            old(reader).bytes@.len() as int,
        ),
        name_result_view(r) == spec_parse_name(
            old(reader).bytes@,
            old(reader).byte_index as int,
            old(reader).bytes@.len() as int,
        ),
{
    let limit = reader.bytes.len();
    parse_name_limited(reader, limit)
}

/// Where the label at `pos` ends: past its length byte and text, or — when
/// the read would cross the end of the buffer — wherever reading stopped.
pub open spec fn spec_label_end(bytes: Seq<u8>, pos: int) -> int {
    if pos < 0 || pos >= bytes.len() {
        pos
    } else if pos + 1 + bytes[pos] as int > bytes.len() {
        bytes.len() as int
    } else {
        pos + 1 + bytes[pos] as int
    }
}

/// The single label at `pos`: a length byte, then that many bytes of UTF-8
/// text. No compression handling; [`spec_parse_name`] deals with pointers.
pub open spec fn spec_parse_label(bytes: Seq<u8>, pos: int) -> Result<Seq<char>, DecodeError> {
    if pos < 0 || pos >= bytes.len() {
        Err(DecodeError::Truncated)
    } else if pos + 1 + bytes[pos] as int > bytes.len() {
        Err(DecodeError::Truncated)
    } else if !valid_utf8(bytes.subrange(pos + 1, pos + 1 + bytes[pos] as int)) {
        Err(DecodeError::BadLabel)
    } else {
        Ok(decode_utf8(bytes.subrange(pos + 1, pos + 1 + bytes[pos] as int)))
    }
}

/// Reads one length-prefixed label at the cursor and decodes its text.
pub fn parse_label(reader: &mut ByteReader) -> (r: Result<String, DecodeError>)
    ensures
        final(reader).bytes == old(reader).bytes,
        final(reader).byte_index as int == spec_label_end(
            old(reader).bytes@,
            old(reader).byte_index as int,
        ),
        name_result_view(r) == spec_parse_label(
            old(reader).bytes@,
            old(reader).byte_index as int,
        ),
{
    let length = match reader.read_byte() {
        Some(b) => b,
        None => {
            return Err(DecodeError::Truncated);
        },
    };
    let label_raw = match reader.read_n(length as usize) {
        Some(v) => v,
        None => {
            return Err(DecodeError::Truncated);
        },
    };
    match bytes_to_string(&label_raw) {
        Some(s) => Ok(s),
        None => Err(DecodeError::BadLabel),
    }
}

} // verus!
