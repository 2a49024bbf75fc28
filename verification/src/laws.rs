//! General properties of the decoder, stated and proved over the
//! specification-level functions that the executable contracts are pinned to.

use crate::name::all_labels_utf8;
use crate::name::is_pointer_tag;
use crate::name::spec_join_name;
use crate::name::spec_labels_to_name;
use crate::name::spec_parse_name;
use crate::name::spec_pointer_target;
use crate::name::spec_scan_labels;
use crate::name::MAX_POINTER_CHASES;
use crate::parser::spec_parse_message;
use crate::parser::spec_parse_rdata;
use crate::reader::be16_at;
use crate::types::DecodeError;
use crate::types::MDNSMessageHeader;
use crate::types::MDNSRecordType;
use crate::types::MessageView;
use crate::types::RDataView;
use vstd::prelude::*;
use vstd::utf8::decode_utf8;
use vstd::utf8::valid_utf8;

verus! {

/// True of a string that, split on `'.'`, yields no empty segment: it is
/// nonempty, neither starts nor ends with a dot, and holds no two adjacent
/// dots.
pub open spec fn has_no_empty_segments(s: Seq<char>) -> bool {
    &&& s.len() > 0
    &&& s[0] != '.'
    &&& s[s.len() - 1] != '.'
    &&& forall|i: int| 0 < i < s.len() ==> !(s[i - 1] == '.' && #[trigger] s[i] == '.')
}

/// The labels a successful name scan yields.
pub open spec fn spec_name_labels(bytes: Seq<u8>, pos: int, limit: int) -> Seq<Seq<u8>> {
    spec_scan_labels(bytes, pos, limit, MAX_POINTER_CHASES as nat)->Ok_0
}

/// Decoding nonempty valid UTF-8 yields at least one character.
proof fn lemma_decode_nonempty(b: Seq<u8>)
    requires
        valid_utf8(b),
        b.len() > 0,
    ensures
        decode_utf8(b).len() > 0,
{
    assert(decode_utf8(b).len() > 0);
}

/// Every label a successful scan yields has between 1 and 63 bytes: a zero
/// length byte is the terminator, and a length byte above 63 would carry tag
/// bits.
pub proof fn lemma_scan_label_sizes(bytes: Seq<u8>, pos: int, limit: int, depth: nat)
    requires
        limit <= bytes.len(),
    ensures
        spec_scan_labels(bytes, pos, limit, depth) is Ok ==> forall|i: int|
            0 <= i < spec_scan_labels(bytes, pos, limit, depth)->Ok_0.len() ==> 1 <= (
            #[trigger] spec_scan_labels(bytes, pos, limit, depth)->Ok_0[i]).len() <= 63,
    decreases depth, limit - pos,
{
    if pos < 0 || pos >= limit {
    } else {
        let tag = bytes[pos];
        if tag == 0 {
        } else if is_pointer_tag(tag) {
            if pos + 2 > limit {
            } else {
                let target = spec_pointer_target(tag, bytes[pos + 1]);
                if target >= bytes.len() || depth == 0 {
                } else {
                    lemma_scan_label_sizes(bytes, target, bytes.len() as int, (depth - 1) as nat);
                }
            }
        } else if tag & 0xc0 != 0 {
        } else {
            assert(tag < 64) by (bit_vector)
                requires
                    tag & 0xc0 == 0,
            ;
            if pos + 1 + tag as int > limit {
            } else {
                lemma_scan_label_sizes(bytes, pos + 1 + tag as int, limit, depth);
                let whole = spec_scan_labels(bytes, pos, limit, depth);
                let rest = spec_scan_labels(bytes, pos + 1 + tag as int, limit, depth);
                if rest is Ok {
                    let head = bytes.subrange(pos + 1, pos + 1 + tag as int);
                    assert(whole->Ok_0 == seq![head] + rest->Ok_0);
                    assert(head.len() == tag as int);
                    assert forall|i: int| 0 <= i < whole->Ok_0.len() implies 1 <= (
                    #[trigger] whole->Ok_0[i]).len() <= 63 by {
                        if i > 0 {
                            assert(whole->Ok_0[i] == rest->Ok_0[i - 1]);
                        }
                    }
                }
            }
        }
    }
}

/// Joining labels whose decoded texts are nonempty and dot-free gives a
/// string with no empty segments when split on `'.'`.
pub proof fn lemma_join_no_empty_segments(labels: Seq<Seq<u8>>)
    requires
        labels.len() > 0,
        forall|i: int| 0 <= i < labels.len() ==> valid_utf8(#[trigger] labels[i]),
        forall|i: int| 0 <= i < labels.len() ==> decode_utf8(#[trigger] labels[i]).len() > 0,
        forall|i: int| 0 <= i < labels.len() ==> !decode_utf8(#[trigger] labels[i]).contains('.'),
    ensures
        has_no_empty_segments(spec_join_name(labels)),
    decreases labels.len(),
{
    let s = spec_join_name(labels);
    if labels.len() == 1 {
        let d = decode_utf8(labels[0]);
        assert(s == d);
        assert forall|i: int| 0 <= i < d.len() implies d[i] != '.' by {
            if d[i] == '.' {
                assert(d.contains('.'));
            }
        }
    } else {
        let front = labels.drop_last();
        let a = spec_join_name(front);
        let d = decode_utf8(labels.last());
        assert(forall|i: int| 0 <= i < front.len() ==> front[i] == labels[i]);
        lemma_join_no_empty_segments(front);
        assert(s == a + seq!['.'] + d);
        let al = a.len() as int;
        assert forall|i: int| 0 <= i < d.len() implies d[i] != '.' by {
            if d[i] == '.' {
                assert(d.contains('.'));
            }
        }
        assert(d.len() > 0);
        assert(s.len() == al + 1 + d.len());
        assert(s[0] == a[0]);
        assert(s[s.len() - 1] == d[d.len() - 1]);
        assert forall|i: int| 0 < i < s.len() implies !(s[i - 1] == '.' && #[trigger] s[i]
            == '.') by {
            if i < al {
                assert(s[i - 1] == a[i - 1]);
                assert(s[i] == a[i]);
            } else if i == al {
                assert(s[i - 1] == a[al - 1]);
            } else if i == al + 1 {
                assert(s[i] == d[0]);
            } else {
                assert(s[i] == d[i - al - 1]);
            }
        }
    }
}

/// Law: every name the decoder produces, split on `'.'`, has no empty
/// segments — provided no label's decoded text itself contains a `'.'`
/// character (a label may legally carry one on the wire; such a name is the
/// one exception).
pub proof fn lemma_parse_name_no_empty_segments(bytes: Seq<u8>, pos: int, limit: int)
    requires
        limit <= bytes.len(),
        spec_parse_name(bytes, pos, limit) is Ok,
        forall|i: int|
            0 <= i < spec_name_labels(bytes, pos, limit).len() ==> !decode_utf8(
                #[trigger] spec_name_labels(bytes, pos, limit)[i],
            ).contains('.'),
    ensures
        has_no_empty_segments(spec_parse_name(bytes, pos, limit)->Ok_0),
{
    let scan = spec_scan_labels(bytes, pos, limit, MAX_POINTER_CHASES as nat);
    let labels = spec_name_labels(bytes, pos, limit);
    assert(scan is Ok);
    assert(spec_labels_to_name(labels) is Ok);
    assert(all_labels_utf8(labels));
    assert(labels.len() > 0);
    lemma_scan_label_sizes(bytes, pos, limit, MAX_POINTER_CHASES as nat);
    assert forall|i: int| 0 <= i < labels.len() implies decode_utf8(
        #[trigger] labels[i],
    ).len() > 0 by {
        lemma_decode_nonempty(labels[i]);
    }
    lemma_join_no_empty_segments(labels);
    assert(spec_parse_name(bytes, pos, limit)->Ok_0 == spec_join_name(labels));
}

/// Law: successfully decoded resource data has the shape its record type
/// defines — an `A` record holds exactly 4 address bytes, an `AAAA` record
/// exactly 16, and an `SRV` record recovers priority, weight and port from
/// its first six bytes in big-endian order.
pub proof fn lemma_rdata_shapes(
    bytes: Seq<u8>,
    pos: int,
    record_type: MDNSRecordType,
    rd_length: u16,
)
    requires
        spec_parse_rdata(bytes, pos, record_type, rd_length) is Ok,
    ensures
        record_type == MDNSRecordType::A ==> (spec_parse_rdata(
            bytes,
            pos,
            record_type,
            rd_length,
        )->Ok_0 matches RDataView::A { ipv4_address } && ipv4_address.len() == 4),
        record_type == MDNSRecordType::AAAA ==> (spec_parse_rdata(
            bytes,
            pos,
            record_type,
            rd_length,
        )->Ok_0 matches RDataView::AAAA { ipv6_addr } && ipv6_addr.len() == 16),
        record_type == MDNSRecordType::SRV ==> (spec_parse_rdata(
            bytes,
            pos,
            record_type,
            rd_length,
        )->Ok_0 matches RDataView::SRV { priority, weight, port, .. } && priority as int
            == be16_at(bytes, pos) && weight as int == be16_at(bytes, pos + 2) && port as int
            == be16_at(bytes, pos + 4)),
{
}

/// Law: a buffer shorter than the 12-byte header fails with `Truncated`, and
/// a buffer of exactly 12 zero bytes decodes to the all-zero header with
/// empty question and answer sections.
pub proof fn lemma_header_boundary(bytes: Seq<u8>)
    ensures
        bytes.len() < 12 ==> spec_parse_message(bytes) == Err::<MessageView, DecodeError>(
            DecodeError::Truncated,
        ),
        (bytes.len() == 12 && (forall|i: int| 0 <= i < 12 ==> bytes[i] == 0))
            ==> (spec_parse_message(bytes) matches Ok(m) && m.header == (MDNSMessageHeader {
            query_identifier: 0,
            flags: 0,
            question_count: 0,
            answer_count: 0,
            authority_count: 0,
            additional_count: 0,
        }) && m.questions.len() == 0 && m.answers.len() == 0),
{
}

} // verus!

