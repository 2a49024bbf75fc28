//! The message decoder: the 12-byte header, then `question_count` questions,
//! then `answer_count` answers, each answer's RDATA dispatched on its record
//! type. Every function's result equals the corresponding specification-level
//! decoder over the byte sequence, error for error and byte for byte.

use crate::name::name_result_view;
use crate::name::parse_name;
use crate::name::parse_name_limited;
use crate::name::spec_name_end;
use crate::name::spec_parse_name;
use crate::reader::be16_at;
use crate::reader::be32_at;
use crate::reader::ByteReader;
use crate::types::AnswerView;
use crate::types::DecodeError;
use crate::types::MDNSAnswer;
use crate::types::MDNSMessage;
use crate::types::MDNSMessageHeader;
use crate::types::MDNSQueryClass;
use crate::types::MDNSQuestion;
use crate::types::MDNSRData;
use crate::types::MDNSRecordType;
use crate::types::MessageView;
use crate::types::QuestionView;
use crate::types::RDataView;
use vstd::prelude::*;
use vstd::slice::slice_to_vec;

verus! {

/// The header encoded at `pos`: six big-endian 16-bit fields.
pub open spec fn spec_header_at(bytes: Seq<u8>, pos: int) -> MDNSMessageHeader {
    MDNSMessageHeader {
        query_identifier: be16_at(bytes, pos) as u16,
        flags: be16_at(bytes, pos + 2) as u16,
        question_count: be16_at(bytes, pos + 4) as u16,
        answer_count: be16_at(bytes, pos + 6) as u16,
        authority_count: be16_at(bytes, pos + 8) as u16,
        additional_count: be16_at(bytes, pos + 10) as u16,
    }
}

/// The header at `pos`, or `None` when fewer than 12 bytes remain.
pub open spec fn spec_parse_header(bytes: Seq<u8>, pos: int) -> Option<MDNSMessageHeader> {
    if 0 <= pos && pos + 12 <= bytes.len() {
        Some(spec_header_at(bytes, pos))
    } else {
        None
    }
}

/// One question at `pos`: a name, a 16-bit type, and a 16-bit class whose
/// high (unicast-response) bit is masked off before interpretation. Returns
/// the question and the offset just past it.
pub open spec fn spec_parse_question(bytes: Seq<u8>, pos: int) -> Result<
    (QuestionView, int),
    DecodeError,
> {
    match spec_parse_name(bytes, pos, bytes.len() as int) {
        Err(e) => Err(e),
        Ok(name) => {
            let p1 = spec_name_end(bytes, pos, bytes.len() as int);
            if p1 + 2 > bytes.len() {
                Err(DecodeError::Truncated)
            } else {
                match MDNSRecordType::spec_from_u16(be16_at(bytes, p1) as u16) {
                    None => Err(DecodeError::UnknownRecordType),
                    Some(question_type) => {
                        if p1 + 4 > bytes.len() {
                            Err(DecodeError::Truncated)
                        } else {
                            match MDNSQueryClass::spec_from_u16(
                                (be16_at(bytes, p1 + 2) as u16) & 0x7fff,
                            ) {
                                None => Err(DecodeError::UnknownClass),
                                Some(question_class) => Ok(
                                    (
                                        QuestionView { name, question_type, question_class },
                                        p1 + 4,
                                    ),
                                ),
                            }
                        }
                    },
                }
            }
        },
    }
}

/// `n` consecutive questions starting at `pos`, in wire order, and the offset
/// just past the last of them.
pub open spec fn spec_parse_questions(bytes: Seq<u8>, pos: int, n: nat) -> Result<
    (Seq<QuestionView>, int),
    DecodeError,
>
    decreases n,
{
    if n == 0 {
        Ok((Seq::empty(), pos))
    } else {
        match spec_parse_question(bytes, pos) {
            Err(e) => Err(e),
            Ok((q, p)) => match spec_parse_questions(bytes, p, (n - 1) as nat) {
                Err(e) => Err(e),
                Ok((rest, end)) => Ok((seq![q] + rest, end)),
            },
        }
    }
}

/// The resource data of one answer: `rd_length` bytes at `pos`, interpreted
/// by record type. Fixed-length types check their size; name-bearing types
/// decode a name whose reads of the primary cursor are confined to the
/// declared region, while compression may reference the whole buffer.
pub open spec fn spec_parse_rdata(
    bytes: Seq<u8>,
    pos: int,
    record_type: MDNSRecordType,
    rd_length: u16,
) -> Result<RDataView, DecodeError> {
    if pos < 0 || pos + rd_length as int > bytes.len() {
        Err(DecodeError::Truncated)
    } else {
        let end = pos + rd_length as int;
        match record_type {
            MDNSRecordType::A => if rd_length != 4 {
                Err(DecodeError::RDataLengthMismatch)
            } else {
                Ok(RDataView::A { ipv4_address: bytes.subrange(pos, end) })
            },
            MDNSRecordType::AAAA => if rd_length != 16 {
                Err(DecodeError::RDataLengthMismatch)
            } else {
                Ok(RDataView::AAAA { ipv6_addr: bytes.subrange(pos, end) })
            },
            MDNSRecordType::PTR => match spec_parse_name(bytes, pos, end) {
                Err(e) => Err(e),
                Ok(n) => Ok(RDataView::PTR { domain_name: n }),
            },
            MDNSRecordType::CNAME => match spec_parse_name(bytes, pos, end) {
                Err(e) => Err(e),
                Ok(n) => Ok(RDataView::CNAME { canonical_domain_name: n }),
            },
            MDNSRecordType::SRV => if rd_length < 6 {
                Err(DecodeError::Truncated)
            } else {
                match spec_parse_name(bytes, pos + 6, end) {
                    Err(e) => Err(e),
                    Ok(n) => Ok(
                        RDataView::SRV {
                            priority: be16_at(bytes, pos) as u16,
                            weight: be16_at(bytes, pos + 2) as u16,
                            port: be16_at(bytes, pos + 4) as u16,
                            target_domain_name: n,
                        },
                    ),
                }
            },
            MDNSRecordType::TXT => Ok(RDataView::TXT { text: bytes.subrange(pos, end) }),
            _ => Ok(RDataView::OTHER { raw: bytes.subrange(pos, end) }),
        }
    }
}

/// One answer at `pos`: owner name, type, masked class, TTL, declared
/// resource-data length, then the resource data. Returns the answer and the
/// offset just past the declared resource-data region — exactly
/// `rd_length` bytes past its start, however few bytes a compressed name in
/// it consumed.
pub open spec fn spec_parse_answer(bytes: Seq<u8>, pos: int) -> Result<
    (AnswerView, int),
    DecodeError,
> {
    match spec_parse_name(bytes, pos, bytes.len() as int) {
        Err(e) => Err(e),
        Ok(name) => {
            let p1 = spec_name_end(bytes, pos, bytes.len() as int);
            if p1 + 2 > bytes.len() {
                Err(DecodeError::Truncated)
            } else {
                match MDNSRecordType::spec_from_u16(be16_at(bytes, p1) as u16) {
                    None => Err(DecodeError::UnknownRecordType),
                    Some(answer_type) => {
                        if p1 + 4 > bytes.len() {
                            Err(DecodeError::Truncated)
                        } else {
                            match MDNSQueryClass::spec_from_u16(
                                (be16_at(bytes, p1 + 2) as u16) & 0x7fff,
                            ) {
                                None => Err(DecodeError::UnknownClass),
                                Some(answer_class) => {
                                    if p1 + 8 > bytes.len() {
                                        Err(DecodeError::Truncated)
                                    } else {
                                        let ttl = be32_at(bytes, p1 + 4) as u32;
                                        if p1 + 10 > bytes.len() {
                                            Err(DecodeError::Truncated)
                                        } else {
                                            let rd_length = be16_at(bytes, p1 + 8) as u16;
                                            match spec_parse_rdata(
                                                bytes,
                                                p1 + 10,
                                                answer_type,
                                                rd_length,
                                            ) {
                                                Err(e) => Err(e),
                                                Ok(rdata) => Ok(
                                                    (
                                                        AnswerView {
                                                            name,
                                                            answer_type,
                                                            answer_class,
                                                            ttl_seconds: ttl,
                                                            rd_length,
                                                            rdata,
                                                        },
                                                        p1 + 10 + rd_length as int,
                                                    ),
                                                ),
                                            }
                                        }
                                    }
                                },
                            }
                        }
                    },
                }
            }
        },
    }
}

/// `n` consecutive answers starting at `pos`, in wire order, and the offset
/// just past the last declared resource-data region.
pub open spec fn spec_parse_answers(bytes: Seq<u8>, pos: int, n: nat) -> Result<
    (Seq<AnswerView>, int),
    DecodeError,
>
    decreases n,
{
    if n == 0 {
        Ok((Seq::empty(), pos))
    } else {
        match spec_parse_answer(bytes, pos) {
            Err(e) => Err(e),
            Ok((a, p)) => match spec_parse_answers(bytes, p, (n - 1) as nat) {
                Err(e) => Err(e),
                Ok((rest, end)) => Ok((seq![a] + rest, end)),
            },
        }
    }
}

/// The whole message: the header at offset 0, then its `question_count`
/// questions, then its `answer_count` answers. A header shorter than 12
/// bytes fails with `Truncated`; any failing element fails the message.
pub open spec fn spec_parse_message(bytes: Seq<u8>) -> Result<MessageView, DecodeError> {
    match spec_parse_header(bytes, 0) {
        None => Err(DecodeError::Truncated),
        Some(header) => match spec_parse_questions(bytes, 12, header.question_count as nat) {
            Err(e) => Err(e),
            Ok((questions, p)) => match spec_parse_answers(
                bytes,
                p,
                header.answer_count as nat,
            ) {
                Err(e) => Err(e),
                Ok((answers, _)) => Ok(MessageView { header, questions, answers }),
            },
        },
    }
}

/// A decoded-message result, seen through its view.
pub open spec fn message_result_view(r: Result<MDNSMessage, DecodeError>) -> Result<
    MessageView,
    DecodeError,
> {
    match r {
        Ok(m) => Ok(m@),
        Err(e) => Err(e),
    }
}

/// A question-section outcome with already-decoded questions prepended.
pub open spec fn questions_with_prefix(
    prefix: Seq<QuestionView>,
    r: Result<(Seq<QuestionView>, int), DecodeError>,
) -> Result<(Seq<QuestionView>, int), DecodeError> {
    match r {
        Ok((rest, end)) => Ok((prefix + rest, end)),
        Err(e) => Err(e),
    }
}

/// An answer-section outcome with already-decoded answers prepended.
pub open spec fn answers_with_prefix(
    prefix: Seq<AnswerView>,
    r: Result<(Seq<AnswerView>, int), DecodeError>,
) -> Result<(Seq<AnswerView>, int), DecodeError> {
    match r {
        Ok((rest, end)) => Ok((prefix + rest, end)),
        Err(e) => Err(e),
    }
}

/// A successful question section holds exactly as many questions as were
/// asked for.
pub proof fn lemma_questions_count(bytes: Seq<u8>, pos: int, n: nat)
    ensures
        spec_parse_questions(bytes, pos, n) is Ok ==> spec_parse_questions(
            bytes,
            pos,
            n,
        )->Ok_0.0.len() == n,
    decreases n,
{
    if n > 0 {
        match spec_parse_question(bytes, pos) {
            Err(_) => {},
            Ok((q, p)) => {
                lemma_questions_count(bytes, p, (n - 1) as nat);
            },
        }
    }
}

/// A successful answer section holds exactly as many answers as were asked
/// for.
pub proof fn lemma_answers_count(bytes: Seq<u8>, pos: int, n: nat)
    ensures
        spec_parse_answers(bytes, pos, n) is Ok ==> spec_parse_answers(
            bytes,
            pos,
            n,
        )->Ok_0.0.len() == n,
    decreases n,
{
    if n > 0 {
        match spec_parse_answer(bytes, pos) {
            Err(_) => {},
            Ok((a, p)) => {
                lemma_answers_count(bytes, p, (n - 1) as nat);
            },
        }
    }
}

/// True when a UDP datagram takes part in mDNS: its source or destination
/// port is 5353. The caller hands in the two port numbers of the datagram.
pub fn is_mdns_packet(source_port: u16, destination_port: u16) -> (r: bool)
    ensures
        r == (source_port == 5353 || destination_port == 5353),
{
    source_port == 5353 || destination_port == 5353
}

/// Reads the six header fields. On failure the cursor sits where reading
/// stopped, as the underlying 16-bit reads leave it.
pub fn parse_mdns_header(reader: &mut ByteReader) -> (r: Option<MDNSMessageHeader>)
    ensures
        final(reader).bytes == old(reader).bytes,
        r == spec_parse_header(old(reader).bytes@, old(reader).byte_index as int),
        r is Some ==> final(reader).byte_index == old(reader).byte_index + 12,
        r is None ==> final(reader).byte_index as int == (if old(reader).byte_index
            < old(reader).bytes@.len() {
            old(reader).bytes@.len() as int
        } else {
            old(reader).byte_index as int
        }),
{
    let query_identifier = match reader.read_u16() {
        Some(v) => v,
        None => {
            return None;
        },
    };
    let flags = match reader.read_u16() {
        Some(v) => v,
        None => {
            return None;
        },
    };
    let question_count = match reader.read_u16() {
        Some(v) => v,
        None => {
            return None;
        },
    };
    let answer_count = match reader.read_u16() {
        Some(v) => v,
        None => {
            return None;
        },
    };
    let authority_count = match reader.read_u16() {
        Some(v) => v,
        None => {
            return None;
        },
    };
    let additional_count = match reader.read_u16() {
        Some(v) => v,
        None => {
            return None;
        },
    };
    Some(
        MDNSMessageHeader {
            query_identifier,
            flags,
            question_count,
            answer_count,
            authority_count,
            additional_count,
        },
    )
}

/// Decodes `question_count` questions from the cursor. On success the cursor
/// sits just past the last question; on failure it is restored to where it
/// was, and the error is exactly the one the specification decoder gives.
pub fn parse_mdns_questions(reader: &mut ByteReader, question_count: usize) -> (r: Result<
    Vec<MDNSQuestion>,
    DecodeError,
>)
    ensures
        final(reader).bytes == old(reader).bytes,
        ({
            let whole = spec_parse_questions(
                old(reader).bytes@,
                old(reader).byte_index as int,
                question_count as nat,
            );
            match r {
                Ok(qs) => whole == Ok::<_, DecodeError>((qs.deep_view(), final(reader).byte_index as int)),
                Err(e) => whole == Err::<(Seq<QuestionView>, int), _>(e) && final(reader).byte_index == old(reader).byte_index,
            }
        }),
{
    let start_index = reader.byte_index;
    let mut questions: Vec<MDNSQuestion> = Vec::new();
    let mut k: usize = 0;
    proof {
        assert(questions.deep_view() =~= Seq::<QuestionView>::empty());
        let whole = spec_parse_questions(
            old(reader).bytes@,
            old(reader).byte_index as int,
            question_count as nat,
        );
        if whole is Ok {
            assert(questions.deep_view() + whole->Ok_0.0 =~= whole->Ok_0.0);
        }
    }
    while k < question_count
        invariant
            k <= question_count,
            reader.bytes == old(reader).bytes,
            start_index == old(reader).byte_index,
            questions_with_prefix(
                questions.deep_view(),
                spec_parse_questions(
                    old(reader).bytes@,
                    reader.byte_index as int,
                    (question_count - k) as nat,
                ),
            ) == spec_parse_questions(
                old(reader).bytes@,
                old(reader).byte_index as int,
                question_count as nat,
            ),
        decreases question_count - k,
    {
        let name = match parse_name(reader) {
            Ok(n) => n,
            Err(e) => {
                reader.byte_index = start_index;
                return Err(e);
            },
        };
        let qtype_raw = match reader.read_u16() {
            Some(v) => v,
            None => {
                reader.byte_index = start_index;
                return Err(DecodeError::Truncated);
            },
        };
        let question_type = match MDNSRecordType::from_u16(qtype_raw) {
            Some(t) => t,
            None => {
                reader.byte_index = start_index;
                return Err(DecodeError::UnknownRecordType);
            },
        };
        let qclass_raw = match reader.read_u16() {
            Some(v) => v,
            None => {
                reader.byte_index = start_index;
                return Err(DecodeError::Truncated);
            },
        };
        let question_class = match MDNSQueryClass::from_u16(qclass_raw & 0x7fff) {
            Some(c) => c,
            None => {
                reader.byte_index = start_index;
                return Err(DecodeError::UnknownClass);
            },
        };
        let question = MDNSQuestion { name, question_type, question_class };
        let ghost prefix = questions.deep_view();
        let ghost qv = question@;
        questions.push(question);
        k = k + 1;
        proof {
            assert(questions.deep_view() =~= prefix + seq![qv]);
            let rest_r = spec_parse_questions(
                old(reader).bytes@,
                reader.byte_index as int,
                (question_count - k) as nat,
            );
            if rest_r is Ok {
                assert((prefix + seq![qv]) + rest_r->Ok_0.0 =~= prefix + (seq![qv]
                    + rest_r->Ok_0.0));
            }
        }
    }
    Ok(questions)
}

/// Decodes the resource data of one answer, which is declared to span
/// exactly `rd_length` bytes from the cursor. On success the cursor is
/// repositioned to the end of that region — whatever a compressed name in
/// it consumed — so that the next record stays in step; on failure it is
/// restored to the region's start.
pub fn parse_rdata(reader: &mut ByteReader, record_type: MDNSRecordType, rd_length: u16) -> (r:
    Result<MDNSRData, DecodeError>)
    ensures
        final(reader).bytes == old(reader).bytes,
        ({
            let spec_r = spec_parse_rdata(
                old(reader).bytes@,
                old(reader).byte_index as int,
                record_type,
                rd_length,
            );
            match r {
                Ok(d) => spec_r == Ok::<_, DecodeError>(d@) && final(reader).byte_index == old(reader).byte_index + rd_length,
                Err(e) => spec_r == Err::<RDataView, _>(e) && final(reader).byte_index == old(reader).byte_index,
            }
        }),
{
    let start = reader.byte_index;
    if reader.bytes.len() < rd_length as usize || start > reader.bytes.len()
        - rd_length as usize {
        return Err(DecodeError::Truncated);
    }
    let end = start + rd_length as usize;
    match record_type {
        MDNSRecordType::A => {
            if rd_length != 4 {
                return Err(DecodeError::RDataLengthMismatch);
            }
            match reader.read_n(4) {
                Some(ipv4_address) => Ok(MDNSRData::A { ipv4_address }),
                None => {
                    reader.byte_index = start;
                    Err(DecodeError::Truncated)
                },
            }
        },
        MDNSRecordType::AAAA => {
            if rd_length != 16 {
                return Err(DecodeError::RDataLengthMismatch);
            }
            match reader.read_n(16) {
                Some(ipv6_addr) => Ok(MDNSRData::AAAA { ipv6_addr }),
                None => {
                    reader.byte_index = start;
                    Err(DecodeError::Truncated)
                },
            }
        },
        MDNSRecordType::PTR => {
            match parse_name_limited(reader, end) {
                Ok(domain_name) => {
                    reader.byte_index = end;
                    Ok(MDNSRData::PTR { domain_name })
                },
                Err(e) => {
                    reader.byte_index = start;
                    Err(e)
                },
            }
        },
        MDNSRecordType::CNAME => {
            match parse_name_limited(reader, end) {
                Ok(canonical_domain_name) => {
                    reader.byte_index = end;
                    Ok(MDNSRData::CNAME { canonical_domain_name })
                },
                Err(e) => {
                    reader.byte_index = start;
                    Err(e)
                },
            }
        },
        MDNSRecordType::SRV => {
            if rd_length < 6 {
                return Err(DecodeError::Truncated);
            }
            let priority = match reader.read_u16() {
                Some(v) => v,
                None => {
                    reader.byte_index = start;
                    return Err(DecodeError::Truncated);
                },
            };
            let weight = match reader.read_u16() {
                Some(v) => v,
                None => {
                    reader.byte_index = start;
                    return Err(DecodeError::Truncated);
                },
            };
            let port = match reader.read_u16() {
                Some(v) => v,
                None => {
                    reader.byte_index = start;
                    return Err(DecodeError::Truncated);
                },
            };
            match parse_name_limited(reader, end) {
                Ok(target_domain_name) => {
                    reader.byte_index = end;
                    Ok(MDNSRData::SRV { priority, weight, port, target_domain_name })
                },
                Err(e) => {
                    reader.byte_index = start;
                    Err(e)
                },
            }
        },
        MDNSRecordType::TXT => {
            match reader.read_n(rd_length as usize) {
                Some(text) => Ok(MDNSRData::TXT { text }),
                None => {
                    reader.byte_index = start;
                    Err(DecodeError::Truncated)
                },
            }
        },
        _ => {
            match reader.read_n(rd_length as usize) {
                Some(raw) => Ok(MDNSRData::OTHER { raw }),
                None => {
                    reader.byte_index = start;
                    Err(DecodeError::Truncated)
                },
            }
        },
    }
}

/// Decodes `answer_count` answers from the cursor. On success the cursor
/// sits just past the last answer's declared resource-data region; on
/// failure it is restored to where it was.
pub fn parse_mdns_answers(reader: &mut ByteReader, answer_count: usize) -> (r: Result<
    Vec<MDNSAnswer>,
    DecodeError,
>)
    ensures
        final(reader).bytes == old(reader).bytes,
        ({
            let whole = spec_parse_answers(
                old(reader).bytes@,
                old(reader).byte_index as int,
                answer_count as nat,
            );
            match r {
                Ok(answers) => whole == Ok::<_, DecodeError>((answers.deep_view(), final(reader).byte_index as int)),
                Err(e) => whole == Err::<(Seq<AnswerView>, int), _>(e) && final(reader).byte_index == old(reader).byte_index,
            }
        }),
{
    let start_index = reader.byte_index;
    let mut answers: Vec<MDNSAnswer> = Vec::new();
    let mut k: usize = 0;
    proof {
        assert(answers.deep_view() =~= Seq::<AnswerView>::empty());
        let whole = spec_parse_answers(
            old(reader).bytes@,
            old(reader).byte_index as int,
            answer_count as nat,
        );
        if whole is Ok {
            assert(answers.deep_view() + whole->Ok_0.0 =~= whole->Ok_0.0);
        }
    }
    while k < answer_count
        invariant
            k <= answer_count,
            reader.bytes == old(reader).bytes,
            start_index == old(reader).byte_index,
            answers_with_prefix(
                answers.deep_view(),
                spec_parse_answers(
                    old(reader).bytes@,
                    reader.byte_index as int,
                    (answer_count - k) as nat,
                ),
            ) == spec_parse_answers(
                old(reader).bytes@,
                old(reader).byte_index as int,
                answer_count as nat,
            ),
        decreases answer_count - k,
    {
        let name = match parse_name(reader) {
            Ok(n) => n,
            Err(e) => {
                reader.byte_index = start_index;
                return Err(e);
            },
        };
        let atype_raw = match reader.read_u16() {
            Some(v) => v,
            None => {
                reader.byte_index = start_index;
                return Err(DecodeError::Truncated);
            },
        };
        let answer_type = match MDNSRecordType::from_u16(atype_raw) {
            Some(t) => t,
            None => {
                reader.byte_index = start_index;
                return Err(DecodeError::UnknownRecordType);
            },
        };
        let aclass_raw = match reader.read_u16() {
            Some(v) => v,
            None => {
                reader.byte_index = start_index;
                return Err(DecodeError::Truncated);
            },
        };
        let answer_class = match MDNSQueryClass::from_u16(aclass_raw & 0x7fff) {
            Some(c) => c,
            None => {
                reader.byte_index = start_index;
                return Err(DecodeError::UnknownClass);
            },
        };
        let ttl_seconds = match reader.read_u32() {
            Some(v) => v,
            None => {
                reader.byte_index = start_index;
                return Err(DecodeError::Truncated);
            },
        };
        let rd_length = match reader.read_u16() {
            Some(v) => v,
            None => {
                reader.byte_index = start_index;
                return Err(DecodeError::Truncated);
            },
        };
        let rdata = match parse_rdata(reader, answer_type, rd_length) {
            Ok(d) => d,
            Err(e) => {
                reader.byte_index = start_index;
                return Err(e);
            },
        };
        let answer = MDNSAnswer {
            name,
            answer_type,
            answer_class,
            ttl_seconds,
            rd_length,
            rdata,
        };
        let ghost prefix = answers.deep_view();
        let ghost av = answer@;
        answers.push(answer);
        k = k + 1;
        proof {
            assert(answers.deep_view() =~= prefix + seq![av]);
            let rest_r = spec_parse_answers(
                old(reader).bytes@,
                reader.byte_index as int,
                (answer_count - k) as nat,
            );
            if rest_r is Ok {
                assert((prefix + seq![av]) + rest_r->Ok_0.0 =~= prefix + (seq![av]
                    + rest_r->Ok_0.0));
            }
        }
    }
    Ok(answers)
}

/// Decodes a whole DNS message buffer: the entry point of the library.
///
/// The result is exactly the specification decoder's outcome on the bytes —
/// a pure function of the input — and a successful message carries exactly
/// `question_count` questions and `answer_count` answers.
pub fn parse_mdns_message(bytes: &[u8]) -> (r: Result<MDNSMessage, DecodeError>)
    ensures
        message_result_view(r) == spec_parse_message(bytes@),
        r is Ok ==> r->Ok_0.questions@.len() == r->Ok_0.header.question_count as int,
        r is Ok ==> r->Ok_0.answers@.len() == r->Ok_0.header.answer_count as int,
{
    let buffer = slice_to_vec(bytes);
    let mut byte_reader = ByteReader { bytes: buffer, byte_index: 0 };
    let header = match parse_mdns_header(&mut byte_reader) {
        Some(h) => h,
        None => {
            return Err(DecodeError::Truncated);
        },
    };
    let questions = match parse_mdns_questions(&mut byte_reader, header.question_count as usize) {
        Ok(qs) => qs,
        Err(e) => {
            return Err(e);
        },
    };
    let answers = match parse_mdns_answers(&mut byte_reader, header.answer_count as usize) {
        Ok(ans) => ans,
        Err(e) => {
            return Err(e);
        },
    };
    proof {
        lemma_questions_count(bytes@, 12, header.question_count as nat);
        lemma_answers_count(
            bytes@,
            spec_parse_questions(bytes@, 12, header.question_count as nat)->Ok_0.1,
            header.answer_count as nat,
        );
    }
    Ok(MDNSMessage { header, questions, answers })
}

} // verus!
