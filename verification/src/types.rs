//! The data model of a decoded mDNS message: record types, query classes,
//! questions, answers, resource data and the message header, together with
//! their ghost views and the error taxonomy of the decoder.

use vstd::prelude::*;

verus! {

/// A DNS record type, as carried in the 16-bit type field of questions and
/// answers. Unknown numeric codes fail decoding with
/// [`DecodeError::UnknownRecordType`].
#[derive(Debug, PartialEq, Eq, Structural, Clone, Copy)]
pub enum MDNSRecordType {
    A,
    NS,
    CNAME,
    SOA,
    PTR,
    MX,
    TXT,
    AAAA,
    SRV,
    NSEC,
    OPT,
    ANY,
    AXFR,
    MAILB,
    MAILA,
}

impl MDNSRecordType {
    /// The IANA numeric code of each record type, mapped back to the type.
    pub open spec fn spec_from_u16(value: u16) -> Option<MDNSRecordType> {
        match value {
            1u16 => Some(MDNSRecordType::A),
            2u16 => Some(MDNSRecordType::NS),
            5u16 => Some(MDNSRecordType::CNAME),
            6u16 => Some(MDNSRecordType::SOA),
            12u16 => Some(MDNSRecordType::PTR),
            15u16 => Some(MDNSRecordType::MX),
            16u16 => Some(MDNSRecordType::TXT),
            28u16 => Some(MDNSRecordType::AAAA),
            33u16 => Some(MDNSRecordType::SRV),
            41u16 => Some(MDNSRecordType::OPT),
            47u16 => Some(MDNSRecordType::NSEC),
            252u16 => Some(MDNSRecordType::AXFR),
            253u16 => Some(MDNSRecordType::MAILB),
            254u16 => Some(MDNSRecordType::MAILA),
            255u16 => Some(MDNSRecordType::ANY),
            _ => None,
        }
    }

    /// Converts a numeric record-type code to a record type, if the code is
    /// known.
    pub fn from_u16(value: u16) -> (r: Option<Self>)
        ensures
            r == Self::spec_from_u16(value),
    {
        match value {
            1 => Some(Self::A),
            2 => Some(Self::NS),
            5 => Some(Self::CNAME),
            6 => Some(Self::SOA),
            12 => Some(Self::PTR),
            15 => Some(Self::MX),
            16 => Some(Self::TXT),
            28 => Some(Self::AAAA),
            33 => Some(Self::SRV),
            41 => Some(Self::OPT),
            47 => Some(Self::NSEC),
            252 => Some(Self::AXFR),
            253 => Some(Self::MAILB),
            254 => Some(Self::MAILA),
            255 => Some(Self::ANY),
            _ => None,
        }
    }
}

/// A DNS query class. Only `IN` (1) and `ANY` (255) are accepted; the mDNS
/// cache-flush / unicast-response bit (the high bit of the wire class field)
/// is masked off before this interpretation.
#[derive(Debug, PartialEq, Eq, Structural, Clone, Copy)]
pub enum MDNSQueryClass {
    IN,
    ANY,
}

impl MDNSQueryClass {
    /// The numeric code of each query class, mapped back to the class.
    pub open spec fn spec_from_u16(value: u16) -> Option<MDNSQueryClass> {
        match value {
            1u16 => Some(MDNSQueryClass::IN),
            255u16 => Some(MDNSQueryClass::ANY),
            _ => None,
        }
    }

    /// Converts a numeric class code to a query class, if the code is known.
    pub fn from_u16(value: u16) -> (r: Option<Self>)
        ensures
            r == Self::spec_from_u16(value),
    {
        match value {
            1 => Some(Self::IN),
            255 => Some(Self::ANY),
            _ => None,
        }
    }
}

/// Why a message failed to decode. Decoding fails fast: the first malformed
/// element aborts the whole message.
#[derive(Debug, PartialEq, Eq, Structural, Clone, Copy)]
pub enum DecodeError {
    /// A primitive read went past the end of the buffer, or past the end of
    /// the region an element is declared to span.
    Truncated,
    /// A name-compression pointer targeted an offset at or past the buffer
    /// length, used the reserved label tag bits `01` or `10`, or exceeded the
    /// pointer-chase depth bound.
    BadPointer,
    /// A label's text was not valid UTF-8, or the decoded name was empty.
    BadLabel,
    /// The numeric record type did not map to a known record type.
    UnknownRecordType,
    /// The masked class value was neither `IN` (1) nor `ANY` (255).
    UnknownClass,
    /// A fixed-length record type (`A`, `AAAA`) declared a resource-data
    /// length that disagrees with its defined size.
    RDataLengthMismatch,
}

/// The 12-byte message header: six big-endian 16-bit fields.
#[derive(Debug, PartialEq, Eq, Structural, Clone, Copy)]
pub struct MDNSMessageHeader {
    pub query_identifier: u16,
    pub flags: u16,
    pub question_count: u16,
    pub answer_count: u16,
    pub authority_count: u16,
    pub additional_count: u16,
}

/// One entry of the question section.
#[derive(Debug, Clone)]
pub struct MDNSQuestion {
    /// The dotted concatenation of the name's labels.
    pub name: String,
    pub question_type: MDNSRecordType,
    pub question_class: MDNSQueryClass,
}

/// The ghost view of a question: its name as a character sequence.
pub struct QuestionView {
    pub name: Seq<char>,
    pub question_type: MDNSRecordType,
    pub question_class: MDNSQueryClass,
}

impl View for MDNSQuestion {
    type V = QuestionView;

    open spec fn view(&self) -> QuestionView {
        QuestionView {
            name: self.name@,
            question_type: self.question_type,
            question_class: self.question_class,
        }
    }
}

impl DeepView for MDNSQuestion {
    type V = QuestionView;

    open spec fn deep_view(&self) -> QuestionView {
        self.view()
    }
}

/// Decoded resource data, with a layout determined by the record type.
/// `OTHER` is the fallback for every type without a dedicated decoding.
#[derive(Debug, Clone)]
pub enum MDNSRData {
    /// An IPv4 address: exactly 4 bytes, network byte order.
    A { ipv4_address: Vec<u8> },
    /// An IPv6 address: exactly 16 bytes.
    AAAA { ipv6_addr: Vec<u8> },
    /// A domain name, possibly compressed on the wire.
    PTR { domain_name: String },
    /// Service instance details; the target name may be compressed.
    SRV { priority: u16, weight: u16, port: u16, target_domain_name: String },
    /// Opaque text data, kept as the raw bytes of the record.
    TXT { text: Vec<u8> },
    /// An alias for a domain name, possibly compressed on the wire.
    CNAME { canonical_domain_name: String },
    /// The raw resource data of any other record type.
    OTHER { raw: Vec<u8> },
}

/// The ghost view of resource data, over byte and character sequences.
pub enum RDataView {
    A { ipv4_address: Seq<u8> },
    AAAA { ipv6_addr: Seq<u8> },
    PTR { domain_name: Seq<char> },
    SRV { priority: u16, weight: u16, port: u16, target_domain_name: Seq<char> },
    TXT { text: Seq<u8> },
    CNAME { canonical_domain_name: Seq<char> },
    OTHER { raw: Seq<u8> },
}

impl View for MDNSRData {
    type V = RDataView;

    open spec fn view(&self) -> RDataView {
        match self {
            MDNSRData::A { ipv4_address } => RDataView::A { ipv4_address: ipv4_address@ },
            MDNSRData::AAAA { ipv6_addr } => RDataView::AAAA { ipv6_addr: ipv6_addr@ },
            MDNSRData::PTR { domain_name } => RDataView::PTR { domain_name: domain_name@ },
            MDNSRData::SRV { priority, weight, port, target_domain_name } => RDataView::SRV {
                priority: *priority,
                weight: *weight,
                port: *port,
                target_domain_name: target_domain_name@,
            },
            MDNSRData::TXT { text } => RDataView::TXT { text: text@ },
            MDNSRData::CNAME { canonical_domain_name } => RDataView::CNAME {
                canonical_domain_name: canonical_domain_name@,
            },
            MDNSRData::OTHER { raw } => RDataView::OTHER { raw: raw@ },
        }
    }
}

impl DeepView for MDNSRData {
    type V = RDataView;

    open spec fn deep_view(&self) -> RDataView {
        self.view()
    }
}

/// One entry of the answer section.
#[derive(Debug, Clone)]
pub struct MDNSAnswer {
    /// The owner name of the record.
    pub name: String,
    pub answer_type: MDNSRecordType,
    pub answer_class: MDNSQueryClass,
    pub ttl_seconds: u32,
    /// The resource-data length as declared on the wire.
    pub rd_length: u16,
    pub rdata: MDNSRData,
}

/// The ghost view of an answer.
pub struct AnswerView {
    pub name: Seq<char>,
    pub answer_type: MDNSRecordType,
    pub answer_class: MDNSQueryClass,
    pub ttl_seconds: u32,
    pub rd_length: u16,
    pub rdata: RDataView,
}

impl View for MDNSAnswer {
    type V = AnswerView;

    open spec fn view(&self) -> AnswerView {
        AnswerView {
            name: self.name@,
            answer_type: self.answer_type,
            answer_class: self.answer_class,
            ttl_seconds: self.ttl_seconds,
            rd_length: self.rd_length,
            rdata: self.rdata@,
        }
    }
}

impl DeepView for MDNSAnswer {
    type V = AnswerView;

    open spec fn deep_view(&self) -> AnswerView {
        self.view()
    }
}

/// A fully decoded message: the header, the questions and the answers, in
/// wire order. Authority and additional records are counted in the header but
/// not decoded.
#[derive(Debug, Clone)]
pub struct MDNSMessage {
    pub header: MDNSMessageHeader,
    pub questions: Vec<MDNSQuestion>,
    pub answers: Vec<MDNSAnswer>,
}

/// The ghost view of a message.
pub struct MessageView {
    pub header: MDNSMessageHeader,
    pub questions: Seq<QuestionView>,
    pub answers: Seq<AnswerView>,
}

impl View for MDNSMessage {
    type V = MessageView;

    open spec fn view(&self) -> MessageView {
        MessageView {
            header: self.header,
            questions: self.questions.deep_view(),
            answers: self.answers.deep_view(),
        }
    }
}

} // verus!
