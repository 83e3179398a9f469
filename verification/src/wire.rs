//! The DNS wire format, as functions between messages and bytes.
//!
//! `parsed_*` says what a packet means, `encoded_*` which bytes stand for a
//! message. Numbers are big-endian. A name is a run of labels, each behind its
//! length, closed by a zero byte or by a pointer to another place in the packet.
use vstd::prelude::*;
use vstd::utf8::*;

use crate::qtype;
use crate::text;

verus! {

/// How many labels and pointers are followed in one name before it is given up.
pub const MAX_NAME_STEPS: usize = 129;

// ── What a message says ─────────────────────────────────────────────────────

#[verifier::ext_equal]
pub struct QuestionView {
    pub name: Seq<char>,
    pub qtype: u16,
    pub qclass: u16,
}

#[verifier::ext_equal]
pub enum DataView {
    A(Seq<u8>),
    Aaaa(Seq<u8>),
    Cname(Seq<char>),
    Raw(Seq<u8>),
}

#[verifier::ext_equal]
pub struct RecordView {
    pub name: Seq<char>,
    pub rtype: u16,
    pub rclass: u16,
    pub ttl: u32,
    pub rdata: DataView,
}

#[verifier::ext_equal]
pub struct MessageView {
    pub id: u16,
    pub flags: u16,
    pub questions: Seq<QuestionView>,
    pub answers: Seq<RecordView>,
    pub authorities: Seq<RecordView>,
    pub additionals: Seq<RecordView>,
}

// ── Numbers ─────────────────────────────────────────────────────────────────

/// The two bytes at `pos` as a number.
pub open spec fn be16(buf: Seq<u8>, pos: int) -> u16 {
    (buf[pos] * 256 + buf[pos + 1]) as u16
}

/// The four bytes at `pos` as a number.
pub open spec fn be32(buf: Seq<u8>, pos: int) -> u32 {
    (buf[pos] * 0x100_0000 + buf[pos + 1] * 0x1_0000 + buf[pos + 2] * 0x100 + buf[pos + 3]) as u32
}

/// The two bytes of a number.
pub open spec fn bytes16(v: u16) -> Seq<u8> {
    seq![(v / 256) as u8, (v % 256) as u8]
}

/// The four bytes of a number.
pub open spec fn bytes32(v: u32) -> Seq<u8> {
    seq![
        (v / 0x100_0000) as u8,
        (v / 0x1_0000 % 0x100) as u8,
        (v / 0x100 % 0x100) as u8,
        (v % 0x100) as u8,
    ]
}

/// `n` cut down to sixteen bits.
pub open spec fn low16(n: nat) -> u16 {
    (n % 0x1_0000) as u16
}

/// One digit in base sixteen.
pub open spec fn hex_digit(n: int) -> char {
    if n < 10 {
        ('0' as u8 + n) as char
    } else {
        ('a' as u8 + (n - 10)) as char
    }
}

// ── Reading ─────────────────────────────────────────────────────────────────

/// What was read and the position behind it, or the message of the error.
pub type Reading<T> = Result<(T, int), Seq<char>>;

/// The complaint about a label whose first two bits are neither 00 nor 11.
pub open spec fn unsupported_label(len: u8) -> Seq<char> {
    "unsupported label type 0x"@ + seq![hex_digit(len as int / 16), hex_digit(len as int % 16)]
}

/// Where the pointer at `pos` points.
pub open spec fn pointer_target(buf: Seq<u8>, pos: int) -> int {
    (buf[pos] - 0xC0) * 256 + buf[pos + 1]
}

/// The labels of the name at `pos`, in lower case, and the position behind the
/// name. `steps` labels and pointers are followed at most; what follows the first
/// pointer does not move that position.
pub open spec fn parsed_labels(buf: Seq<u8>, pos: int, steps: nat) -> Reading<Seq<Seq<char>>>
    decreases steps,
{
    if steps == 0 {
        Err("name compression loop"@)
    } else if pos >= buf.len() {
        Err("name OOB"@)
    } else if buf[pos] == 0 {
        Ok((seq![], pos + 1))
    } else if buf[pos] >= 0xC0 {
        if pos + 1 >= buf.len() {
            Err("pointer OOB"@)
        } else {
            match parsed_labels(buf, pointer_target(buf, pos), (steps - 1) as nat) {
                Ok((labels, _)) => Ok((labels, pos + 2)),
                Err(e) => Err(e),
            }
        }
    } else if buf[pos] < 0x40 {
        let end = pos + 1 + buf[pos];
        if end > buf.len() {
            Err("label OOB"@)
        } else if !valid_utf8(buf.subrange(pos + 1, end)) {
            Err("invalid UTF-8 label"@)
        } else {
            let label = text::lowercase(decode_utf8(buf.subrange(pos + 1, end)));
            match parsed_labels(buf, end, (steps - 1) as nat) {
                Ok((labels, p)) => Ok((seq![label] + labels, p)),
                Err(e) => Err(e),
            }
        }
    } else {
        Err(unsupported_label(buf[pos]))
    }
}

/// The name at `pos`: its labels joined by dots, without dots at the end. Only labels
/// that hold dots themselves can leave any there.
pub open spec fn parsed_name(buf: Seq<u8>, pos: int) -> Reading<Seq<char>> {
    match parsed_labels(buf, pos, MAX_NAME_STEPS as nat) {
        Ok((labels, end)) => Ok((text::trimmed_end_of(text::joined(labels, '.'), '.'), end)),
        Err(e) => Err(e),
    }
}

/// The question at `pos`: a name, a type and a class.
pub open spec fn parsed_question(buf: Seq<u8>, pos: int) -> Reading<QuestionView> {
    match parsed_name(buf, pos) {
        Ok((name, p)) => if p + 4 > buf.len() {
            Err("truncated question"@)
        } else {
            Ok((QuestionView { name, qtype: be16(buf, p), qclass: be16(buf, p + 2) }, p + 4))
        },
        Err(e) => Err(e),
    }
}

/// `count` questions, the first at `pos`.
pub open spec fn parsed_questions(buf: Seq<u8>, pos: int, count: nat) -> Reading<Seq<QuestionView>>
    decreases count,
{
    if count == 0 {
        Ok((seq![], pos))
    } else {
        match parsed_question(buf, pos) {
            Ok((q, p)) => match parsed_questions(buf, p, (count - 1) as nat) {
                Ok((qs, end)) => Ok((seq![q] + qs, end)),
                Err(e) => Err(e),
            },
            Err(e) => Err(e),
        }
    }
}

/// The data of a record of type `rtype` in the `len` bytes at `pos`. An address is
/// taken as such where it has the length of one.
pub open spec fn parsed_data(buf: Seq<u8>, pos: int, len: int, rtype: u16) -> Result<
    DataView,
    Seq<char>,
> {
    if rtype == qtype::A && len == 4 {
        Ok(DataView::A(buf.subrange(pos, pos + len)))
    } else if rtype == qtype::AAAA && len == 16 {
        Ok(DataView::Aaaa(buf.subrange(pos, pos + len)))
    } else if rtype == qtype::CNAME {
        match parsed_name(buf, pos) {
            Ok((name, _)) => Ok(DataView::Cname(name)),
            Err(e) => Err(e),
        }
    } else {
        Ok(DataView::Raw(buf.subrange(pos, pos + len)))
    }
}

/// The record at `pos`: a name, a type, a class, a time to live, and data behind
/// its length.
pub open spec fn parsed_record(buf: Seq<u8>, pos: int) -> Reading<RecordView> {
    match parsed_name(buf, pos) {
        Ok((name, p)) => if p + 10 > buf.len() {
            Err("RR header truncated"@)
        } else {
            let len = be16(buf, p + 8) as int;
            if p + 10 + len > buf.len() {
                Err("RDATA truncated"@)
            } else {
                match parsed_data(buf, p + 10, len, be16(buf, p)) {
                    Ok(rdata) => Ok(
                        (
                            RecordView {
                                name,
                                rtype: be16(buf, p),
                                rclass: be16(buf, p + 2),
                                ttl: be32(buf, p + 4),
                                rdata,
                            },
                            p + 10 + len,
                        ),
                    ),
                    Err(e) => Err(e),
                }
            }
        },
        Err(e) => Err(e),
    }
}

/// `count` records, the first at `pos`.
pub open spec fn parsed_records(buf: Seq<u8>, pos: int, count: nat) -> Reading<Seq<RecordView>>
    decreases count,
{
    if count == 0 {
        Ok((seq![], pos))
    } else {
        match parsed_record(buf, pos) {
            Ok((r, p)) => match parsed_records(buf, p, (count - 1) as nat) {
                Ok((rs, end)) => Ok((seq![r] + rs, end)),
                Err(e) => Err(e),
            },
            Err(e) => Err(e),
        }
    }
}

/// The message in `buf`. Additional records are not read.
pub open spec fn parsed_message(buf: Seq<u8>) -> Result<MessageView, Seq<char>> {
    if buf.len() < 12 {
        Err("packet too short"@)
    } else {
        match parsed_questions(buf, 12, be16(buf, 4) as nat) {
            Ok((questions, p)) => match parsed_records(buf, p, be16(buf, 6) as nat) {
                Ok((answers, p)) => match parsed_records(buf, p, be16(buf, 8) as nat) {
                    Ok((authorities, _)) => Ok(
                        MessageView {
                            id: be16(buf, 0),
                            flags: be16(buf, 2),
                            questions,
                            answers,
                            authorities,
                            additionals: seq![],
                        },
                    ),
                    Err(e) => Err(e),
                },
                Err(e) => Err(e),
            },
            Err(e) => Err(e),
        }
    }
}

// ── Writing ─────────────────────────────────────────────────────────────────

/// A label behind its length in bytes, which is cut down to one byte.
pub open spec fn encoded_label(label: Seq<char>) -> Seq<u8> {
    seq![(encode_utf8(label).len() % 256) as u8] + encode_utf8(label)
}

pub open spec fn encoded_labels(labels: Seq<Seq<char>>) -> Seq<u8>
    decreases labels.len(),
{
    if labels.len() == 0 {
        seq![]
    } else {
        encoded_label(labels[0]) + encoded_labels(labels.drop_first())
    }
}

/// A name: the parts between its dots as labels, then a zero byte. The empty name
/// has no label.
pub open spec fn encoded_name(name: Seq<char>) -> Seq<u8> {
    if name.len() == 0 {
        seq![0u8]
    } else {
        encoded_labels(text::pieces(name, '.')) + seq![0u8]
    }
}

pub open spec fn encoded_question(q: QuestionView) -> Seq<u8> {
    encoded_name(q.name) + bytes16(q.qtype) + bytes16(q.qclass)
}

pub open spec fn encoded_questions(qs: Seq<QuestionView>) -> Seq<u8>
    decreases qs.len(),
{
    if qs.len() == 0 {
        seq![]
    } else {
        encoded_question(qs[0]) + encoded_questions(qs.drop_first())
    }
}

pub open spec fn encoded_data(data: DataView) -> Seq<u8> {
    match data {
        DataView::A(ip) => ip,
        DataView::Aaaa(ip) => ip,
        DataView::Cname(name) => encoded_name(name),
        DataView::Raw(bytes) => bytes,
    }
}

pub open spec fn encoded_record(r: RecordView) -> Seq<u8> {
    encoded_name(r.name) + bytes16(r.rtype) + bytes16(r.rclass) + bytes32(r.ttl) + bytes16(
        low16(encoded_data(r.rdata).len()),
    ) + encoded_data(r.rdata)
}

pub open spec fn encoded_records(rs: Seq<RecordView>) -> Seq<u8>
    decreases rs.len(),
{
    if rs.len() == 0 {
        seq![]
    } else {
        encoded_record(rs[0]) + encoded_records(rs.drop_first())
    }
}

/// The twelve bytes before the sections: identity, flags and four counts.
pub open spec fn encoded_header(m: MessageView) -> Seq<u8> {
    bytes16(m.id) + bytes16(m.flags) + bytes16(low16(m.questions.len())) + bytes16(
        low16(m.answers.len()),
    ) + bytes16(low16(m.authorities.len())) + bytes16(low16(m.additionals.len()))
}

/// A message. Additional records are counted and not written.
pub open spec fn encoded_message(m: MessageView) -> Seq<u8> {
    encoded_header(m) + encoded_questions(m.questions) + encoded_records(m.answers)
        + encoded_records(m.authorities)
}

// ── Responses ───────────────────────────────────────────────────────────────

/// The flags of a standard query: QR and the four bits of OPCODE, the five highest
/// bits, are zero.
pub open spec fn query_flags(flags: u16) -> bool {
    flags < 0x0800
}

/// The flags of a response: QR and RA set, RD as in the query, and the code.
pub open spec fn response_flags(flags: u16, rcode: u16) -> u16 {
    0x8000 | (flags & 0x0100) | 0x0080 | rcode
}

/// The response to `m` with nothing but a code: the identity and the questions
/// are those of `m`.
pub open spec fn response_to(m: MessageView, rcode: u16) -> MessageView {
    MessageView {
        id: m.id,
        flags: response_flags(m.flags, rcode),
        questions: m.questions,
        answers: seq![],
        authorities: seq![],
        additionals: seq![],
    }
}

/// The response to `m` that reports no error and holds `answers`.
pub open spec fn answer_to(m: MessageView, answers: Seq<RecordView>) -> MessageView {
    MessageView { answers, ..response_to(m, crate::rcode::NO_ERROR) }
}

/// The record about the name in `q`, in the class of the Internet.
pub open spec fn record_about(q: QuestionView, rtype: u16, ttl: u32, rdata: DataView) -> RecordView {
    RecordView { name: q.name, rtype, rclass: crate::dns_codec::CLASS_IN, ttl, rdata }
}

/// The answers that give the unspecified address to the first of `qs`, where it
/// asks for an address.
pub open spec fn zero_answers(qs: Seq<QuestionView>, ttl: u32) -> Seq<RecordView> {
    if qs.len() == 0 {
        seq![]
    } else if qs[0].qtype == qtype::A {
        seq![record_about(qs[0], qtype::A, ttl, DataView::A(seq![0u8; 4]))]
    } else if qs[0].qtype == qtype::AAAA {
        seq![record_about(qs[0], qtype::AAAA, ttl, DataView::Aaaa(seq![0u8; 16]))]
    } else {
        seq![]
    }
}

/// The record that sends the name in `q` to `target`, which reads as the address
/// `ip4` or `ip6` or is a name.
pub open spec fn rewrite_record(
    q: QuestionView,
    target: Seq<char>,
    ip4: Option<Seq<u8>>,
    ip6: Option<Seq<u8>>,
    ttl: u32,
) -> RecordView {
    match (ip4, ip6) {
        (Some(ip), _) => record_about(q, qtype::A, ttl, DataView::A(ip)),
        (None, Some(ip)) => record_about(q, qtype::AAAA, ttl, DataView::Aaaa(ip)),
        (None, None) => record_about(q, qtype::CNAME, ttl, DataView::Cname(target)),
    }
}

/// `ttl` is the smallest time to live in `rs`.
pub open spec fn least_ttl(rs: Seq<RecordView>, ttl: u32) -> bool {
    &&& exists|i: int| 0 <= i < rs.len() && (#[trigger] rs[i]).ttl == ttl
    &&& forall|i: int| 0 <= i < rs.len() ==> (#[trigger] rs[i]).ttl >= ttl
}

/// `buf` with its first two bytes those of `id`; a shorter one stays as it is.
pub open spec fn with_id(buf: Seq<u8>, id: u16) -> Seq<u8> {
    if buf.len() >= 2 {
        bytes16(id) + buf.skip(2)
    } else {
        buf
    }
}

} // verus!
