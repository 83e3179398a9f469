//! DNS messages: reading packets and building responses.
//!
//! What a packet means and which bytes stand for a message is said in `wire`.
use vstd::prelude::*;
use vstd::slice::{slice_subrange, slice_to_vec};
use vstd::utf8::*;

use crate::qtype;
use crate::rcode;
use crate::text;
use crate::text::{find_char, to_chars, to_text, trim_end_of};
use crate::wire;
use crate::wire::{DataView, MessageView, QuestionView, RecordView, MAX_NAME_STEPS};

verus! {

broadcast use vstd::string::group_string_axioms;

pub const CLASS_IN: u16 = 1;

// ── Errors ──────────────────────────────────────────────────────────────────

/// Why a packet could not be read.
#[derive(Debug)]
pub struct DnsError(pub String);

pub type DnsResult<T> = Result<T, DnsError>;

impl View for DnsError {
    type V = Seq<char>;

    open spec fn view(&self) -> Seq<char> {
        self.0@
    }
}

impl DnsError {
    /// The error as it is shown to a user.
    pub fn to_string(&self) -> (r: String)
        ensures
            r@ == "DNS: "@ + self@,
    {
        String::from_str("DNS: ").concat(self.0.as_str())
    }
}

fn dns_err(message: &str) -> (r: DnsError)
    ensures
        r@ == message@,
{
    DnsError(message.to_owned())
}

// ── Messages ────────────────────────────────────────────────────────────────

#[derive(Debug, Clone)]
pub struct DnsMessage {
    pub id: u16,
    pub flags: u16,
    pub questions: Vec<Question>,
    pub answers: Vec<ResourceRecord>,
    pub authorities: Vec<ResourceRecord>,
    pub additionals: Vec<ResourceRecord>,
}

#[derive(Debug, Clone)]
pub struct Question {
    /// Where it was read from a packet, each label is in lower case and there is no dot at
    /// the end.
    pub name: String,
    pub qtype: u16,
    pub qclass: u16,
}

#[derive(Debug, Clone)]
pub struct ResourceRecord {
    pub name: String,
    pub rtype: u16,
    pub rclass: u16,
    pub ttl: u32,
    pub rdata: RData,
}

#[derive(Debug, Clone)]
pub enum RData {
    A([u8; 4]),
    Aaaa([u8; 16]),
    Cname(String),
    Raw(Vec<u8>),
}

impl View for RData {
    type V = DataView;

    open spec fn view(&self) -> DataView {
        match self {
            RData::A(ip) => DataView::A(ip@),
            RData::Aaaa(ip) => DataView::Aaaa(ip@),
            RData::Cname(name) => DataView::Cname(name@),
            RData::Raw(bytes) => DataView::Raw(bytes@),
        }
    }
}

impl View for ResourceRecord {
    type V = RecordView;

    open spec fn view(&self) -> RecordView {
        RecordView {
            name: self.name@,
            rtype: self.rtype,
            rclass: self.rclass,
            ttl: self.ttl,
            rdata: self.rdata@,
        }
    }
}

impl View for Question {
    type V = QuestionView;

    open spec fn view(&self) -> QuestionView {
        QuestionView { name: self.name@, qtype: self.qtype, qclass: self.qclass }
    }
}

/// What a run of questions says.
pub open spec fn questions_view(qs: Seq<Question>) -> Seq<QuestionView> {
    Seq::new(qs.len(), |i: int| qs[i]@)
}

/// What a run of records says.
pub open spec fn records_view(rs: Seq<ResourceRecord>) -> Seq<RecordView> {
    Seq::new(rs.len(), |i: int| rs[i]@)
}

impl View for DnsMessage {
    type V = MessageView;

    open spec fn view(&self) -> MessageView {
        MessageView {
            id: self.id,
            flags: self.flags,
            questions: questions_view(self.questions@),
            answers: records_view(self.answers@),
            authorities: records_view(self.authorities@),
            additionals: records_view(self.additionals@),
        }
    }
}

// ── Reading ─────────────────────────────────────────────────────────────────

fn read16(buf: &[u8], pos: usize) -> (r: u16)
    requires
        pos + 2 <= buf@.len(),
    ensures
        r == wire::be16(buf@, pos as int),
{
    (buf[pos] as u16) * 256 + buf[pos + 1] as u16
}

fn read32(buf: &[u8], pos: usize) -> (r: u32)
    requires
        pos + 4 <= buf@.len(),
    ensures
        r == wire::be32(buf@, pos as int),
{
    (buf[pos] as u32) * 0x100_0000 + (buf[pos + 1] as u32) * 0x1_0000 + (buf[pos + 2] as u32) * 0x100
        + buf[pos + 3] as u32
}

/// `std::str::from_utf8`: succeeds on valid UTF-8, and gives the text it encodes.
pub assume_specification<'a>[ std::str::from_utf8 ](v: &'a [u8]) -> (r: Result<
    &'a str,
    std::str::Utf8Error,
>)
    ensures
        r is Ok <==> valid_utf8(v@),
        r matches Ok(s) ==> s@ == decode_utf8(v@),
;

/// `std::str::Utf8Error`, of which only that there was one is used.
#[verifier::external_type_specification]
#[verifier::external_body]
pub struct ExUtf8Error(std::str::Utf8Error);

fn hex_char(n: u8) -> (r: char)
    requires
        n < 16,
    ensures
        r == wire::hex_digit(n as int),
{
    if n < 10 {
        (48 + n) as char
    } else {
        (97 + (n - 10)) as char
    }
}

fn unsupported_label(len: u8) -> (r: DnsError)
    ensures
        r@ == wire::unsupported_label(len),
{
    let mut text: String = "unsupported label type 0x".to_owned();
    text.push(hex_char(len / 16));
    text.push(hex_char(len % 16));
    assert(text@ =~= wire::unsupported_label(len));
    DnsError(text)
}

/// What is read of a name whose first labels are `done`, where `rest` is what is
/// read from there on. Behind a pointer, the name ends at `end`.
spec fn after_labels(
    done: Seq<Seq<char>>,
    rest: wire::Reading<Seq<Seq<char>>>,
    jumped: bool,
    end: int,
) -> wire::Reading<Seq<Seq<char>>> {
    match rest {
        Ok((labels, p)) => Ok((done + labels, if jumped { end } else { p })),
        Err(e) => Err(e),
    }
}

/// Reads the name at `start`, following pointers. Returns it with each label in lower
/// case and without a dot at the end, with the position behind it. Dots at the end that
/// come out of the labels themselves are left out.
pub fn parse_name(buf: &[u8], start: usize) -> (r: DnsResult<(String, usize)>)
    ensures
        match wire::parsed_name(buf@, start as int) {
            Ok((name, end)) => r matches Ok(v) && v.0@ == name && v.1 == end && v.1 <= buf@.len(),
            Err(e) => r matches Err(d) && d@ == e,
        },
{
    let mut name: String = String::new();
    let mut first: bool = true;
    let mut pos: usize = start;
    let mut jumped: bool = false;
    let mut end_pos: usize = start;
    let mut steps: usize = MAX_NAME_STEPS;
    let ghost mut done: Seq<Seq<char>> = seq![];
    let ghost whole = wire::parsed_labels(buf@, start as int, MAX_NAME_STEPS as nat);
    loop
        invariant
            whole == wire::parsed_labels(buf@, start as int, MAX_NAME_STEPS as nat),
            whole == after_labels(
                done,
                wire::parsed_labels(buf@, pos as int, steps as nat),
                jumped,
                end_pos as int,
            ),
            name@ == text::joined(done, '.'),
            first == (done.len() == 0),
            jumped ==> end_pos <= buf@.len(),
        decreases steps,
    {
        if steps == 0 {
            return Err(dns_err("name compression loop"));
        }
        if pos >= buf.len() {
            return Err(dns_err("name OOB"));
        }
        let len: u8 = buf[pos];
        if len == 0 {
            if !jumped {
                end_pos = pos + 1;
            }
            assert(done + Seq::<Seq<char>>::empty() =~= done);
            let chars: Vec<char> = to_chars(name.as_str());
            return Ok((to_text(trim_end_of(chars.as_slice(), '.')), end_pos));
        }
        if len >= 0xC0 {
            if buf.len() - pos < 2 {
                return Err(dns_err("pointer OOB"));
            }
            if !jumped {
                end_pos = pos + 2;
            }
            jumped = true;
            pos = (len as usize - 0xC0) * 256 + buf[pos + 1] as usize;
        } else if len < 0x40 {
            pos += 1;
            if buf.len() - pos < len as usize {
                return Err(dns_err("label OOB"));
            }
            let raw: &[u8] = slice_subrange(buf, pos, pos + len as usize);
            let label: String = match std::str::from_utf8(raw) {
                Ok(s) => s.to_lowercase(),
                Err(_) => {
                    return Err(dns_err("invalid UTF-8 label"));
                },
            };
            proof {
                text::lemma_joined_push(done, '.', label@);
                let rest = wire::parsed_labels(buf@, pos + len, (steps - 1) as nat);
                if let Ok((labels, _)) = rest {
                    assert(done + (seq![label@] + labels) =~= done.push(label@) + labels);
                }
                done = done.push(label@);
            }
            if !first {
                name.push('.');
            }
            name.append(label.as_str());
            first = false;
            assert(name@ =~= text::joined(done, '.'));
            pos += len as usize;
        } else {
            return Err(unsupported_label(len));
        }
        steps -= 1;
    }
}

fn read_data(buf: &[u8], pos: usize, len: usize, rtype: u16) -> (r: DnsResult<RData>)
    requires
        pos + len <= buf.len(),
    ensures
        match wire::parsed_data(buf@, pos as int, len as int, rtype) {
            Ok(data) => r matches Ok(v) && v@ == data,
            Err(e) => r matches Err(d) && d@ == e,
        },
{
    let raw: &[u8] = slice_subrange(buf, pos, pos + len);
    if rtype == qtype::A && len == 4 {
        let ip: [u8; 4] = [raw[0], raw[1], raw[2], raw[3]];
        assert(ip@ =~= raw@);
        Ok(RData::A(ip))
    } else if rtype == qtype::AAAA && len == 16 {
        let ip: [u8; 16] = [
            raw[0], raw[1], raw[2], raw[3], raw[4], raw[5], raw[6], raw[7],
            raw[8], raw[9], raw[10], raw[11], raw[12], raw[13], raw[14], raw[15],
        ];
        assert(ip@ =~= raw@);
        Ok(RData::Aaaa(ip))
    } else if rtype == qtype::CNAME {
        match parse_name(buf, pos) {
            Ok((name, _)) => Ok(RData::Cname(name)),
            Err(e) => Err(e),
        }
    } else {
        Ok(RData::Raw(slice_to_vec(raw)))
    }
}

/// Reads the record at `pos`. Returns it with the position behind it.
pub fn parse_rr(buf: &[u8], pos: usize) -> (r: DnsResult<(ResourceRecord, usize)>)
    ensures
        match wire::parsed_record(buf@, pos as int) {
            Ok((record, end)) => r matches Ok(v) && v.0@ == record && v.1 == end && v.1
                <= buf@.len(),
            Err(e) => r matches Err(d) && d@ == e,
        },
{
    let (name, pos): (String, usize) = match parse_name(buf, pos) {
        Ok(v) => v,
        Err(e) => {
            return Err(e);
        },
    };
    if buf.len() - pos < 10 {
        return Err(dns_err("RR header truncated"));
    }
    let rtype: u16 = read16(buf, pos);
    let rclass: u16 = read16(buf, pos + 2);
    let ttl: u32 = read32(buf, pos + 4);
    let rdlen: usize = read16(buf, pos + 8) as usize;
    let pos: usize = pos + 10;
    if buf.len() - pos < rdlen {
        return Err(dns_err("RDATA truncated"));
    }
    match read_data(buf, pos, rdlen, rtype) {
        Ok(rdata) => Ok((ResourceRecord { name, rtype, rclass, ttl, rdata }, pos + rdlen)),
        Err(e) => Err(e),
    }
}

fn read_question(buf: &[u8], pos: usize) -> (r: DnsResult<(Question, usize)>)
    ensures
        match wire::parsed_question(buf@, pos as int) {
            Ok((q, end)) => r matches Ok(v) && v.0@ == q && v.1 == end && v.1 <= buf@.len(),
            Err(e) => r matches Err(d) && d@ == e,
        },
{
    match parse_name(buf, pos) {
        Ok((name, pos)) => {
            if buf.len() - pos < 4 {
                return Err(dns_err("truncated question"));
            }
            let q = Question { name, qtype: read16(buf, pos), qclass: read16(buf, pos + 2) };
            Ok((q, pos + 4))
        },
        Err(e) => Err(e),
    }
}

/// What is read of a section whose first items are `done`, where `rest` is what is
/// read from there on.
spec fn after_items<T>(done: Seq<T>, rest: wire::Reading<Seq<T>>) -> wire::Reading<Seq<T>> {
    match rest {
        Ok((items, p)) => Ok((done + items, p)),
        Err(e) => Err(e),
    }
}

fn read_questions(buf: &[u8], start: usize, count: usize) -> (r: DnsResult<(Vec<Question>, usize)>)
    requires
        start <= buf@.len(),
    ensures
        match wire::parsed_questions(buf@, start as int, count as nat) {
            Ok((qs, end)) => r matches Ok(v) && questions_view(v.0@) == qs && v.1 == end && v.1
                <= buf@.len(),
            Err(e) => r matches Err(d) && d@ == e,
        },
{
    let ghost whole = wire::parsed_questions(buf@, start as int, count as nat);
    let mut questions: Vec<Question> = Vec::with_capacity(count);
    let mut pos: usize = start;
    let mut left: usize = count;
    assert(whole == after_items(questions_view(questions@), whole)) by {
        if let Ok((qs, _)) = whole {
            assert(questions_view(questions@) + qs =~= qs);
        }
    }
    while left > 0
        invariant
            pos <= buf@.len(),
            whole == wire::parsed_questions(buf@, start as int, count as nat),
            whole == after_items(
                questions_view(questions@),
                wire::parsed_questions(buf@, pos as int, left as nat),
            ),
        decreases left,
    {
        match read_question(buf, pos) {
            Ok((q, new_pos)) => {
                proof {
                    let done = questions_view(questions@);
                    assert(questions_view(questions@.push(q)) =~= done.push(q@));
                    let rest = wire::parsed_questions(buf@, new_pos as int, (left - 1) as nat);
                    if let Ok((qs, _)) = rest {
                        assert(done + (seq![q@] + qs) =~= done.push(q@) + qs);
                    }
                }
                questions.push(q);
                pos = new_pos;
            },
            Err(e) => {
                return Err(e);
            },
        }
        left -= 1;
    }
    assert(questions_view(questions@) + Seq::<QuestionView>::empty() =~= questions_view(
        questions@,
    ));
    Ok((questions, pos))
}

fn read_records(buf: &[u8], start: usize, count: usize) -> (r: DnsResult<
    (Vec<ResourceRecord>, usize),
>)
    requires
        start <= buf@.len(),
    ensures
        match wire::parsed_records(buf@, start as int, count as nat) {
            Ok((rs, end)) => r matches Ok(v) && records_view(v.0@) == rs && v.1 == end && v.1
                <= buf@.len(),
            Err(e) => r matches Err(d) && d@ == e,
        },
{
    let ghost whole = wire::parsed_records(buf@, start as int, count as nat);
    let mut records: Vec<ResourceRecord> = Vec::with_capacity(count);
    let mut pos: usize = start;
    let mut left: usize = count;
    assert(whole == after_items(records_view(records@), whole)) by {
        if let Ok((rs, _)) = whole {
            assert(records_view(records@) + rs =~= rs);
        }
    }
    while left > 0
        invariant
            pos <= buf@.len(),
            whole == wire::parsed_records(buf@, start as int, count as nat),
            whole == after_items(
                records_view(records@),
                wire::parsed_records(buf@, pos as int, left as nat),
            ),
        decreases left,
    {
        match parse_rr(buf, pos) {
            Ok((rr, new_pos)) => {
                proof {
                    let done = records_view(records@);
                    assert(records_view(records@.push(rr)) =~= done.push(rr@));
                    let rest = wire::parsed_records(buf@, new_pos as int, (left - 1) as nat);
                    if let Ok((rs, _)) = rest {
                        assert(done + (seq![rr@] + rs) =~= done.push(rr@) + rs);
                    }
                }
                records.push(rr);
                pos = new_pos;
            },
            Err(e) => {
                return Err(e);
            },
        }
        left -= 1;
    }
    assert(records_view(records@) + Seq::<RecordView>::empty() =~= records_view(records@));
    Ok((records, pos))
}

impl DnsMessage {
    /// Reads a packet. The additional records are left out.
    pub fn parse(buf: &[u8]) -> (r: DnsResult<Self>)
        ensures
            match wire::parsed_message(buf@) {
                Ok(m) => r matches Ok(v) && v@ == m,
                Err(e) => r matches Err(d) && d@ == e,
            },
    {
        if buf.len() < 12 {
            return Err(dns_err("packet too short"));
        }
        let id: u16 = read16(buf, 0);
        let flags: u16 = read16(buf, 2);
        let qdcount: usize = read16(buf, 4) as usize;
        let ancount: usize = read16(buf, 6) as usize;
        let nscount: usize = read16(buf, 8) as usize;
        let (questions, pos): (Vec<Question>, usize) = match read_questions(buf, 12, qdcount) {
            Ok(v) => v,
            Err(e) => {
                return Err(e);
            },
        };
        let (answers, pos): (Vec<ResourceRecord>, usize) = match read_records(buf, pos, ancount) {
            Ok(v) => v,
            Err(e) => {
                return Err(e);
            },
        };
        let authorities: Vec<ResourceRecord> = match read_records(buf, pos, nscount) {
            Ok((records, _)) => records,
            Err(e) => {
                return Err(e);
            },
        };
        let additionals: Vec<ResourceRecord> = Vec::new();
        assert(records_view(additionals@) =~= Seq::<RecordView>::empty());
        Ok(DnsMessage { id, flags, questions, answers, authorities, additionals })
    }
}

// ── Writing ─────────────────────────────────────────────────────────────────

fn push16(buf: &mut Vec<u8>, v: u16)
    ensures
        final(buf)@ == old(buf)@ + wire::bytes16(v),
{
    buf.push((v / 256) as u8);
    buf.push((v % 256) as u8);
    assert(buf@ =~= old(buf)@ + wire::bytes16(v));
}

fn push32(buf: &mut Vec<u8>, v: u32)
    ensures
        final(buf)@ == old(buf)@ + wire::bytes32(v),
{
    buf.push((v / 0x100_0000) as u8);
    buf.push((v / 0x1_0000 % 0x100) as u8);
    buf.push((v / 0x100 % 0x100) as u8);
    buf.push((v % 0x100) as u8);
    assert(buf@ =~= old(buf)@ + wire::bytes32(v));
}

fn push_bytes(buf: &mut Vec<u8>, bytes: &[u8])
    ensures
        final(buf)@ == old(buf)@ + bytes@,
{
    buf.extend_from_slice(bytes);
    assert(buf@ =~= old(buf)@ + bytes@);
}

/// A length cut down to sixteen bits.
fn low16(n: usize) -> (r: u16)
    ensures
        r == wire::low16(n as nat),
{
    (n % 0x1_0000) as u16
}

/// Appends a name: a label for each part between dots, then a zero byte.
pub fn encode_name(buf: &mut Vec<u8>, name: &str)
    ensures
        final(buf)@ == old(buf)@ + wire::encoded_name(name@),
{
    if name.is_empty() {
        buf.push(0);
        assert(buf@ =~= old(buf)@ + seq![0u8]);
        return;
    }
    let chars: Vec<char> = to_chars(name);
    let mut rest: &[char] = chars.as_slice();
    let ghost goal = old(buf)@ + wire::encoded_labels(text::pieces(name@, '.'));
    loop
        invariant_except_break
            goal == buf@ + wire::encoded_labels(text::pieces(rest@, '.')),
        ensures
            goal == buf@,
        decreases rest@.len(),
    {
        let k: usize = find_char(rest, '.');
        let label: String = to_text(slice_subrange(rest, 0, k));
        let bytes: &[u8] = label.as_str().as_bytes();
        let ghost before = buf@;
        buf.push((bytes.len() % 256) as u8);
        push_bytes(buf, bytes);
        assert(buf@ =~= before + wire::encoded_label(label@));
        proof {
            reveal_with_fuel(wire::encoded_labels, 2);
            let parts = text::pieces(rest@, '.');
            assert(parts[0] == label@) by {
                assert(rest@.take(rest@.len() as int) =~= rest@);
            }
            assert(before + (wire::encoded_label(label@) + wire::encoded_labels(parts.drop_first()))
                =~= buf@ + wire::encoded_labels(parts.drop_first()));
            if k == rest@.len() {
                assert(parts.drop_first() =~= seq![]);
                assert(buf@ + Seq::<u8>::empty() =~= buf@);
            } else {
                assert(parts.drop_first() =~= text::pieces(rest@.skip(k + 1), '.'));
            }
        }
        if k == rest.len() {
            break;
        }
        rest = slice_subrange(rest, k + 1, rest.len());
    }
    buf.push(0);
    assert(buf@ =~= old(buf)@ + wire::encoded_name(name@));
}

fn encode_data(buf: &mut Vec<u8>, data: &RData)
    ensures
        final(buf)@ == old(buf)@ + wire::encoded_data(data@),
{
    match data {
        RData::A(ip) => push_bytes(buf, ip.as_slice()),
        RData::Aaaa(ip) => push_bytes(buf, ip.as_slice()),
        RData::Cname(name) => encode_name(buf, name.as_str()),
        RData::Raw(bytes) => push_bytes(buf, bytes.as_slice()),
    }
}

/// Appends a record.
pub fn encode_rr(buf: &mut Vec<u8>, rr: &ResourceRecord)
    ensures
        final(buf)@ == old(buf)@ + wire::encoded_record(rr@),
{
    encode_name(buf, rr.name.as_str());
    push16(buf, rr.rtype);
    push16(buf, rr.rclass);
    push32(buf, rr.ttl);
    let mut data: Vec<u8> = Vec::new();
    encode_data(&mut data, &rr.rdata);
    assert(data@ =~= wire::encoded_data(rr.rdata@));
    push16(buf, low16(data.len()));
    push_bytes(buf, data.as_slice());
    assert(buf@ =~= old(buf)@ + wire::encoded_record(rr@));
}

fn encode_questions(buf: &mut Vec<u8>, questions: &Vec<Question>)
    ensures
        final(buf)@ == old(buf)@ + wire::encoded_questions(questions_view(questions@)),
{
    let ghost views = questions_view(questions@);
    let ghost goal = old(buf)@ + wire::encoded_questions(views);
    let mut i: usize = 0;
    assert(views.skip(0) =~= views);
    while i < questions.len()
        invariant
            i <= questions.len(),
            views == questions_view(questions@),
            goal == buf@ + wire::encoded_questions(views.skip(i as int)),
        decreases questions.len() - i,
    {
        let q: &Question = &questions[i];
        let ghost before = buf@;
        encode_name(buf, q.name.as_str());
        push16(buf, q.qtype);
        push16(buf, q.qclass);
        proof {
            assert(buf@ =~= before + wire::encoded_question(q@));
            assert(views.skip(i as int).drop_first() =~= views.skip(i + 1));
            assert(before + (wire::encoded_question(q@) + wire::encoded_questions(views.skip(i + 1)))
                =~= buf@ + wire::encoded_questions(views.skip(i + 1)));
        }
        i += 1;
    }
    assert(buf@ + Seq::<u8>::empty() =~= buf@);
}

fn encode_records(buf: &mut Vec<u8>, records: &Vec<ResourceRecord>)
    ensures
        final(buf)@ == old(buf)@ + wire::encoded_records(records_view(records@)),
{
    let ghost views = records_view(records@);
    let ghost goal = old(buf)@ + wire::encoded_records(views);
    let mut i: usize = 0;
    assert(views.skip(0) =~= views);
    while i < records.len()
        invariant
            i <= records.len(),
            views == records_view(records@),
            goal == buf@ + wire::encoded_records(views.skip(i as int)),
        decreases records.len() - i,
    {
        let rr: &ResourceRecord = &records[i];
        let ghost before = buf@;
        encode_rr(buf, rr);
        proof {
            assert(views.skip(i as int).drop_first() =~= views.skip(i + 1));
            assert(before + (wire::encoded_record(rr@) + wire::encoded_records(views.skip(i + 1)))
                =~= buf@ + wire::encoded_records(views.skip(i + 1)));
        }
        i += 1;
    }
    assert(buf@ + Seq::<u8>::empty() =~= buf@);
}

impl DnsMessage {
    /// The packet of this message. The additional records are counted in it and
    /// not written.
    pub fn to_bytes(&self) -> (r: Vec<u8>)
        ensures
            r@ == wire::encoded_message(self@),
    {
        let mut buf: Vec<u8> = Vec::with_capacity(512);
        push16(&mut buf, self.id);
        push16(&mut buf, self.flags);
        push16(&mut buf, low16(self.questions.len()));
        push16(&mut buf, low16(self.answers.len()));
        push16(&mut buf, low16(self.authorities.len()));
        push16(&mut buf, low16(self.additionals.len()));
        assert(buf@ =~= wire::encoded_header(self@));
        encode_questions(&mut buf, &self.questions);
        encode_records(&mut buf, &self.answers);
        encode_records(&mut buf, &self.authorities);
        buf
    }
}

// ── Building responses ──────────────────────────────────────────────────────

fn copy_questions(questions: &Vec<Question>) -> (r: Vec<Question>)
    ensures
        questions_view(r@) == questions_view(questions@),
{
    let mut out: Vec<Question> = Vec::with_capacity(questions.len());
    let mut i: usize = 0;
    while i < questions.len()
        invariant
            i <= questions.len(),
            out@.len() == i,
            forall|j: int| 0 <= j < i ==> (#[trigger] out@[j])@ == questions@[j]@,
        decreases questions.len() - i,
    {
        let q: &Question = &questions[i];
        out.push(Question { name: q.name.clone(), qtype: q.qtype, qclass: q.qclass });
        i += 1;
    }
    assert(questions_view(out@) =~= questions_view(questions@));
    out
}

impl DnsMessage {
    /// This is a standard query (QR=0, OPCODE=0).
    pub fn is_query(&self) -> (r: bool)
        ensures
            r == wire::query_flags(self@.flags),
    {
        let flags: u16 = self.flags;
        assert(((flags >> 15) == 0 && ((flags >> 11) & 0xf) == 0) == (flags < 0x0800))
            by (bit_vector);
        (flags >> 15) == 0 && ((flags >> 11) & 0xf) == 0
    }

    /// The response to this message with the given code: the questions are copied,
    /// the other sections are empty.
    pub fn make_response(&self, rcode: u16) -> (r: Self)
        ensures
            r@ == wire::response_to(self@, rcode),
    {
        let r = DnsMessage {
            id: self.id,
            // QR=1, AA=0, TC=0, RD=copy, RA=1, RCODE
            flags: 0x8000 | (self.flags & 0x0100) | 0x0080 | rcode,
            questions: copy_questions(&self.questions),
            answers: Vec::new(),
            authorities: Vec::new(),
            additionals: Vec::new(),
        };
        assert(r@ =~= wire::response_to(self@, rcode));
        r
    }

    /// The packet that says that the name does not exist.
    pub fn nxdomain(&self) -> (r: Vec<u8>)
        ensures
            r@ == wire::encoded_message(wire::response_to(self@, rcode::NX_DOMAIN)),
    {
        self.make_response(rcode::NX_DOMAIN).to_bytes()
    }

    /// The packet that refuses the query.
    pub fn refused(&self) -> (r: Vec<u8>)
        ensures
            r@ == wire::encoded_message(wire::response_to(self@, rcode::REFUSED)),
    {
        self.make_response(rcode::REFUSED).to_bytes()
    }

    /// The packet that reports a failure of the server.
    pub fn servfail(&self) -> (r: Vec<u8>)
        ensures
            r@ == wire::encoded_message(wire::response_to(self@, rcode::SERV_FAIL)),
    {
        self.make_response(rcode::SERV_FAIL).to_bytes()
    }

    /// The packet that answers the first question with a zero address (A=0.0.0.0,
    /// AAAA=::). A question of another type gets no answer.
    pub fn zero_ip(&self, ttl: u32) -> (r: Vec<u8>)
        ensures
            r@ == wire::encoded_message(
                wire::answer_to(self@, wire::zero_answers(self@.questions, ttl)),
            ),
    {
        let mut resp: DnsMessage = self.make_response(rcode::NO_ERROR);
        if self.questions.len() > 0 {
            let q: &Question = &self.questions[0];
            assert(q@ == self@.questions[0]);
            if q.qtype == qtype::A {
                let ip: [u8; 4] = [0; 4];
                assert(ip@ =~= seq![0u8; 4]);
                resp.answers.push(
                    ResourceRecord {
                        name: q.name.clone(),
                        rtype: qtype::A,
                        rclass: CLASS_IN,
                        ttl,
                        rdata: RData::A(ip),
                    },
                );
            } else if q.qtype == qtype::AAAA {
                let ip: [u8; 16] = [0; 16];
                assert(ip@ =~= seq![0u8; 16]);
                resp.answers.push(
                    ResourceRecord {
                        name: q.name.clone(),
                        rtype: qtype::AAAA,
                        rclass: CLASS_IN,
                        ttl,
                        rdata: RData::Aaaa(ip),
                    },
                );
            }
        }
        assert(resp@.answers =~= wire::zero_answers(self@.questions, ttl));
        resp.to_bytes()
    }

    /// Writes `id` over the identity in a packet.
    pub fn patch_id(buf: &mut [u8], id: u16)
        ensures
            final(buf)@ == wire::with_id(old(buf)@, id),
    {
        if buf.len() >= 2 {
            buf[0] = (id / 256) as u8;
            buf[1] = (id % 256) as u8;
        }
        assert(buf@ =~= wire::with_id(old(buf)@, id));
    }

    /// The packet that sends the first question's name to `target`: to the address
    /// `ip4` or `ip6` where `target` reads as one, else to a name.
    pub fn rewrite(&self, target: &str, ip4: Option<[u8; 4]>, ip6: Option<[u8; 16]>, ttl: u32) -> (r:
        Vec<u8>)
        ensures
            r@ == wire::encoded_message(
                wire::answer_to(
                    self@,
                    if self@.questions.len() == 0 {
                        seq![]
                    } else {
                        seq![
                            wire::rewrite_record(
                                self@.questions[0],
                                target@,
                                match ip4 {
                                    Some(ip) => Some(ip@),
                                    None => None,
                                },
                                match ip6 {
                                    Some(ip) => Some(ip@),
                                    None => None,
                                },
                                ttl,
                            ),
                        ]
                    },
                ),
            ),
    {
        let mut resp: DnsMessage = self.make_response(rcode::NO_ERROR);
        let ghost base = resp@;
        if self.questions.len() > 0 {
            let q: &Question = &self.questions[0];
            assert(q@ == self@.questions[0]);
            let (rtype, rdata): (u16, RData) = match (ip4, ip6) {
                (Some(ip), _) => (qtype::A, RData::A(ip)),
                (None, Some(ip)) => (qtype::AAAA, RData::Aaaa(ip)),
                (None, None) => (qtype::CNAME, RData::Cname(target.to_owned())),
            };
            let rr = ResourceRecord { name: q.name.clone(), rtype, rclass: CLASS_IN, ttl, rdata };
            let ghost said = rr@;
            resp.answers.push(rr);
            assert(resp@.answers =~= seq![said]);
        } else {
            assert(resp@.answers =~= seq![]);
        }
        resp.to_bytes()
    }

    /// The smallest time to live among the answers in a packet, where the packet
    /// can be read, has answers, and none of them has a time to live of zero.
    pub fn min_ttl(buf: &[u8]) -> (r: Option<u32>)
        ensures
            match wire::parsed_message(buf@) {
                Ok(m) => match r {
                    Some(ttl) => ttl > 0 && wire::least_ttl(m.answers, ttl),
                    None => m.answers.len() == 0 || wire::least_ttl(m.answers, 0),
                },
                Err(_) => r is None,
            },
    {
        let msg: DnsMessage = match DnsMessage::parse(buf) {
            Ok(m) => m,
            Err(_) => {
                return None;
            },
        };
        if msg.answers.len() == 0 {
            return None;
        }
        let ghost views = msg@.answers;
        let mut least: u32 = msg.answers[0].ttl;
        assert(views[0].ttl == least);
        let mut i: usize = 1;
        while i < msg.answers.len()
            invariant
                1 <= i <= msg.answers.len(),
                views == msg@.answers,
                exists|j: int| 0 <= j < i && (#[trigger] views[j]).ttl == least,
                forall|j: int| 0 <= j < i ==> (#[trigger] views[j]).ttl >= least,
            decreases msg.answers.len() - i,
        {
            let ttl: u32 = msg.answers[i].ttl;
            assert(views[i as int].ttl == ttl);
            if ttl < least {
                least = ttl;
            }
            i += 1;
        }
        if least > 0 {
            Some(least)
        } else {
            None
        }
    }
}

} // verus!
