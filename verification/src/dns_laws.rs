//! Laws of the DNS codec.
use vstd::prelude::*;
use vstd::utf8::*;

use crate::qtype;
use crate::text;
use crate::wire;
use crate::wire::{DataView, MessageView, QuestionView, RecordView, MAX_NAME_STEPS};

verus! {

// ── What survives the way to bytes and back ─────────────────────────────────

/// A label that can stand in a packet as it is: not empty, 63 bytes at most, and
/// in lower case.
pub open spec fn encodable_label(label: Seq<char>) -> bool {
    &&& 1 <= encode_utf8(label).len() <= 63
    &&& text::lowercase(label) == label
}

/// A name that can stand in a packet as it is: the root, or at most as many
/// encodable labels as are followed when it is read.
pub open spec fn encodable_name(name: Seq<char>) -> bool {
    name.len() == 0 || {
        let labels = text::pieces(name, '.');
        &&& labels.len() < MAX_NAME_STEPS
        &&& forall|i: int| 0 <= i < labels.len() ==> encodable_label(#[trigger] labels[i])
    }
}

/// Data that fits the type of its record.
pub open spec fn encodable_data(rtype: u16, data: DataView) -> bool {
    match data {
        DataView::A(ip) => rtype == qtype::A && ip.len() == 4,
        DataView::Aaaa(ip) => rtype == qtype::AAAA && ip.len() == 16,
        DataView::Cname(name) => rtype == qtype::CNAME && encodable_name(name),
        DataView::Raw(bytes) => {
            &&& bytes.len() < 0x1_0000
            &&& rtype != qtype::CNAME
            &&& !(rtype == qtype::A && bytes.len() == 4)
            &&& !(rtype == qtype::AAAA && bytes.len() == 16)
        },
    }
}

pub open spec fn encodable_record(r: RecordView) -> bool {
    encodable_name(r.name) && encodable_data(r.rtype, r.rdata)
}

pub open spec fn encodable_questions(qs: Seq<QuestionView>) -> bool {
    &&& qs.len() < 0x1_0000
    &&& forall|i: int| 0 <= i < qs.len() ==> encodable_name((#[trigger] qs[i]).name)
}

pub open spec fn encodable_records(rs: Seq<RecordView>) -> bool {
    &&& rs.len() < 0x1_0000
    &&& forall|i: int| 0 <= i < rs.len() ==> encodable_record(#[trigger] rs[i])
}

/// A message that can be written and read again: names and data that can, and at
/// most as many entries in each section as its count can say.
pub open spec fn encodable(m: MessageView) -> bool {
    &&& encodable_questions(m.questions)
    &&& encodable_records(m.answers)
    &&& encodable_records(m.authorities)
}

// ── Steps of the proof ──────────────────────────────────────────────────────

/// `bytes` stand in `buf` at `pos`.
spec fn stands(buf: Seq<u8>, pos: int, bytes: Seq<u8>) -> bool {
    &&& 0 <= pos
    &&& pos + bytes.len() <= buf.len()
    &&& buf.subrange(pos, pos + bytes.len()) == bytes
}

proof fn lemma_stands_split(buf: Seq<u8>, pos: int, a: Seq<u8>, b: Seq<u8>)
    requires
        stands(buf, pos, a + b),
    ensures
        stands(buf, pos, a),
        stands(buf, pos + a.len(), b),
{
    let whole = buf.subrange(pos, pos + (a + b).len());
    assert(buf.subrange(pos, pos + a.len()) =~= whole.take(a.len() as int));
    assert((a + b).take(a.len() as int) =~= a);
    assert(buf.subrange(pos + a.len(), pos + a.len() + b.len()) =~= whole.skip(a.len() as int));
    assert((a + b).skip(a.len() as int) =~= b);
}

proof fn lemma_stands_16(buf: Seq<u8>, pos: int, v: u16)
    requires
        stands(buf, pos, wire::bytes16(v)),
    ensures
        wire::be16(buf, pos) == v,
{
    let s = buf.subrange(pos, pos + 2);
    assert(s[0] == buf[pos] && s[1] == buf[pos + 1]);
}

proof fn lemma_stands_32(buf: Seq<u8>, pos: int, v: u32)
    requires
        stands(buf, pos, wire::bytes32(v)),
    ensures
        wire::be32(buf, pos) == v,
{
    let s = buf.subrange(pos, pos + 4);
    assert(s[0] == buf[pos] && s[1] == buf[pos + 1] && s[2] == buf[pos + 2] && s[3] == buf[pos + 3]);
}

proof fn lemma_labels_back(buf: Seq<u8>, pos: int, labels: Seq<Seq<char>>, steps: nat)
    requires
        labels.len() < steps,
        forall|i: int| 0 <= i < labels.len() ==> encodable_label(#[trigger] labels[i]),
        stands(buf, pos, wire::encoded_labels(labels) + seq![0u8]),
    ensures
        wire::parsed_labels(buf, pos, steps) == Ok::<(Seq<Seq<char>>, int), Seq<char>>(
            (labels, pos + wire::encoded_labels(labels).len() + 1),
        ),
    decreases labels.len(),
{
    if labels.len() == 0 {
        lemma_stands_split(buf, pos, wire::encoded_labels(labels), seq![0u8]);
        assert(buf[pos] == buf.subrange(pos, pos + 1)[0]);
        assert(labels =~= seq![]);
    } else {
        let label = labels[0];
        let rest = labels.drop_first();
        let bytes = encode_utf8(label);
        let tail = wire::encoded_labels(rest) + seq![0u8];
        assert(encodable_label(label));
        assert(wire::encoded_labels(labels) + seq![0u8] =~= seq![bytes.len() as u8] + (bytes
            + tail));
        lemma_stands_split(buf, pos, seq![bytes.len() as u8], bytes + tail);
        lemma_stands_split(buf, pos + 1, bytes, tail);
        assert(buf[pos] == buf.subrange(pos, pos + 1)[0]);
        encode_utf8_valid_utf8(label);
        encode_utf8_decode_utf8(label);
        assert forall|i: int| 0 <= i < rest.len() implies encodable_label(#[trigger] rest[i]) by {
            assert(rest[i] == labels[i + 1]);
        }
        lemma_labels_back(buf, pos + 1 + bytes.len(), rest, (steps - 1) as nat);
        assert(seq![label] + rest =~= labels);
    }
}

/// A label with bytes has characters.
proof fn lemma_label_not_empty(label: Seq<char>)
    requires
        encodable_label(label),
    ensures
        label.len() > 0,
{
    if label.len() == 0 {
        is_ascii_chars_encode_utf8(label);
    }
}

/// Joined labels do not end in a dot, where the last one can stand in a packet and holds
/// no dot.
proof fn lemma_no_dot_at_end(labels: Seq<Seq<char>>)
    requires
        labels.len() > 0,
        encodable_label(labels.last()),
        !labels.last().contains('.'),
    ensures
        text::trimmed_end_of(text::joined(labels, '.'), '.') == text::joined(labels, '.'),
{
    let last = labels.last();
    lemma_label_not_empty(last);
    text::lemma_joined_last(labels, '.');
    assert(last.contains(last[last.len() - 1]));
}

proof fn lemma_name_back(buf: Seq<u8>, pos: int, name: Seq<char>)
    requires
        encodable_name(name),
        stands(buf, pos, wire::encoded_name(name)),
    ensures
        wire::parsed_name(buf, pos) == Ok::<(Seq<char>, int), Seq<char>>(
            (name, pos + wire::encoded_name(name).len()),
        ),
{
    if name.len() == 0 {
        let none: Seq<Seq<char>> = seq![];
        assert(wire::encoded_labels(none) + seq![0u8] =~= seq![0u8]);
        lemma_labels_back(buf, pos, none, MAX_NAME_STEPS as nat);
        assert(name =~= seq![]);
    } else {
        let labels = text::pieces(name, '.');
        lemma_labels_back(buf, pos, labels, MAX_NAME_STEPS as nat);
        text::lemma_joined_pieces(name, '.');
        assert(encodable_label(labels[labels.len() - 1]));
        text::lemma_pieces_without(name, '.', labels.len() - 1);
        lemma_no_dot_at_end(labels);
    }
}

proof fn lemma_questions_back(buf: Seq<u8>, pos: int, qs: Seq<QuestionView>)
    requires
        forall|i: int| 0 <= i < qs.len() ==> encodable_name((#[trigger] qs[i]).name),
        stands(buf, pos, wire::encoded_questions(qs)),
    ensures
        wire::parsed_questions(buf, pos, qs.len()) == Ok::<(Seq<QuestionView>, int), Seq<char>>(
            (qs, pos + wire::encoded_questions(qs).len()),
        ),
    decreases qs.len(),
{
    if qs.len() == 0 {
        assert(qs =~= seq![]);
    } else {
        let q = qs[0];
        let rest = qs.drop_first();
        let n = wire::encoded_name(q.name);
        lemma_stands_split(buf, pos, wire::encoded_question(q), wire::encoded_questions(rest));
        lemma_stands_split(buf, pos, n + wire::bytes16(q.qtype), wire::bytes16(q.qclass));
        lemma_stands_split(buf, pos, n, wire::bytes16(q.qtype));
        lemma_name_back(buf, pos, q.name);
        lemma_stands_16(buf, pos + n.len(), q.qtype);
        lemma_stands_16(buf, pos + n.len() + 2, q.qclass);
        assert forall|i: int| 0 <= i < rest.len() implies encodable_name(
            (#[trigger] rest[i]).name,
        ) by {
            assert(rest[i] == qs[i + 1]);
        }
        lemma_questions_back(buf, pos + wire::encoded_question(q).len(), rest);
        assert(seq![q] + rest =~= qs);
    }
}

proof fn lemma_labels_len(labels: Seq<Seq<char>>)
    requires
        forall|i: int| 0 <= i < labels.len() ==> encodable_label(#[trigger] labels[i]),
    ensures
        wire::encoded_labels(labels).len() <= 64 * labels.len(),
    decreases labels.len(),
{
    if labels.len() > 0 {
        let rest = labels.drop_first();
        assert forall|i: int| 0 <= i < rest.len() implies encodable_label(#[trigger] rest[i]) by {
            assert(rest[i] == labels[i + 1]);
        }
        assert(encodable_label(labels[0]));
        lemma_labels_len(rest);
    }
}

proof fn lemma_data_back(buf: Seq<u8>, pos: int, rtype: u16, data: DataView)
    requires
        encodable_data(rtype, data),
        stands(buf, pos, wire::encoded_data(data)),
    ensures
        wire::parsed_data(buf, pos, wire::encoded_data(data).len() as int, rtype) == Ok::<
            DataView,
            Seq<char>,
        >(data),
        wire::encoded_data(data).len() < 0x1_0000,
{
    if let DataView::Cname(name) = data {
        lemma_name_back(buf, pos, name);
        if name.len() > 0 {
            lemma_labels_len(text::pieces(name, '.'));
        }
    }
}

proof fn lemma_record_back(buf: Seq<u8>, pos: int, r: RecordView)
    requires
        encodable_record(r),
        stands(buf, pos, wire::encoded_record(r)),
    ensures
        wire::parsed_record(buf, pos) == Ok::<(RecordView, int), Seq<char>>(
            (r, pos + wire::encoded_record(r).len()),
        ),
{
    let n = wire::encoded_name(r.name);
    let t = wire::bytes16(r.rtype);
    let c = wire::bytes16(r.rclass);
    let l = wire::bytes32(r.ttl);
    let d = wire::encoded_data(r.rdata);
    let k = wire::bytes16(wire::low16(d.len()));
    let p = pos + n.len();
    lemma_stands_split(buf, pos, n + t + c + l + k, d);
    lemma_stands_split(buf, pos, n + t + c + l, k);
    lemma_stands_split(buf, pos, n + t + c, l);
    lemma_stands_split(buf, pos, n + t, c);
    lemma_stands_split(buf, pos, n, t);
    lemma_name_back(buf, pos, r.name);
    lemma_stands_16(buf, p, r.rtype);
    lemma_stands_16(buf, p + 2, r.rclass);
    lemma_stands_32(buf, p + 4, r.ttl);
    lemma_stands_16(buf, p + 8, wire::low16(d.len()));
    lemma_data_back(buf, p + 10, r.rtype, r.rdata);
}

proof fn lemma_records_back(buf: Seq<u8>, pos: int, rs: Seq<RecordView>)
    requires
        forall|i: int| 0 <= i < rs.len() ==> encodable_record(#[trigger] rs[i]),
        stands(buf, pos, wire::encoded_records(rs)),
    ensures
        wire::parsed_records(buf, pos, rs.len()) == Ok::<(Seq<RecordView>, int), Seq<char>>(
            (rs, pos + wire::encoded_records(rs).len()),
        ),
    decreases rs.len(),
{
    if rs.len() == 0 {
        assert(rs =~= seq![]);
    } else {
        let rest = rs.drop_first();
        assert(encodable_record(rs[0]));
        lemma_stands_split(buf, pos, wire::encoded_record(rs[0]), wire::encoded_records(rest));
        lemma_record_back(buf, pos, rs[0]);
        assert forall|i: int| 0 <= i < rest.len() implies encodable_record(#[trigger] rest[i]) by {
            assert(rest[i] == rs[i + 1]);
        }
        lemma_records_back(buf, pos + wire::encoded_record(rs[0]).len(), rest);
        assert(seq![rs[0]] + rest =~= rs);
    }
}

proof fn lemma_header_back(buf: Seq<u8>, m: MessageView)
    requires
        stands(buf, 0, wire::encoded_header(m)),
        m.questions.len() < 0x1_0000,
        m.answers.len() < 0x1_0000,
        m.authorities.len() < 0x1_0000,
    ensures
        wire::encoded_header(m).len() == 12,
        wire::be16(buf, 0) == m.id,
        wire::be16(buf, 2) == m.flags,
        wire::be16(buf, 4) as nat == m.questions.len(),
        wire::be16(buf, 6) as nat == m.answers.len(),
        wire::be16(buf, 8) as nat == m.authorities.len(),
{
    let i = wire::bytes16(m.id);
    let f = wire::bytes16(m.flags);
    let q = wire::bytes16(wire::low16(m.questions.len()));
    let an = wire::bytes16(wire::low16(m.answers.len()));
    let ns = wire::bytes16(wire::low16(m.authorities.len()));
    let ar = wire::bytes16(wire::low16(m.additionals.len()));
    lemma_stands_split(buf, 0, i + f + q + an + ns, ar);
    lemma_stands_split(buf, 0, i + f + q + an, ns);
    lemma_stands_split(buf, 0, i + f + q, an);
    lemma_stands_split(buf, 0, i + f, q);
    lemma_stands_split(buf, 0, i, f);
    lemma_stands_16(buf, 0, m.id);
    lemma_stands_16(buf, 2, m.flags);
    lemma_stands_16(buf, 4, wire::low16(m.questions.len()));
    lemma_stands_16(buf, 6, wire::low16(m.answers.len()));
    lemma_stands_16(buf, 8, wire::low16(m.authorities.len()));
}

proof fn lemma_parts_stand(buf: Seq<u8>, a: Seq<u8>, b: Seq<u8>, c: Seq<u8>, d: Seq<u8>)
    requires
        buf == a + b + c + d,
    ensures
        stands(buf, 0, a),
        stands(buf, a.len() as int, b),
        stands(buf, a.len() + b.len() as int, c),
        stands(buf, a.len() + b.len() + c.len() as int, d),
{
    assert(buf.subrange(0, buf.len() as int) =~= buf);
    lemma_stands_split(buf, 0, a + b + c, d);
    lemma_stands_split(buf, 0, a + b, c);
    lemma_stands_split(buf, 0, a, b);
}

proof fn lemma_sections_back(buf: Seq<u8>, m: MessageView, p1: int, p2: int)
    requires
        encodable(m),
        buf.len() >= 12,
        wire::be16(buf, 0) == m.id,
        wire::be16(buf, 2) == m.flags,
        wire::be16(buf, 4) as nat == m.questions.len(),
        wire::be16(buf, 6) as nat == m.answers.len(),
        wire::be16(buf, 8) as nat == m.authorities.len(),
        p1 == 12 + wire::encoded_questions(m.questions).len(),
        p2 == p1 + wire::encoded_records(m.answers).len(),
        stands(buf, 12, wire::encoded_questions(m.questions)),
        stands(buf, p1, wire::encoded_records(m.answers)),
        stands(buf, p2, wire::encoded_records(m.authorities)),
    ensures
        wire::parsed_message(buf) == Ok::<MessageView, Seq<char>>(
            MessageView { additionals: seq![], ..m },
        ),
{
    lemma_questions_back(buf, 12, m.questions);
    lemma_records_back(buf, p1, m.answers);
    lemma_records_back(buf, p2, m.authorities);
}

// ── The laws ────────────────────────────────────────────────────────────────

/// Reading what was written gives the message back, without its additional
/// records.
pub proof fn law_round_trip(m: MessageView)
    requires
        encodable(m),
    ensures
        wire::parsed_message(wire::encoded_message(m)) == Ok::<MessageView, Seq<char>>(
            MessageView { additionals: seq![], ..m },
        ),
{
    let buf = wire::encoded_message(m);
    let h = wire::encoded_header(m);
    let q = wire::encoded_questions(m.questions);
    let an = wire::encoded_records(m.answers);
    let ns = wire::encoded_records(m.authorities);
    lemma_parts_stand(buf, h, q, an, ns);
    lemma_header_back(buf, m);
    lemma_sections_back(buf, m, 12int + q.len(), 12int + q.len() + an.len());
}

/// A response with nothing but a code reads back as it was made, so that it
/// carries the identity and the questions of the query.
pub proof fn law_response_round_trip(query: MessageView, rcode: u16)
    requires
        encodable_questions(query.questions),
    ensures
        wire::parsed_message(wire::encoded_message(wire::response_to(query, rcode))) == Ok::<
            MessageView,
            Seq<char>,
        >(wire::response_to(query, rcode)),
{
    law_round_trip(wire::response_to(query, rcode));
}

/// The flags of a response say that it is one, ask for recursion where the query
/// did, and hold the code.
pub proof fn law_response_flags(flags: u16, rcode: u16)
    requires
        rcode < 16,
    ensures
        wire::response_flags(flags, rcode) & 0x000f == rcode,
        wire::response_flags(flags, rcode) & 0x0100 == flags & 0x0100,
        wire::response_flags(flags, rcode) & 0x8000 == 0x8000,
        !wire::query_flags(wire::response_flags(flags, rcode)),
{
    assert((0x8000u16 | (flags & 0x0100) | 0x0080 | rcode) & 0x000f == rcode) by (bit_vector)
        requires
            rcode < 16,
    ;
    assert((0x8000u16 | (flags & 0x0100) | 0x0080 | rcode) & 0x0100 == flags & 0x0100)
        by (bit_vector)
        requires
            rcode < 16,
    ;
    assert((0x8000u16 | (flags & 0x0100) | 0x0080 | rcode) & 0x8000 == 0x8000) by (bit_vector);
    assert((0x8000u16 | (flags & 0x0100) | 0x0080 | rcode) >= 0x8000) by (bit_vector);
}

/// A zero-address response reads back with the questions of the query and with the
/// zero address as its only answer, where the first question asks for an address. The
/// smallest time to live in it is the one that it was made with.
pub proof fn law_zero_ip_round_trip(query: MessageView, ttl: u32)
    requires
        encodable_questions(query.questions),
    ensures
        ({
            let answers = wire::zero_answers(query.questions, ttl);
            wire::parsed_message(wire::encoded_message(wire::answer_to(query, answers))) == Ok::<
                MessageView,
                Seq<char>,
            >(wire::answer_to(query, answers))
        }),
        wire::zero_answers(query.questions, ttl).len() == (if query.questions.len() > 0 && (
        query.questions[0].qtype == qtype::A || query.questions[0].qtype == qtype::AAAA) {
            1nat
        } else {
            0nat
        }),
        wire::zero_answers(query.questions, ttl).len() > 0 ==> wire::least_ttl(
            wire::zero_answers(query.questions, ttl),
            ttl,
        ),
{
    let answers = wire::zero_answers(query.questions, ttl);
    law_round_trip(wire::answer_to(query, answers));
    if answers.len() > 0 {
        assert(answers[0].ttl == ttl);
    }
}

/// A rewrite response reads back with the questions of the query and with the
/// rewriting record as its only answer, whose time to live is the one that it was made
/// with.
pub proof fn law_rewrite_round_trip(
    query: MessageView,
    target: Seq<char>,
    ip4: Option<Seq<u8>>,
    ip6: Option<Seq<u8>>,
    ttl: u32,
)
    requires
        encodable_questions(query.questions),
        query.questions.len() > 0,
        ip4 matches Some(ip) ==> ip.len() == 4,
        ip6 matches Some(ip) ==> ip.len() == 16,
        ip4 is None && ip6 is None ==> encodable_name(target),
    ensures
        ({
            let answers = seq![wire::rewrite_record(query.questions[0], target, ip4, ip6, ttl)];
            wire::parsed_message(wire::encoded_message(wire::answer_to(query, answers))) == Ok::<
                MessageView,
                Seq<char>,
            >(wire::answer_to(query, answers))
        }),
        wire::least_ttl(
            seq![wire::rewrite_record(query.questions[0], target, ip4, ip6, ttl)],
            ttl,
        ),
{
    let answers = seq![wire::rewrite_record(query.questions[0], target, ip4, ip6, ttl)];
    law_round_trip(wire::answer_to(query, answers));
    assert(answers[0].ttl == ttl);
}

/// Writing an identity over a packet gives the packet of the same message with
/// that identity.
pub proof fn law_patch_id(m: MessageView, id: u16)
    ensures
        wire::with_id(wire::encoded_message(m), id) == wire::encoded_message(
            MessageView { id, ..m },
        ),
{
    assert(wire::with_id(wire::encoded_message(m), id) =~= wire::encoded_message(
        MessageView { id, ..m },
    ));
}

/// A packet has one smallest time to live at most.
pub proof fn law_least_ttl_unique(rs: Seq<RecordView>, a: u32, b: u32)
    requires
        wire::least_ttl(rs, a),
        wire::least_ttl(rs, b),
    ensures
        a == b,
{
}

/// A name that runs into a set of pointers which only lead to each other is
/// refused, however many steps are allowed.
pub proof fn law_pointer_cycle(buf: Seq<u8>, places: Set<int>, pos: int, steps: nat)
    requires
        places.contains(pos),
        forall|p: int| #[trigger]
            places.contains(p) ==> 0 <= p && p + 1 < buf.len() && buf[p] >= 0xC0
                && places.contains(wire::pointer_target(buf, p)),
    ensures
        wire::parsed_labels(buf, pos, steps) == Err::<(Seq<Seq<char>>, int), Seq<char>>(
            "name compression loop"@,
        ),
    decreases steps,
{
    if steps > 0 {
        law_pointer_cycle(buf, places, wire::pointer_target(buf, pos), (steps - 1) as nat);
    }
}

/// Every label that is read is the lower case of a text, and there are fewer of
/// them than steps.
pub proof fn law_labels_lower(buf: Seq<u8>, pos: int, steps: nat)
    ensures
        wire::parsed_labels(buf, pos, steps) matches Ok((labels, _)) ==> {
            &&& labels.len() < steps
            &&& forall|i: int|
                0 <= i < labels.len() ==> exists|t: Seq<char>|
                    #[trigger] labels[i] == #[trigger] text::lowercase(t)
        },
    decreases steps,
{
    if steps > 0 && pos < buf.len() && buf[pos] != 0 {
        if buf[pos] >= 0xC0 {
            law_labels_lower(buf, wire::pointer_target(buf, pos), (steps - 1) as nat);
        } else if buf[pos] < 0x40 {
            let end = pos + 1 + buf[pos];
            law_labels_lower(buf, end, (steps - 1) as nat);
            if let Ok((labels, _)) = wire::parsed_labels(buf, pos, steps) {
                let raw = decode_utf8(buf.subrange(pos + 1, end));
                let rest = wire::parsed_labels(buf, end, (steps - 1) as nat)->Ok_0.0;
                assert forall|i: int| 0 <= i < labels.len() implies exists|t: Seq<char>|
                    #[trigger] labels[i] == #[trigger] text::lowercase(t) by {
                    if i == 0 {
                        assert(labels[0] == text::lowercase(raw));
                    } else {
                        assert(labels[i] == rest[i - 1]);
                    }
                }
            }
        }
    }
}

/// No name that is read ends in a dot.
pub proof fn law_name_without_trailing_dot(buf: Seq<u8>, pos: int)
    ensures
        wire::parsed_name(buf, pos) matches Ok((name, _)) ==> (name.len() > 0 ==> name.last()
            != '.'),
{
    if let Ok((labels, _)) = wire::parsed_labels(buf, pos, MAX_NAME_STEPS as nat) {
        text::lemma_skip_trailing(text::joined(labels, '.'), text::is_char('.'));
    }
}

/// The labels of the name at `pos` are made of ASCII characters.
pub open spec fn ascii_labels(buf: Seq<u8>, pos: int, steps: nat) -> bool
    decreases steps,
{
    if steps == 0 || pos >= buf.len() || buf[pos] == 0 {
        true
    } else if buf[pos] >= 0xC0 {
        ascii_labels(buf, wire::pointer_target(buf, pos), (steps - 1) as nat)
    } else {
        let end = pos + 1 + buf[pos];
        &&& forall|i: int| pos < i < end ==> #[trigger] buf[i] < 0x80
        &&& ascii_labels(buf, end, (steps - 1) as nat)
    }
}

/// An ASCII character that is no capital letter.
pub open spec fn small(c: char) -> bool {
    '\0' <= c <= '\u{7f}' && !('A' <= c <= 'Z')
}

proof fn lemma_ascii_labels(buf: Seq<u8>, pos: int, steps: nat)
    requires
        0 <= pos,
        ascii_labels(buf, pos, steps),
    ensures
        wire::parsed_labels(buf, pos, steps) matches Ok((labels, _)) ==> forall|i: int, j: int|
            0 <= i < labels.len() && 0 <= j < labels[i].len() ==> small(#[trigger] labels[i][j]),
    decreases steps,
{
    if steps > 0 && pos < buf.len() && buf[pos] != 0 {
        if buf[pos] >= 0xC0 {
            lemma_ascii_labels(buf, wire::pointer_target(buf, pos), (steps - 1) as nat);
        } else if buf[pos] < 0x40 {
            let end = pos + 1 + buf[pos];
            lemma_ascii_labels(buf, end, (steps - 1) as nat);
            if let Ok((labels, _)) = wire::parsed_labels(buf, pos, steps) {
                let bytes = buf.subrange(pos + 1, end);
                let raw = decode_utf8(bytes);
                let rest = wire::parsed_labels(buf, end, (steps - 1) as nat)->Ok_0.0;
                assert forall|i: int| 0 <= i < bytes.len() implies #[trigger] bytes[i] < 0x80 by {
                    assert(bytes[i] == buf[pos + 1 + i]);
                }
                lemma_ascii_bytes(bytes);
                assert(labels[0] == text::ascii_lower(raw));
                assert forall|i: int, j: int|
                    0 <= i < labels.len() && 0 <= j < labels[i].len() implies small(
                    #[trigger] labels[i][j],
                ) by {
                    if i > 0 {
                        assert(labels[i] == rest[i - 1]);
                        assert(small(rest[i - 1][j]));
                    } else {
                        assert('\0' <= raw[j] <= '\u{7f}');
                    }
                }
            }
        }
    }
}

/// A name of ASCII characters is read in lower case. Of other names, each label is the
/// lower case of a text.
pub proof fn law_name_lower(buf: Seq<u8>, pos: int)
    requires
        0 <= pos,
        ascii_labels(buf, pos, MAX_NAME_STEPS as nat),
    ensures
        wire::parsed_name(buf, pos) matches Ok((name, _)) ==> text::lowercase(name) == name,
{
    if let Ok((labels, _)) = wire::parsed_labels(buf, pos, MAX_NAME_STEPS as nat) {
        let whole = text::joined(labels, '.');
        let name = text::trimmed_end_of(whole, '.');
        let p = |c: char| small(c);
        lemma_ascii_labels(buf, pos, MAX_NAME_STEPS as nat);
        text::lemma_joined_all(labels, '.', p);
        text::lemma_skip_trailing(whole, text::is_char('.'));
        assert forall|j: int| 0 <= j < name.len() implies small(#[trigger] name[j]) by {
            assert(whole.subrange(0, name.len() as int)[j] == whole[j]);
            assert(p(whole[j]));
        }
        assert(is_ascii_chars(name));
        assert(text::ascii_lower(name) =~= name);
    }
}

/// A name that a host can have stands in a packet as it is: ASCII without capital
/// letters, its labels of 1 to 63 characters, and 253 characters at most.
pub proof fn law_host_name_encodable(name: Seq<char>)
    requires
        is_ascii_chars(name),
        forall|i: int| 0 <= i < name.len() ==> !('A' <= #[trigger] name[i] <= 'Z'),
        name.len() <= 253,
        forall|i: int|
            0 <= i < text::pieces(name, '.').len() ==> 1 <= (#[trigger] text::pieces(
                name,
                '.',
            )[i]).len() <= 63,
    ensures
        encodable_name(name),
{
    let labels = text::pieces(name, '.');
    text::lemma_pieces_total(name, '.');
    text::lemma_sum_at_least(labels);
    assert forall|i: int| 0 <= i < labels.len() implies encodable_label(#[trigger] labels[i]) by {
        text::lemma_pieces_of(name, '.', i);
        let l = labels[i];
        let a = choose|a: int|
            0 <= a <= name.len() - l.len() && #[trigger] name.subrange(a, a + l.len()) == l;
        assert forall|j: int| 0 <= j < l.len() implies l[j] == name[a + j] by {
            assert(name.subrange(a, a + l.len())[j] == name[a + j]);
        }
        assert(is_ascii_chars(l));
        is_ascii_chars_encode_utf8(l);
        assert(text::ascii_lower(l) =~= l);
    }
}

/// The labels of the name at `pos` hold no dots.
pub open spec fn dotless_labels(buf: Seq<u8>, pos: int, steps: nat) -> bool
    decreases steps,
{
    if steps == 0 || pos >= buf.len() || buf[pos] == 0 {
        true
    } else if buf[pos] >= 0xC0 {
        dotless_labels(buf, wire::pointer_target(buf, pos), (steps - 1) as nat)
    } else {
        let end = pos + 1 + buf[pos];
        &&& forall|i: int| pos < i < end ==> #[trigger] buf[i] != 0x2E
        &&& dotless_labels(buf, end, (steps - 1) as nat)
    }
}

/// The labels of the name at `pos` are made of ASCII characters other than the dot.
pub open spec fn plain_labels(buf: Seq<u8>, pos: int, steps: nat) -> bool {
    ascii_labels(buf, pos, steps) && dotless_labels(buf, pos, steps)
}

/// The names of `count` questions, the first at `pos`, are plain.
pub open spec fn plain_questions(buf: Seq<u8>, pos: int, count: nat) -> bool
    decreases count,
{
    count > 0 ==> {
        &&& plain_labels(buf, pos, MAX_NAME_STEPS as nat)
        &&& wire::parsed_question(buf, pos) matches Ok((_, p)) ==> plain_questions(
            buf,
            p,
            (count - 1) as nat,
        )
    }
}

proof fn lemma_ascii_bytes(bytes: Seq<u8>)
    requires
        forall|i: int| 0 <= i < bytes.len() ==> #[trigger] bytes[i] < 0x80,
    ensures
        is_ascii_chars(decode_utf8(bytes)),
        decode_utf8(bytes).len() == bytes.len(),
        forall|i: int| 0 <= i < bytes.len() ==> #[trigger] decode_utf8(bytes)[i] as u8 == bytes[i],
{
    let chars = Seq::new(bytes.len(), |i: int| bytes[i] as char);
    assert forall|i: int| 0 <= i < chars.len() implies '\0' <= #[trigger] chars[i] <= '\u{7f}' by {
        assert(bytes[i] < 0x80);
    }
    is_ascii_chars_encode_utf8(chars);
    assert(encode_utf8(chars) =~= bytes);
    encode_utf8_decode_utf8(chars);
}

proof fn lemma_plain_labels(buf: Seq<u8>, pos: int, steps: nat)
    requires
        0 <= pos,
        plain_labels(buf, pos, steps),
    ensures
        wire::parsed_labels(buf, pos, steps) matches Ok((labels, _)) ==> forall|i: int|
            0 <= i < labels.len() ==> encodable_label(#[trigger] labels[i]) && !labels[i].contains(
                '.',
            ),
    decreases steps,
{
    if steps > 0 && pos < buf.len() && buf[pos] != 0 {
        if buf[pos] >= 0xC0 {
            lemma_plain_labels(buf, wire::pointer_target(buf, pos), (steps - 1) as nat);
        } else if buf[pos] < 0x40 {
            let end = pos + 1 + buf[pos];
            lemma_plain_labels(buf, end, (steps - 1) as nat);
            if let Ok((labels, _)) = wire::parsed_labels(buf, pos, steps) {
                let bytes = buf.subrange(pos + 1, end);
                let raw = decode_utf8(bytes);
                let rest = wire::parsed_labels(buf, end, (steps - 1) as nat)->Ok_0.0;
                assert forall|i: int| 0 <= i < bytes.len() implies #[trigger] bytes[i] < 0x80
                    && bytes[i] != 0x2E by {
                    assert(bytes[i] == buf[pos + 1 + i]);
                }
                lemma_ascii_bytes(bytes);
                let label = text::ascii_lower(raw);
                assert(is_ascii_chars(label));
                is_ascii_chars_encode_utf8(label);
                assert(text::ascii_lower(label) =~= label);
                assert forall|j: int| 0 <= j < label.len() implies label[j] != '.' by {
                    assert(raw[j] as u8 == bytes[j]);
                }
                assert(!label.contains('.'));
                assert forall|i: int| 0 <= i < labels.len() implies encodable_label(
                    #[trigger] labels[i],
                ) && !labels[i].contains('.') by {
                    if i > 0 {
                        assert(labels[i] == rest[i - 1]);
                    }
                }
            }
        }
    }
}

proof fn lemma_plain_questions(buf: Seq<u8>, pos: int, count: nat)
    requires
        0 <= pos,
        plain_questions(buf, pos, count),
    ensures
        wire::parsed_questions(buf, pos, count) matches Ok((qs, _)) ==> {
            &&& qs.len() == count
            &&& forall|i: int| 0 <= i < qs.len() ==> encodable_name((#[trigger] qs[i]).name)
        },
    decreases count,
{
    if count > 0 {
        if let Ok((q, p)) = wire::parsed_question(buf, pos) {
            lemma_plain_labels(buf, pos, MAX_NAME_STEPS as nat);
            law_labels_lower(buf, pos, MAX_NAME_STEPS as nat);
            lemma_labels_end(buf, pos, MAX_NAME_STEPS as nat);
            let labels = wire::parsed_labels(buf, pos, MAX_NAME_STEPS as nat)->Ok_0.0;
            if labels.len() > 0 {
                text::lemma_pieces_joined(labels, '.');
                assert(encodable_label(labels[labels.len() - 1]));
                lemma_no_dot_at_end(labels);
            }
            lemma_plain_questions(buf, p, (count - 1) as nat);
            if let Ok((qs, _)) = wire::parsed_questions(buf, pos, count) {
                let rest = wire::parsed_questions(buf, p, (count - 1) as nat)->Ok_0.0;
                assert forall|i: int| 0 <= i < qs.len() implies encodable_name(
                    (#[trigger] qs[i]).name,
                ) by {
                    if i > 0 {
                        assert(qs[i] == rest[i - 1]);
                    }
                }
            }
        }
    }
}

proof fn lemma_labels_end(buf: Seq<u8>, pos: int, steps: nat)
    requires
        0 <= pos,
    ensures
        wire::parsed_labels(buf, pos, steps) matches Ok((_, end)) ==> pos < end <= buf.len(),
    decreases steps,
{
    if steps > 0 && pos < buf.len() && buf[pos] != 0 && buf[pos] < 0x40 {
        lemma_labels_end(buf, pos + 1 + buf[pos], (steps - 1) as nat);
    }
}

/// A query that can be read, with names of ASCII characters, gets a response that
/// can be read too and repeats its identity and its questions.
pub proof fn law_plain_query_echoed(buf: Seq<u8>, query: MessageView, rcode: u16)
    requires
        wire::parsed_message(buf) == Ok::<MessageView, Seq<char>>(query),
        plain_questions(buf, 12, wire::be16(buf, 4) as nat),
    ensures
        wire::parsed_message(wire::encoded_message(wire::response_to(query, rcode))) == Ok::<
            MessageView,
            Seq<char>,
        >(wire::response_to(query, rcode)),
{
    lemma_plain_questions(buf, 12, wire::be16(buf, 4) as nat);
    law_response_round_trip(query, rcode);
}

} // verus!
