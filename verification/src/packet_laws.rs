//! What stands where in a packet, byte by byte.
use vstd::prelude::*;
use vstd::utf8::*;

use crate::dns_codec;
use crate::dns_laws;
use crate::qtype;
use crate::rcode;
use crate::text;
use crate::text_laws;
use crate::wire;
use crate::wire::{DataView, MessageView, QuestionView, RecordView};

verus! {

// ── Numbers ─────────────────────────────────────────────────────────────────

/// Numbers stand with their highest byte first.
pub proof fn law_numbers(buf: Seq<u8>, pos: int, v: u16, w: u32, n: nat)
    ensures
        wire::be16(buf, pos) as int == buf[pos] * 256 + buf[pos + 1],
        wire::be32(buf, pos) as int == ((buf[pos] * 256 + buf[pos + 1]) * 256 + buf[pos + 2]) * 256
            + buf[pos + 3],
        wire::bytes16(v).len() == 2,
        wire::bytes16(v)[0] * 256 + wire::bytes16(v)[1] == v,
        wire::bytes32(w).len() == 4,
        ((wire::bytes32(w)[0] * 256 + wire::bytes32(w)[1]) * 256 + wire::bytes32(w)[2]) * 256
            + wire::bytes32(w)[3] == w,
        wire::low16(n) as nat == n % 0x1_0000,
{
}

/// The types, the class and the codes have the numbers that DNS gives them.
pub proof fn law_codes()
    ensures
        qtype::A == 1,
        qtype::CNAME == 5,
        qtype::AAAA == 28,
        dns_codec::CLASS_IN == 1,
        rcode::NO_ERROR == 0,
        rcode::SERV_FAIL == 2,
        rcode::NX_DOMAIN == 3,
        rcode::REFUSED == 5,
{
}

// ── Reading names ───────────────────────────────────────────────────────────

/// A zero byte ends a name.
pub proof fn law_name_end(buf: Seq<u8>, pos: int, steps: nat)
    requires
        steps > 0,
        0 <= pos < buf.len(),
        buf[pos] == 0,
    ensures
        wire::parsed_labels(buf, pos, steps) == Ok::<(Seq<Seq<char>>, int), Seq<char>>(
            (seq![], pos + 1),
        ),
{
}

/// A length of 1 to 63 is followed by as many bytes of a label and by the rest of the
/// name. The label is read in lower case.
pub proof fn law_name_label(buf: Seq<u8>, pos: int, steps: nat, bytes: Seq<u8>)
    requires
        steps > 0,
        0 <= pos,
        1 <= bytes.len() <= 63,
        pos + 1 + bytes.len() <= buf.len(),
        buf[pos] as nat == bytes.len(),
        forall|i: int| 0 <= i < bytes.len() ==> #[trigger] bytes[i] == buf[pos + 1 + i],
        valid_utf8(bytes),
    ensures
        wire::parsed_labels(buf, pos, steps) == (match wire::parsed_labels(
            buf,
            pos + 1 + bytes.len(),
            (steps - 1) as nat,
        ) {
            Ok((labels, end)) => Ok::<(Seq<Seq<char>>, int), Seq<char>>(
                (seq![text::lowercase(decode_utf8(bytes))] + labels, end),
            ),
            Err(e) => Err(e),
        }),
{
    assert(buf.subrange(pos + 1, pos + 1 + bytes.len()) =~= bytes);
}

/// A byte of 192 or more and the one behind it point to a place in the whole packet,
/// where the name goes on. Reading goes on behind these two bytes.
pub proof fn law_name_pointer(buf: Seq<u8>, pos: int, steps: nat, target: int)
    requires
        steps > 0,
        0 <= pos,
        pos + 1 < buf.len(),
        buf[pos] >= 192,
        target == (buf[pos] - 192) * 256 + buf[pos + 1],
    ensures
        wire::parsed_labels(buf, pos, steps) == (match wire::parsed_labels(
            buf,
            target,
            (steps - 1) as nat,
        ) {
            Ok((labels, _)) => Ok::<(Seq<Seq<char>>, int), Seq<char>>((labels, pos + 2)),
            Err(e) => Err(e),
        }),
{
}

/// The value of a digit in base sixteen, in small letters.
pub open spec fn digit_value(c: char) -> int {
    if '0' <= c <= '9' {
        c as int - '0' as int
    } else if 'a' <= c <= 'f' {
        c as int - 'a' as int + 10
    } else {
        -1
    }
}

/// When a name cannot be read, and what is said of it.
pub proof fn law_name_errors(buf: Seq<u8>, pos: int, steps: nat)
    requires
        0 <= pos,
    ensures
        steps == 0 ==> wire::parsed_labels(buf, pos, steps) == Err::<
            (Seq<Seq<char>>, int),
            Seq<char>,
        >("name compression loop"@),
        steps > 0 && pos >= buf.len() ==> wire::parsed_labels(buf, pos, steps) == Err::<
            (Seq<Seq<char>>, int),
            Seq<char>,
        >("name OOB"@),
        steps > 0 && pos < buf.len() && buf[pos] >= 192 && pos + 1 == buf.len()
            ==> wire::parsed_labels(buf, pos, steps) == Err::<(Seq<Seq<char>>, int), Seq<char>>(
            "pointer OOB"@,
        ),
        steps > 0 && pos < buf.len() && 1 <= buf[pos] <= 63 && pos + 1 + buf[pos] > buf.len()
            ==> wire::parsed_labels(buf, pos, steps) == Err::<(Seq<Seq<char>>, int), Seq<char>>(
            "label OOB"@,
        ),
        steps > 0 && pos < buf.len() && 1 <= buf[pos] <= 63 && pos + 1 + buf[pos] <= buf.len()
            && !valid_utf8(buf.subrange(pos + 1, pos + 1 + buf[pos])) ==> wire::parsed_labels(
            buf,
            pos,
            steps,
        ) == Err::<(Seq<Seq<char>>, int), Seq<char>>("invalid UTF-8 label"@),
        steps > 0 && pos < buf.len() && 64 <= buf[pos] <= 191 ==> {
            let e = wire::parsed_labels(buf, pos, steps)->Err_0;
            let n = "unsupported label type 0x"@.len() as int;
            &&& wire::parsed_labels(buf, pos, steps) is Err
            &&& e.len() == n + 2
            &&& e.take(n) == "unsupported label type 0x"@
            &&& 0 <= digit_value(e[n]) && 0 <= digit_value(e[n + 1])
            &&& digit_value(e[n]) * 16 + digit_value(e[n + 1]) == buf[pos]
        },
{
    if steps > 0 && pos < buf.len() && 64 <= buf[pos] <= 191 {
        let e = wire::unsupported_label(buf[pos]);
        let n = "unsupported label type 0x"@.len() as int;
        assert(e.take(n) =~= "unsupported label type 0x"@);
    }
}

/// A name is its labels with dots between them, without dots at the end; 128 labels and
/// pointers are followed at most before the one that ends it.
pub proof fn law_name_of_labels(buf: Seq<u8>, pos: int) -> (dots: Seq<char>)
    ensures
        text_laws::all_of(dots, '.'),
        match wire::parsed_labels(buf, pos, 129) {
            Ok((labels, end)) => wire::parsed_name(buf, pos) matches Ok((name, e)) && e == end
                && name + dots == text::joined(labels, '.') && (name.len() > 0 ==> name[name.len()
                - 1] != '.'),
            Err(e) => wire::parsed_name(buf, pos) == Err::<(Seq<char>, int), Seq<char>>(e),
        },
{
    match wire::parsed_labels(buf, pos, 129) {
        Ok((labels, _)) => text_laws::law_trimmed_end_parts(text::joined(labels, '.'), '.'),
        Err(_) => seq![],
    }
}

/// A name that can be read is read the same with more steps allowed.
pub proof fn law_more_steps(buf: Seq<u8>, pos: int, steps: nat, more: nat)
    requires
        wire::parsed_labels(buf, pos, steps) is Ok,
        steps <= more,
    ensures
        wire::parsed_labels(buf, pos, more) == wire::parsed_labels(buf, pos, steps),
    decreases steps,
{
    if steps > 0 && pos < buf.len() && buf[pos] != 0 {
        if buf[pos] >= 0xC0 {
            law_more_steps(
                buf,
                wire::pointer_target(buf, pos),
                (steps - 1) as nat,
                (more - 1) as nat,
            );
        } else if buf[pos] < 0x40 {
            law_more_steps(buf, pos + 1 + buf[pos], (steps - 1) as nat, (more - 1) as nat);
        }
    }
}

/// The bytes of labels, each behind its length.
pub open spec fn label_bytes(labels: Seq<Seq<char>>) -> Seq<u8>
    decreases labels.len(),
{
    if labels.len() == 0 {
        seq![]
    } else {
        seq![encode_utf8(labels[0]).len() as u8] + encode_utf8(labels[0]) + label_bytes(
            labels.drop_first(),
        )
    }
}

/// Labels and then a pointer to `target`: the name is these labels and those of the name
/// that stands at `target` in the whole packet.
#[verifier::spinoff_prover]
#[verifier::rlimit(60)]
pub proof fn law_compressed_name(
    buf: Seq<u8>,
    pos: int,
    labels: Seq<Seq<char>>,
    target: int,
    more: Seq<Seq<char>>,
    end: int,
    steps: nat,
)
    requires
        0 <= pos,
        0 <= target < 0x4000,
        forall|i: int|
            0 <= i < labels.len() ==> dns_laws::encodable_label(#[trigger] labels[i]),
        pos + label_bytes(labels).len() + 2 <= buf.len(),
        buf.subrange(pos, pos + label_bytes(labels).len()) == label_bytes(labels),
        buf[pos + label_bytes(labels).len()] == 192 + target / 256,
        buf[pos + label_bytes(labels).len() + 1] == target % 256,
        wire::parsed_labels(buf, target, steps) == Ok::<(Seq<Seq<char>>, int), Seq<char>>(
            (more, end),
        ),
    ensures
        wire::parsed_labels(buf, pos, steps + 1 + labels.len()) == Ok::<
            (Seq<Seq<char>>, int),
            Seq<char>,
        >((labels + more, pos + label_bytes(labels).len() + 2)),
    decreases labels.len(),
{
    let total = steps + 1 + labels.len();
    if labels.len() == 0 {
        law_name_pointer(buf, pos, total, target);
        assert(labels + more =~= more);
    } else {
        let label = labels[0];
        let rest = labels.drop_first();
        let bytes = encode_utf8(label);
        let all = label_bytes(labels);
        assert(dns_laws::encodable_label(label));
        assert(all.len() == 1 + bytes.len() + label_bytes(rest).len());
        assert forall|i: int| 0 <= i < all.len() implies buf[pos + i] == #[trigger] all[i] by {
            assert(buf.subrange(pos, pos + all.len())[i] == buf[pos + i]);
        }
        assert(buf[pos] == all[0]) by {
            assert(buf[pos + 0] == all[0]);
        }
        assert forall|i: int| 0 <= i < bytes.len() implies #[trigger] bytes[i] == buf[pos + 1
            + i] by {
            assert(all[1 + i] == bytes[i]);
            assert(buf[pos + (1 + i)] == all[1 + i]);
        }
        encode_utf8_valid_utf8(label);
        encode_utf8_decode_utf8(label);
        law_name_label(buf, pos, total, bytes);
        let next = pos + 1 + bytes.len();
        assert(buf.subrange(next, next + label_bytes(rest).len()) =~= label_bytes(rest)) by {
            assert forall|i: int| 0 <= i < label_bytes(rest).len() implies #[trigger] buf.subrange(
                next,
                next + label_bytes(rest).len(),
            )[i] == label_bytes(rest)[i] by {
                assert(all[1 + bytes.len() + i] == label_bytes(rest)[i]);
                assert(buf[pos + (1 + bytes.len() + i)] == all[1 + bytes.len() + i]);
            }
        }
        assert forall|i: int| 0 <= i < rest.len() implies dns_laws::encodable_label(
            #[trigger] rest[i],
        ) by {
            assert(rest[i] == labels[i + 1]);
        }
        law_compressed_name(buf, next, rest, target, more, end, steps);
        assert((total - 1) as nat == steps + 1 + rest.len());
        assert(seq![label] + (rest + more) =~= labels + more);
    }
}

// ── Reading questions and records ───────────────────────────────────────────

/// Behind the name of a question stand its type and its class, in four bytes.
pub proof fn law_question(buf: Seq<u8>, pos: int)
    ensures
        match wire::parsed_name(buf, pos) {
            Err(e) => wire::parsed_question(buf, pos) == Err::<(QuestionView, int), Seq<char>>(e),
            Ok((name, p)) => if p + 4 > buf.len() {
                wire::parsed_question(buf, pos) == Err::<(QuestionView, int), Seq<char>>(
                    "truncated question"@,
                )
            } else {
                wire::parsed_question(buf, pos) matches Ok((q, end)) && q.name == name
                    && q.qtype as int == buf[p] * 256 + buf[p + 1] && q.qclass as int == buf[p + 2]
                    * 256 + buf[p + 3] && end == p + 4
            },
        },
{
}

/// Behind the name of a record stand its type, its class, its time to live and the length
/// of its data, in ten bytes, and then the data. An address is the bytes of the data. The
/// name that a record of type 5 holds is read in the whole packet, at the place of the
/// data, so that pointers in it are places in the packet. Other data is kept as it is.
pub proof fn law_record(buf: Seq<u8>, pos: int)
    ensures
        match wire::parsed_name(buf, pos) {
            Err(e) => wire::parsed_record(buf, pos) == Err::<(RecordView, int), Seq<char>>(e),
            Ok((name, p)) => if p + 10 > buf.len() {
                wire::parsed_record(buf, pos) == Err::<(RecordView, int), Seq<char>>(
                    "RR header truncated"@,
                )
            } else {
                let t = buf[p] * 256 + buf[p + 1];
                let n = buf[p + 8] * 256 + buf[p + 9];
                if p + 10 + n > buf.len() {
                    wire::parsed_record(buf, pos) == Err::<(RecordView, int), Seq<char>>(
                        "RDATA truncated"@,
                    )
                } else if t == 5 && wire::parsed_name(buf, p + 10) is Err {
                    wire::parsed_record(buf, pos) == Err::<(RecordView, int), Seq<char>>(
                        wire::parsed_name(buf, p + 10)->Err_0,
                    )
                } else {
                    wire::parsed_record(buf, pos) matches Ok((r, end)) && r.name == name
                        && r.rtype as int == t && r.rclass as int == buf[p + 2] * 256 + buf[p + 3]
                        && r.ttl as int == ((buf[p + 4] * 256 + buf[p + 5]) * 256 + buf[p + 6])
                        * 256 + buf[p + 7] && end == p + 10 + n && r.rdata == (if t == 1 && n
                        == 4 {
                        DataView::A(buf.subrange(p + 10, p + 14))
                    } else if t == 28 && n == 16 {
                        DataView::Aaaa(buf.subrange(p + 10, p + 26))
                    } else if t == 5 {
                        DataView::Cname(wire::parsed_name(buf, p + 10)->Ok_0.0)
                    } else {
                        DataView::Raw(buf.subrange(p + 10, p + 10 + n))
                    })
                }
            },
        },
{
}

/// A record of type 5 whose data is labels and a pointer holds these labels and the name
/// that stands at that place of the packet.
pub proof fn law_compressed_data(
    buf: Seq<u8>,
    pos: int,
    name: Seq<char>,
    p: int,
    labels: Seq<Seq<char>>,
    target: int,
    more: Seq<Seq<char>>,
    end: int,
    steps: nat,
)
    requires
        0 <= p,
        0 <= target < 0x4000,
        wire::parsed_name(buf, pos) == Ok::<(Seq<char>, int), Seq<char>>((name, p)),
        forall|i: int|
            0 <= i < labels.len() ==> dns_laws::encodable_label(#[trigger] labels[i]),
        p + 12 + label_bytes(labels).len() <= buf.len(),
        buf[p] == 0,
        buf[p + 1] == 5,
        buf[p + 8] * 256 + buf[p + 9] == label_bytes(labels).len() + 2,
        buf.subrange(p + 10, p + 10 + label_bytes(labels).len()) == label_bytes(labels),
        buf[p + 10 + label_bytes(labels).len()] == 192 + target / 256,
        buf[p + 11 + label_bytes(labels).len()] == target % 256,
        steps + 1 + labels.len() <= 129,
        wire::parsed_labels(buf, target, steps) == Ok::<(Seq<Seq<char>>, int), Seq<char>>(
            (more, end),
        ),
    ensures
        wire::parsed_record(buf, pos) matches Ok((r, _)) && r.rdata == DataView::Cname(
            text::trimmed_end_of(text::joined(labels + more, '.'), '.'),
        ),
{
    law_compressed_name(buf, p + 10, labels, target, more, end, steps);
    law_more_steps(buf, p + 10, steps + 1 + labels.len(), 129);
    law_record(buf, pos);
}

/// The entries of a section stand one behind the other.
pub proof fn law_sections(buf: Seq<u8>, pos: int, count: nat)
    ensures
        wire::parsed_questions(buf, pos, 0) == Ok::<(Seq<QuestionView>, int), Seq<char>>(
            (seq![], pos),
        ),
        wire::parsed_records(buf, pos, 0) == Ok::<(Seq<RecordView>, int), Seq<char>>(
            (seq![], pos),
        ),
        wire::parsed_questions(buf, pos, count + 1) == (match wire::parsed_question(buf, pos) {
            Ok((q, p)) => match wire::parsed_questions(buf, p, count) {
                Ok((qs, end)) => Ok::<(Seq<QuestionView>, int), Seq<char>>((seq![q] + qs, end)),
                Err(e) => Err(e),
            },
            Err(e) => Err(e),
        }),
        wire::parsed_records(buf, pos, count + 1) == (match wire::parsed_record(buf, pos) {
            Ok((r, p)) => match wire::parsed_records(buf, p, count) {
                Ok((rs, end)) => Ok::<(Seq<RecordView>, int), Seq<char>>((seq![r] + rs, end)),
                Err(e) => Err(e),
            },
            Err(e) => Err(e),
        }),
{
}

/// A packet is twelve bytes, of which the first ten hold the identity, the flags and the
/// numbers of questions, answers and authorities, and then these, one section behind the
/// other. Additional records are not read. The first error that is met is the one told.
pub proof fn law_message(buf: Seq<u8>)
    ensures
        buf.len() < 12 ==> wire::parsed_message(buf) == Err::<MessageView, Seq<char>>(
            "packet too short"@,
        ),
        buf.len() >= 12 ==> match wire::parsed_questions(
            buf,
            12,
            (buf[4] * 256 + buf[5]) as nat,
        ) {
            Err(e) => wire::parsed_message(buf) == Err::<MessageView, Seq<char>>(e),
            Ok((qs, p)) => match wire::parsed_records(buf, p, (buf[6] * 256 + buf[7]) as nat) {
                Err(e) => wire::parsed_message(buf) == Err::<MessageView, Seq<char>>(e),
                Ok((answers, p2)) => match wire::parsed_records(
                    buf,
                    p2,
                    (buf[8] * 256 + buf[9]) as nat,
                ) {
                    Err(e) => wire::parsed_message(buf) == Err::<MessageView, Seq<char>>(e),
                    Ok((authorities, _)) => wire::parsed_message(buf) matches Ok(m) && m.id as int
                        == buf[0] * 256 + buf[1] && m.flags as int == buf[2] * 256 + buf[3]
                        && m.questions == qs && m.answers == answers && m.authorities
                        == authorities && m.additionals.len() == 0,
                },
            },
        },
{
    if buf.len() >= 12 {
        assert(wire::be16(buf, 4) as nat == (buf[4] * 256 + buf[5]) as nat);
        assert(wire::be16(buf, 6) as nat == (buf[6] * 256 + buf[7]) as nat);
        assert(wire::be16(buf, 8) as nat == (buf[8] * 256 + buf[9]) as nat);
    }
}

// ── Writing ─────────────────────────────────────────────────────────────────

/// A label is written behind the number of its bytes, of which the lowest eight bits are
/// kept, and a name ends in a zero byte. The empty name is that byte alone.
#[verifier::spinoff_prover]
#[verifier::rlimit(60)]
pub proof fn law_written_name(label: Seq<char>, rest: Seq<char>)
    requires
        !label.contains('.'),
    ensures
        wire::encoded_name(Seq::<char>::empty()) == seq![0u8],
        label.len() > 0 ==> wire::encoded_name(label) == seq![
            (encode_utf8(label).len() % 256) as u8,
        ] + encode_utf8(label) + seq![0u8],
        rest.len() > 0 ==> wire::encoded_name(label + seq!['.'] + rest) == seq![
            (encode_utf8(label).len() % 256) as u8,
        ] + encode_utf8(label) + wire::encoded_name(rest),
        wire::encoded_name(label + seq!['.']) == seq![(encode_utf8(label).len() % 256) as u8]
            + encode_utf8(label) + seq![0u8, 0u8],
{
    reveal_with_fuel(wire::encoded_labels, 3);
    let none = Seq::<char>::empty();
    text_laws::law_before_and_behind(label, '.', rest);
    text_laws::law_before_and_behind(label, '.', none);
    let head = seq![(encode_utf8(label).len() % 256) as u8] + encode_utf8(label);
    assert(text::pieces(label, '.') =~= seq![label]);
    assert(seq![label].drop_first() =~= Seq::<Seq<char>>::empty());
    assert(wire::encoded_labels(seq![label]) =~= head);
    let both = label + seq!['.'] + rest;
    assert(both.take(label.len() as int) =~= label);
    assert(both.skip(1 + label.len() as int) =~= rest);
    assert(text::pieces(both, '.').drop_first() =~= text::pieces(rest, '.'));
    assert(head + wire::encoded_labels(text::pieces(rest, '.')) + seq![0u8] =~= head + (
    wire::encoded_labels(text::pieces(rest, '.')) + seq![0u8]));
    let dotted = label + seq!['.'];
    assert(dotted =~= label + seq!['.'] + none);
    assert(dotted.take(label.len() as int) =~= label);
    assert(dotted.skip(1 + label.len() as int) =~= none);
    assert(text::pieces(none, '.') =~= seq![none]);
    assert(text::pieces(dotted, '.') =~= seq![label, none]);
    assert(seq![label, none].drop_first() =~= seq![none]);
    assert(seq![none].drop_first() =~= Seq::<Seq<char>>::empty());
    is_ascii_chars_encode_utf8(none);
    assert(wire::encoded_label(none) =~= seq![0u8]);
    assert(wire::encoded_labels(seq![none]) =~= seq![0u8]);
    assert(wire::encoded_labels(seq![label, none]) =~= head + seq![0u8]);
    assert(head + seq![0u8] + seq![0u8] =~= head + seq![0u8, 0u8]);
}

/// A question is written as its name, its type and its class.
pub proof fn law_written_question(q: QuestionView)
    ensures
        ({
            let n = wire::encoded_name(q.name);
            let k = n.len() as int;
            let e = wire::encoded_question(q);
            &&& e.len() == k + 4
            &&& e.take(k) == n
            &&& e[k] * 256 + e[k + 1] == q.qtype
            &&& e[k + 2] * 256 + e[k + 3] == q.qclass
        }),
{
    let n = wire::encoded_name(q.name);
    assert(wire::encoded_question(q).take(n.len() as int) =~= n);
}

/// A record is written as its name, its type, its class, its time to live, the length of
/// its data, of which the lowest sixteen bits are kept, and the data.
pub proof fn law_written_record(r: RecordView, data: Seq<u8>)
    requires
        data == (match r.rdata {
            DataView::A(ip) => ip,
            DataView::Aaaa(ip) => ip,
            DataView::Cname(name) => wire::encoded_name(name),
            DataView::Raw(bytes) => bytes,
        }),
    ensures
        ({
            let n = wire::encoded_name(r.name);
            let k = n.len() as int;
            let e = wire::encoded_record(r);
            &&& e.len() == k + 10 + data.len()
            &&& e.take(k) == n
            &&& e[k] * 256 + e[k + 1] == r.rtype
            &&& e[k + 2] * 256 + e[k + 3] == r.rclass
            &&& ((e[k + 4] * 256 + e[k + 5]) * 256 + e[k + 6]) * 256 + e[k + 7] == r.ttl
            &&& e[k + 8] * 256 + e[k + 9] == data.len() % 0x1_0000
            &&& e.skip(k + 10) == data
        }),
{
    let n = wire::encoded_name(r.name);
    let k = n.len() as int;
    let e = wire::encoded_record(r);
    assert(e.take(k) =~= n);
    assert(e.skip(k + 10) =~= data);
}

/// A message is written as a header of twelve bytes, with the identity, the flags and the
/// numbers of entries in the four sections, and then the questions, the answers and the
/// authorities. Additional records are counted and not written.
pub proof fn law_written_message(m: MessageView)
    ensures
        ({
            let e = wire::encoded_message(m);
            &&& e.len() >= 12
            &&& e[0] * 256 + e[1] == m.id
            &&& e[2] * 256 + e[3] == m.flags
            &&& e[4] * 256 + e[5] == m.questions.len() % 0x1_0000
            &&& e[6] * 256 + e[7] == m.answers.len() % 0x1_0000
            &&& e[8] * 256 + e[9] == m.authorities.len() % 0x1_0000
            &&& e[10] * 256 + e[11] == m.additionals.len() % 0x1_0000
            &&& e.skip(12) == wire::encoded_questions(m.questions) + wire::encoded_records(
                m.answers,
            ) + wire::encoded_records(m.authorities)
        }),
{
    let e = wire::encoded_message(m);
    assert(e.skip(12) =~= wire::encoded_questions(m.questions) + wire::encoded_records(m.answers)
        + wire::encoded_records(m.authorities));
}

/// The entries of a section are written one behind the other.
pub proof fn law_written_sections(
    q: QuestionView,
    qs: Seq<QuestionView>,
    r: RecordView,
    rs: Seq<RecordView>,
)
    ensures
        wire::encoded_questions(Seq::<QuestionView>::empty()).len() == 0,
        wire::encoded_records(Seq::<RecordView>::empty()).len() == 0,
        wire::encoded_questions(seq![q] + qs) == wire::encoded_question(q)
            + wire::encoded_questions(qs),
        wire::encoded_records(seq![r] + rs) == wire::encoded_record(r) + wire::encoded_records(rs),
{
    assert((seq![q] + qs).drop_first() =~= qs);
    assert((seq![r] + rs).drop_first() =~= rs);
}

// ── Responses ───────────────────────────────────────────────────────────────

/// A standard query has its highest bit and the four below it clear.
pub proof fn law_query_flags(flags: u16)
    ensures
        wire::query_flags(flags) <==> flags & 0x8000 == 0 && flags & 0x4000 == 0 && flags & 0x2000
            == 0 && flags & 0x1000 == 0 && flags & 0x0800 == 0,
{
    assert((flags < 0x0800) <==> (flags & 0x8000 == 0 && flags & 0x4000 == 0 && flags & 0x2000 == 0
        && flags & 0x1000 == 0 && flags & 0x0800 == 0)) by (bit_vector);
}

/// Of the flags of a response, QR and RA are set, RD is as in the query or the code, and
/// the other bits are those of the code.
pub proof fn law_response_bits(flags: u16, code: u16)
    ensures
        wire::response_flags(flags, code) & 0x8080 == 0x8080,
        wire::response_flags(flags, code) & 0x0100 == (flags | code) & 0x0100,
        wire::response_flags(flags, code) & 0x7E7F == code & 0x7E7F,
{
    assert((0x8000u16 | (flags & 0x0100) | 0x0080 | code) & 0x8080 == 0x8080) by (bit_vector);
    assert((0x8000u16 | (flags & 0x0100) | 0x0080 | code) & 0x0100 == (flags | code) & 0x0100)
        by (bit_vector);
    assert((0x8000u16 | (flags & 0x0100) | 0x0080 | code) & 0x7E7F == code & 0x7E7F)
        by (bit_vector);
}

/// A response has the identity and the questions of the query, and no other entries but
/// its answers.
pub proof fn law_response(query: MessageView, code: u16, answers: Seq<RecordView>)
    ensures
        ({
            let r = wire::response_to(query, code);
            &&& r.id == query.id
            &&& r.questions == query.questions
            &&& r.answers.len() == 0
            &&& r.authorities.len() == 0
            &&& r.additionals.len() == 0
            &&& r.flags & 0x8080 == 0x8080
            &&& r.flags & 0x0100 == (query.flags | code) & 0x0100
            &&& r.flags & 0x7E7F == code & 0x7E7F
        }),
        ({
            let r = wire::answer_to(query, answers);
            &&& r.id == query.id
            &&& r.questions == query.questions
            &&& r.answers == answers
            &&& r.authorities.len() == 0
            &&& r.additionals.len() == 0
            &&& r.flags & 0x8080 == 0x8080
            &&& r.flags & 0x0100 == query.flags & 0x0100
            &&& r.flags & 0x7E7F == 0
        }),
{
    law_response_bits(query.flags, code);
    law_response_bits(query.flags, 0);
    let flags = query.flags;
    assert((flags | 0u16) & 0x0100 == flags & 0x0100) by (bit_vector);
    assert(0u16 & 0x7E7F == 0) by (bit_vector);
}

/// The record that answers a query about an address with zeros: the name, and the type
/// where it is 1 or 28, are those of the first question; the class is 1. Nothing answers
/// other questions.
pub proof fn law_zero_answer(query: MessageView, ttl: u32)
    ensures
        ({
            let answers = wire::zero_answers(query.questions, ttl);
            &&& query.questions.len() == 0 ==> answers.len() == 0
            &&& query.questions.len() > 0 && query.questions[0].qtype != 1
                && query.questions[0].qtype != 28 ==> answers.len() == 0
            &&& query.questions.len() > 0 && (query.questions[0].qtype == 1
                || query.questions[0].qtype == 28) ==> {
                let r = answers[0];
                &&& answers.len() == 1
                &&& r.name == query.questions[0].name
                &&& r.rtype == query.questions[0].qtype
                &&& r.rclass == 1
                &&& r.ttl == ttl
                &&& r.rtype == 1 ==> (r.rdata matches DataView::A(ip) && ip.len() == 4 && forall|
                    i: int,
                |
                    0 <= i < 4 ==> #[trigger] ip[i] == 0)
                &&& r.rtype == 28 ==> (r.rdata matches DataView::Aaaa(ip) && ip.len() == 16
                    && forall|i: int| 0 <= i < 16 ==> #[trigger] ip[i] == 0)
            }
        }),
{
}

/// A packet that answers with zeros, once it is read.
#[verifier::spinoff_prover]
#[verifier::rlimit(60)]
pub proof fn law_zero_packet(query: MessageView, ttl: u32)
    requires
        dns_laws::encodable_questions(query.questions),
    ensures
        ({
            let sent = wire::encoded_message(
                wire::answer_to(query, wire::zero_answers(query.questions, ttl)),
            );
            wire::parsed_message(sent) matches Ok(m) && m.id == query.id && m.questions
                == query.questions && m.flags & 0x7E7F == 0 && m.authorities.len() == 0 && (
            query.questions.len() > 0 && query.questions[0].qtype == 1 ==> m.answers.len() == 1
                && m.answers[0].name == query.questions[0].name && m.answers[0].rtype == 1
                && m.answers[0].rclass == 1 && m.answers[0].ttl == ttl && m.answers[0].rdata
                == DataView::A(seq![0u8, 0u8, 0u8, 0u8]))
        }),
{
    let answers = wire::zero_answers(query.questions, ttl);
    dns_laws::law_zero_ip_round_trip(query, ttl);
    law_response(query, 0, answers);
    law_zero_answer(query, ttl);
    if query.questions.len() > 0 && query.questions[0].qtype == 1 {
        if let DataView::A(ip) = answers[0].rdata {
            assert(ip =~= seq![0u8, 0u8, 0u8, 0u8]);
        }
    }
}

/// The record of a rewrite is about the name of the question, in class 1: of type 1 with
/// an IPv4 address, else of type 28 with an IPv6 address, else of type 5 with a name.
pub proof fn law_rewrite_record(
    q: QuestionView,
    target: Seq<char>,
    ip4: Option<Seq<u8>>,
    ip6: Option<Seq<u8>>,
    ttl: u32,
)
    ensures
        ({
            let r = wire::rewrite_record(q, target, ip4, ip6, ttl);
            &&& r.name == q.name
            &&& r.rclass == 1
            &&& r.ttl == ttl
            &&& ip4 matches Some(ip) ==> r.rtype == 1 && r.rdata == DataView::A(ip)
            &&& ip4 is None ==> (ip6 matches Some(ip) ==> r.rtype == 28 && r.rdata
                == DataView::Aaaa(ip))
            &&& ip4 is None && ip6 is None ==> r.rtype == 5 && r.rdata == DataView::Cname(target)
        }),
{
}

/// A rewrite, once its packet is read: one answer, about the name of the first question,
/// in class 1, with the type and the data that the target asks for.
#[verifier::spinoff_prover]
#[verifier::rlimit(60)]
pub proof fn law_rewrite_packet(
    query: MessageView,
    target: Seq<char>,
    ip4: Option<Seq<u8>>,
    ip6: Option<Seq<u8>>,
    ttl: u32,
)
    requires
        dns_laws::encodable_questions(query.questions),
        query.questions.len() > 0,
        ip4 matches Some(ip) ==> ip.len() == 4,
        ip6 matches Some(ip) ==> ip.len() == 16,
        ip4 is None && ip6 is None ==> dns_laws::encodable_name(target),
    ensures
        ({
            let answer = wire::rewrite_record(query.questions[0], target, ip4, ip6, ttl);
            let sent = wire::encoded_message(wire::answer_to(query, seq![answer]));
            wire::parsed_message(sent) matches Ok(m) && m.id == query.id && m.questions
                == query.questions && m.flags & 0x7E7F == 0 && m.answers.len() == 1
                && m.authorities.len() == 0 && m.answers[0].name == query.questions[0].name
                && m.answers[0].rclass == 1 && m.answers[0].ttl == ttl && (ip4 matches Some(ip)
                ==> m.answers[0].rtype == 1 && m.answers[0].rdata == DataView::A(ip)) && (ip4
                is None ==> (ip6 matches Some(ip) ==> m.answers[0].rtype == 28
                && m.answers[0].rdata == DataView::Aaaa(ip))) && (ip4 is None && ip6 is None
                ==> m.answers[0].rtype == 5 && m.answers[0].rdata == DataView::Cname(target))
        }),
{
    let answer = wire::rewrite_record(query.questions[0], target, ip4, ip6, ttl);
    dns_laws::law_rewrite_round_trip(query, target, ip4, ip6, ttl);
    law_response(query, 0, seq![answer]);
    law_rewrite_record(query.questions[0], target, ip4, ip6, ttl);
}

/// Writing an identity changes the first two bytes and no others; a packet without two
/// bytes stays as it is.
pub proof fn law_id_written(buf: Seq<u8>, id: u16)
    ensures
        wire::with_id(buf, id).len() == buf.len(),
        buf.len() >= 2 ==> wire::with_id(buf, id)[0] * 256 + wire::with_id(buf, id)[1] == id,
        buf.len() < 2 ==> wire::with_id(buf, id) == buf,
        forall|i: int| 2 <= i < buf.len() ==> #[trigger] wire::with_id(buf, id)[i] == buf[i],
{
}

/// The smallest time to live is one of those in the records, and none is smaller.
pub proof fn law_least_ttl(rs: Seq<RecordView>, ttl: u32, i: int)
    requires
        wire::least_ttl(rs, ttl),
        0 <= i < rs.len(),
    ensures
        ttl <= rs[i].ttl,
        exists|k: int| 0 <= k < rs.len() && (#[trigger] rs[k]).ttl == ttl,
{
}

} // verus!
