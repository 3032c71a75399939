//! Answering one DNS query in place.
//!
//! A request is a header, one question (a name, a record type and a class)
//! and whatever else the buffer holds. Only a question for a TXT record of
//! class IN is answered. The response keeps the question where it stands and
//! puts one answer behind it: the name again, the record's fixed fields, and
//! the proof as a character-string.

use vstd::prelude::*;
use vstd::array::array_as_slice;
use vstd::slice::slice_subrange;
use vstd::utf8::encode_utf8;
use crate::error::Error;
use crate::name::{
    character_string, extract_labels, labels_ok, labels_wire, name_faults_are_malformed,
    name_round_trip, name_wire, overwrite, overwrite_behind, overwrite_through, parse_name,
    parse_name_reads_its_wire, put_bytes, put_character_string, put_labels,
    truncated_name_is_malformed, wire_labels,
};
use crate::wire::{
    be16_of_bytes, bytes_of_be16, header_round_trip, hi8, lo8, question_info_round_trip, Header,
    QuestionInfo, ResourceInfo,
};

verus! {

/// Largest DNS message carried over UDP.
pub const MESSAGE_MAX_BYTES: usize = 512;

/// Record type of a TXT record.
pub const QUESTION_TYPE_TXT: u16 = 16;

/// Class of the Internet.
pub const QUESTION_CLASS_IN: u16 = 1;

/// Longest proof that fits a character-string.
pub const PROOF_MAX_BYTES: usize = 255;

/// The header of the response to a request with header `request`: its `id`
/// and `rd` are kept, one question and one authoritative answer are
/// announced, and nothing else is set.
pub open spec fn reply_header(request: Header) -> Header {
    Header {
        id: request.id,
        qr: true,
        opcode: 0,
        aa: true,
        tc: false,
        rd: request.rd,
        ra: false,
        z: 0,
        rcode: 0,
        qdcount: 1,
        ancount: 1,
        nscount: 0,
        arcount: 0,
    }
}

/// The fixed fields of the answer to `question` that carries a proof of
/// `proof_len` bytes: type and class as asked, not to be cached, and record
/// data of one length byte and the proof.
pub open spec fn answer_info(question: QuestionInfo, proof_len: nat) -> ResourceInfo {
    ResourceInfo {
        kind: question.kind,
        class: question.class,
        ttl: 0,
        rdlength: ((1 + proof_len) % 65536) as u16,
    }
}

/// True of the one question that is answered.
pub open spec fn is_txt_in(question: QuestionInfo) -> bool {
    question.kind == QUESTION_TYPE_TXT && question.class == QUESTION_CLASS_IN
}

/// What a buffer that holds `request` is answered with, given the proof's
/// bytes: the response, or why there is none.
///
/// The faults are looked for in this order: a buffer too short for a
/// header, a fault in the question's name, a buffer that ends before the
/// question's type and class, a question that is not TXT of class IN, and a
/// buffer without room for the response.
pub open spec fn response(request: Seq<u8>, proof: Seq<u8>) -> Result<Seq<u8>, Error> {
    if request.len() < 12 {
        Err(Error::PackingError)
    } else {
        match parse_name(request, 12) {
            Err(e) => Err(e),
            Ok((labels, end)) => {
                if end + 4 > request.len() {
                    Err(Error::PackingError)
                } else {
                    let question = QuestionInfo::parse(request.subrange(end, end + 4));
                    let out = reply_header(Header::parse(request)).wire() + request.subrange(
                        12,
                        end + 4,
                    ) + name_wire(labels) + answer_info(question, proof.len()).wire()
                        + character_string(proof);
                    if !is_txt_in(question) {
                        Err(Error::RequestError)
                    } else if out.len() > request.len() {
                        Err(Error::PackingError)
                    } else {
                        Ok(out)
                    }
                }
            },
        }
    }
}

/// Turns the request in `buf` into its response, in place, and returns the
/// part of `buf` that is to be sent. On any fault `buf` is left as it was.
pub fn process<'a>(buf: &'a mut [u8], proof: &str) -> (r: Result<&'a [u8], Error>)
    requires
        proof.len() <= PROOF_MAX_BYTES,
    ensures
        match response(old(buf)@, encode_utf8(proof@)) {
            Ok(out) => r matches Ok(sent) && sent@ == out && final(buf)@ == overwrite(
                old(buf)@,
                0,
                out,
            ),
            Err(e) => r matches Err(fault) && fault == e && final(buf)@ == old(buf)@,
        },
{
    let room: usize = buf.len();
    let proof_len: usize = proof.as_bytes().len();
    let request: &[u8] = buf;
    let ghost given = request@;
    let ghost proof_bytes = encode_utf8(proof@);
    let req_header = match Header::decode(request) {
        Ok(h) => h,
        Err(e) => {
            return Err(e);
        },
    };
    let (labels, end) = match extract_labels(request, Header::packed_bytes()) {
        Ok(found) => found,
        Err(e) => {
            return Err(e);
        },
    };
    let ghost name = name_wire(wire_labels(labels@));
    proof {
        parse_name_reads_its_wire(given, 12);
        assert(name == given.subrange(12, end as int));
    }
    if room - end < QuestionInfo::packed_bytes() {
        return Err(Error::PackingError);
    }
    let question = match QuestionInfo::decode(slice_subrange(request, end, end + 4)) {
        Ok(q) => q,
        Err(e) => {
            return Err(e);
        },
    };
    if question.kind != QUESTION_TYPE_TXT || question.class != QUESTION_CLASS_IN {
        return Err(Error::RequestError);
    }
    let name_len: usize = end - 12;
    let answer_at: usize = end + 4;
    let res_header = Header {
        id: req_header.id,
        qr: true,
        opcode: 0,
        aa: true,
        tc: false,
        rd: req_header.rd,
        ra: false,
        z: 0,
        rcode: 0,
        qdcount: 1,
        ancount: 1,
        nscount: 0,
        arcount: 0,
    };
    let answer = ResourceInfo {
        kind: question.kind,
        class: question.class,
        ttl: 0,
        rdlength: 1 + proof_len as u16,
    };
    let ghost head = res_header.wire();
    let ghost kept = given.subrange(12, answer_at as int);
    let ghost info = answer.wire();
    let ghost text = character_string(proof_bytes);
    let ghost out = head + kept + name + info + text;
    proof {
        assert(res_header == reply_header(Header::parse(given)));
        assert(answer == answer_info(question, proof_bytes.len()));
        assert(head.len() == 12);
        assert(info.len() == 10);
        assert(out.len() == answer_at + name_len + 11 + proof_len);
    }
    if room - answer_at < name_len || room - answer_at - name_len < 11 + proof_len {
        return Err(Error::PackingError);
    }
    let header_bytes: [u8; 12] = res_header.encode();
    let answer_bytes: [u8; 10] = answer.encode();
    put_bytes(buf, 0, array_as_slice(&header_bytes));
    proof {
        overwrite_through(given, head, answer_at as int);
        assert(buf@ == overwrite(given, 0, head + kept));
    }
    let info_at: usize = put_labels(buf, answer_at, &labels);
    proof {
        overwrite_behind(given, head + kept, name);
        assert(buf@ == overwrite(given, 0, head + kept + name));
    }
    put_bytes(buf, info_at, array_as_slice(&answer_bytes));
    proof {
        overwrite_behind(given, head + kept + name, info);
        assert(buf@ == overwrite(given, 0, head + kept + name + info));
    }
    let sent_len: usize = put_character_string(buf, info_at + 10, proof);
    proof {
        overwrite_behind(given, head + kept + name + info, text);
        assert(buf@ == overwrite(given, 0, out));
    }
    let whole: &'a [u8] = buf;
    let sent: &'a [u8] = slice_subrange(whole, 0, sent_len);
    assert(sent@ =~= out);
    Ok(sent)
}

/// A request made of a header, a name and a question's fields, in a
/// buffer with whatever else behind them: the shape of every request that
/// is read without fault.
pub open spec fn request_wire(
    header: Header,
    labels: Seq<Seq<u8>>,
    question: QuestionInfo,
    rest: Seq<u8>,
) -> Seq<u8> {
    header.wire() + name_wire(labels) + question.wire() + rest
}

/// What such a request is read as: its name ends where the question's
/// fields start, and the header's `id` and `rd` come back as they were set.
proof fn request_wire_is_read(
    header: Header,
    labels: Seq<Seq<u8>>,
    question: QuestionInfo,
    rest: Seq<u8>,
)
    requires
        labels_ok(labels),
    ensures
        ({
            let request = request_wire(header, labels, question, rest);
            let end: int = 12 + name_wire(labels).len() as int;
            &&& request.len() == end + 4 + rest.len()
            &&& parse_name(request, 12) == Ok::<(Seq<Seq<u8>>, int), Error>((labels, end))
            &&& QuestionInfo::parse(request.subrange(end, end + 4)) == question
            &&& request.subrange(12, end + 4) == name_wire(labels) + question.wire()
            &&& reply_header(Header::parse(request)) == reply_header(header)
        }),
{
    let request = request_wire(header, labels, question, rest);
    let name = name_wire(labels);
    let end: int = 12 + name.len() as int;
    assert(header.wire().len() == 12);
    assert(question.wire().len() == 4);
    assert(request.subrange(12, end) =~= name);
    name_round_trip(request, 12, labels);
    assert(request.subrange(end, end + 4) =~= question.wire());
    question_info_round_trip(question);
    assert(request.subrange(12, end + 4) =~= name + question.wire());
    assert(request[0] == header.wire()[0]);
    assert(request[1] == header.wire()[1]);
    assert(request[2] == header.wire()[2]);
    be16_of_bytes(hi8(header.id), lo8(header.id));
    bytes_of_be16(header.id);
    assert(Header::parse(request).id == header.id);
    assert(Header::parse(request).rd == header.rd);
}

/// Every question for a TXT record of class IN, whose name is made of
/// labels of 1 to 255 bytes of UTF-8, is answered, given a proof of at most
/// 255 bytes and a buffer with room for the answer. The response is the
/// reply header, the question as it was asked, and one answer: the name
/// again, the fields of a TXT record, and the proof behind its length byte.
/// Its header announces a response, authoritative, with one question, one
/// answer and nothing more, under the request's `id`; its last bytes are
/// the proof.
pub proof fn txt_query_is_answered(
    header: Header,
    labels: Seq<Seq<u8>>,
    rest: Seq<u8>,
    proof: Seq<u8>,
)
    requires
        labels_ok(labels),
        proof.len() <= PROOF_MAX_BYTES,
        rest.len() >= name_wire(labels).len() + 11 + proof.len(),
    ensures
        ({
            let question = QuestionInfo { kind: QUESTION_TYPE_TXT, class: QUESTION_CLASS_IN };
            let request = request_wire(header, labels, question, rest);
            let out = reply_header(header).wire() + name_wire(labels) + question.wire()
                + name_wire(labels) + answer_info(question, proof.len()).wire()
                + character_string(proof);
            &&& response(request, proof) == Ok::<Seq<u8>, Error>(out)
            &&& Header::parse(out) == reply_header(header)
            &&& out[out.len() - proof.len() - 1] == proof.len()
            &&& out.subrange(out.len() - proof.len(), out.len() as int) == proof
        }),
{
    let question = QuestionInfo { kind: QUESTION_TYPE_TXT, class: QUESTION_CLASS_IN };
    let request = request_wire(header, labels, question, rest);
    let reply = reply_header(header);
    let info = answer_info(question, proof.len());
    let out = reply.wire() + name_wire(labels) + question.wire() + name_wire(labels) + info.wire()
        + character_string(proof);
    request_wire_is_read(header, labels, question, rest);
    let end: int = 12 + name_wire(labels).len() as int;
    assert(reply.wire().len() == 12);
    assert(info.wire().len() == 10);
    assert(question.wire().len() == 4);
    assert(out =~= reply.wire() + request.subrange(12, end + 4) + name_wire(labels) + info.wire()
        + character_string(proof));
    assert(response(request, proof) == Ok::<Seq<u8>, Error>(out));
    header_round_trip(reply);
    assert(Header::parse(out) == Header::parse(reply.wire())) by {
        assert(out.subrange(0, 12) =~= reply.wire());
        assert forall|i: int| 0 <= i < 12 implies out[i] == reply.wire()[i] by {
            assert(out[i] == out.subrange(0, 12)[i]);
        }
    }
    assert(out.subrange(out.len() - proof.len(), out.len() as int) =~= proof);
}

/// A question that reads well but asks for anything other than a TXT
/// record of class IN is refused with `RequestError`, whatever the buffer
/// has room for.
pub proof fn other_question_is_refused(
    header: Header,
    labels: Seq<Seq<u8>>,
    question: QuestionInfo,
    rest: Seq<u8>,
    proof: Seq<u8>,
)
    requires
        labels_ok(labels),
        !is_txt_in(question),
    ensures
        response(request_wire(header, labels, question, rest), proof) == Err::<Seq<u8>, Error>(
            Error::RequestError,
        ),
{
    request_wire_is_read(header, labels, question, rest);
}

/// A buffer too short for a header is refused as malformed.
pub proof fn short_buffer_is_malformed(request: Seq<u8>, proof: Seq<u8>)
    requires
        request.len() < 12,
    ensures
        response(request, proof) == Err::<Seq<u8>, Error>(Error::PackingError),
{
}

/// A request is refused as malformed where, behind a header and labels
/// that read well, a length byte claims more bytes than the buffer has
/// left.
pub proof fn overlong_label_is_malformed(
    header: Header,
    labels: Seq<Seq<u8>>,
    claimed: u8,
    tail: Seq<u8>,
    proof: Seq<u8>,
)
    requires
        labels_ok(labels),
        claimed > tail.len(),
    ensures
        response(header.wire() + labels_wire(labels) + seq![claimed] + tail, proof) == Err::<
            Seq<u8>,
            Error,
        >(Error::PackingError),
{
    let request = header.wire() + labels_wire(labels) + seq![claimed] + tail;
    let stop: int = 12 + labels_wire(labels).len() as int;
    assert(header.wire().len() == 12);
    assert(request.subrange(12, stop) =~= labels_wire(labels));
    assert(request[stop] == claimed);
    truncated_name_is_malformed(request, 12, labels);
}

/// A request is refused either as malformed or, where it reads well, for
/// what it asks; no other fault comes of it.
pub proof fn faults_are_malformed_or_unsupported(request: Seq<u8>, proof: Seq<u8>)
    ensures
        response(request, proof) matches Err(e) ==> e.is_malformed() || e == Error::RequestError,
{
    name_faults_are_malformed(request, 12);
}

} // verus!
