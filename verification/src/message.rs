use vstd::prelude::*;

use crate::bytes::Bytes;
use crate::codec::occs_wf;
use crate::error::DnsError;
use crate::header::{spec_decode_header, spec_encode_header, Header};
use crate::question::{spec_decode_question, spec_encode_question, Question, QuestionV};
use crate::record::{spec_decode_record, spec_encode_record, wf_record, Record, RecordV};

verus! {

/// The view of a question section.
pub open spec fn questions_view(s: Seq<Question>) -> Seq<QuestionV> {
    Seq::new(s.len(), |i: int| s[i]@)
}

/// The view of a record section.
pub open spec fn records_view(s: Seq<Record>) -> Seq<RecordV> {
    Seq::new(s.len(), |i: int| s[i]@)
}

/// A DNS message: a header, a question section and three record
/// sections.
#[derive(Debug)]
pub struct Message {
    pub header: Header,
    pub questions: Vec<Question>,
    pub answer_records: Vec<Record>,
    pub authority_records: Vec<Record>,
    pub additional_records: Vec<Record>,
}

/// The view of a message.
pub struct MessageV {
    pub header: Header,
    pub questions: Seq<QuestionV>,
    pub answer_records: Seq<RecordV>,
    pub authority_records: Seq<RecordV>,
    pub additional_records: Seq<RecordV>,
}

impl View for Message {
    type V = MessageV;

    open spec fn view(&self) -> MessageV {
        MessageV {
            header: self.header,
            questions: questions_view(self.questions@),
            answer_records: records_view(self.answer_records@),
            authority_records: records_view(self.authority_records@),
            additional_records: records_view(self.additional_records@),
        }
    }
}

/// A well-formed message: every question and record in it is well-formed.
pub open spec fn wf_message(m: MessageV) -> bool {
    &&& forall|i: int|
        0 <= i < m.questions.len() ==> crate::name::wf_name((#[trigger] m.questions[i]).name)
    &&& forall|i: int| 0 <= i < m.answer_records.len() ==> wf_record(#[trigger] m.answer_records[i])
    &&& forall|i: int|
        0 <= i < m.authority_records.len() ==> wf_record(#[trigger] m.authority_records[i])
    &&& forall|i: int|
        0 <= i < m.additional_records.len() ==> wf_record(#[trigger] m.additional_records[i])
}

// ---------------------------------------------------------------------------
// Section codecs
// ---------------------------------------------------------------------------

/// The bytes the questions from index `i` on encode to, threading the
/// first-occurrence table.
pub open spec fn spec_encode_questions(
    qs: Seq<QuestionV>,
    i: int,
    occs: Seq<(Seq<Seq<u8>>, int)>,
    pos: int,
) -> (Seq<u8>, Seq<(Seq<Seq<u8>>, int)>)
    decreases qs.len() - i,
{
    if i < 0 || i >= qs.len() {
        (Seq::<u8>::empty(), occs)
    } else {
        let e = spec_encode_question(qs[i], occs, pos);
        let rest = spec_encode_questions(qs, i + 1, e.1, pos + e.0.len());
        (e.0 + rest.0, rest.1)
    }
}

/// The bytes the records from index `i` on encode to, threading the
/// first-occurrence table.
pub open spec fn spec_encode_records(
    rs: Seq<RecordV>,
    i: int,
    occs: Seq<(Seq<Seq<u8>>, int)>,
    pos: int,
) -> (Seq<u8>, Seq<(Seq<Seq<u8>>, int)>)
    decreases rs.len() - i,
{
    if i < 0 || i >= rs.len() {
        (Seq::<u8>::empty(), occs)
    } else {
        let e = spec_encode_record(rs[i], occs, pos);
        let rest = spec_encode_records(rs, i + 1, e.1, pos + e.0.len());
        (e.0 + rest.0, rest.1)
    }
}

/// The bytes a message encodes to at position `pos`: the header, the
/// questions, then the answer, authority and additional records, all
/// sharing one first-occurrence table.
pub open spec fn spec_encode_message(
    m: MessageV,
    occs: Seq<(Seq<Seq<u8>>, int)>,
    pos: int,
) -> Seq<u8> {
    let h = spec_encode_header(m.header);
    let q = spec_encode_questions(m.questions, 0, occs, pos + 12);
    let an = spec_encode_records(m.answer_records, 0, q.1, pos + 12 + q.0.len());
    let ns = spec_encode_records(m.authority_records, 0, an.1, pos + 12 + q.0.len() + an.0.len());
    let ar = spec_encode_records(
        m.additional_records,
        0,
        ns.1,
        pos + 12 + q.0.len() + an.0.len() + ns.0.len(),
    );
    h + q.0 + an.0 + ns.0 + ar.0
}

/// `n` questions decoded from `pos`, and the position after them.
pub open spec fn spec_decode_questions(buf: Seq<u8>, pos: int, n: int) -> Option<
    (Seq<QuestionV>, int),
>
    decreases
            (if n <= 0 {
                0int
            } else {
                n
            }),
{
    if n <= 0 {
        Some((Seq::<QuestionV>::empty(), pos))
    } else {
        match spec_decode_question(buf, pos) {
            Some((q, e)) => match spec_decode_questions(buf, e, n - 1) {
                Some((qs, e2)) => Some((seq![q] + qs, e2)),
                None => None,
            },
            None => None,
        }
    }
}

/// `n` records decoded from `pos`, and the position after them.
pub open spec fn spec_decode_records(buf: Seq<u8>, pos: int, n: int) -> Option<
    (Seq<RecordV>, int),
>
    decreases
            (if n <= 0 {
                0int
            } else {
                n
            }),
{
    if n <= 0 {
        Some((Seq::<RecordV>::empty(), pos))
    } else {
        match spec_decode_record(buf, pos) {
            Some((r, e)) => match spec_decode_records(buf, e, n - 1) {
                Some((rs, e2)) => Some((seq![r] + rs, e2)),
                None => None,
            },
            None => None,
        }
    }
}

/// The message decoded at `pos`: a header whose counts drive the decoding
/// of the question section and the three record sections.
pub open spec fn spec_decode_message(buf: Seq<u8>, pos: int) -> Option<(MessageV, int)> {
    match spec_decode_header(buf, pos) {
        None => None,
        Some((h, p0)) => match spec_decode_questions(buf, p0, h.question_count as int) {
            None => None,
            Some((qs, p1)) => match spec_decode_records(buf, p1, h.answer_count as int) {
                None => None,
                Some((an, p2)) => match spec_decode_records(buf, p2, h.authority_count as int) {
                    None => None,
                    Some((ns, p3)) => match spec_decode_records(
                        buf,
                        p3,
                        h.additional_count as int,
                    ) {
                        None => None,
                        Some((ar, p4)) => Some(
                            (
                                MessageV {
                                    header: h,
                                    questions: qs,
                                    answer_records: an,
                                    authority_records: ns,
                                    additional_records: ar,
                                },
                                p4,
                            ),
                        ),
                    },
                },
            },
        },
    }
}

/// Reads `n` questions from the cursor.
fn read_questions(bytes: &mut Bytes, n: u16) -> (r: Result<Vec<Question>, DnsError>)
    requires
        old(bytes).wf(),
    ensures
        final(bytes).buf@ == old(bytes).buf@,
        final(bytes).occs() == old(bytes).occs(),
        final(bytes).wf(),
        match r {
            Ok(v) => spec_decode_questions(old(bytes).buf@, old(bytes).pos as int, n as int)
                == Some((questions_view(v@), final(bytes).pos as int)) && forall|i: int|
                0 <= i < v@.len() ==> (#[trigger] v@[i]).wf(),
            Err(_) => spec_decode_questions(old(bytes).buf@, old(bytes).pos as int, n as int)
                is None,
        },
{
    let ghost buf0 = bytes.buf@;
    let ghost start = bytes.pos as int;
    let mut out: Vec<Question> = Vec::new();
    proof {
        assert(Seq::<QuestionV>::empty() + spec_decode_questions(
            buf0,
            start,
            n as int,
        )->Some_0.0 =~= spec_decode_questions(buf0, start, n as int)->Some_0.0);
    }
    for i in 0..n
        invariant
            bytes.wf(),
            buf0 == old(bytes).buf@,
            start == old(bytes).pos as int,
            bytes.buf@ == buf0,
            bytes.occs() == old(bytes).occs(),
            out@.len() == i,
            forall|j: int| 0 <= j < out@.len() ==> (#[trigger] out@[j]).wf(),
            ({
                let whole = spec_decode_questions(buf0, start, n as int);
                let rest = spec_decode_questions(buf0, bytes.pos as int, n as int - i as int);
                match rest {
                    None => whole is None,
                    Some(d) => whole matches Some(w) && w.0 == questions_view(out@) + d.0 && w.1
                        == d.1,
                }
            }),
    {
        let q = match Question::from_bytes(bytes) {
            Ok(q) => q,
            Err(e) => {
                return Err(e);
            },
        };
        out.push(q);
        proof {
            assert(questions_view(out@) =~= questions_view(out@.drop_last()) + seq![
                out@.last()@,
            ]);
        }
    }
    proof {
        assert(spec_decode_questions(buf0, bytes.pos as int, 0) == Some((
            Seq::<QuestionV>::empty(),
            bytes.pos as int,
        )));
        assert(questions_view(out@) + Seq::<QuestionV>::empty() =~= questions_view(out@));
    }
    Ok(out)
}

/// Reads `n` records from the cursor.
fn read_records(bytes: &mut Bytes, n: u16) -> (r: Result<Vec<Record>, DnsError>)
    requires
        old(bytes).wf(),
    ensures
        final(bytes).buf@ == old(bytes).buf@,
        final(bytes).occs() == old(bytes).occs(),
        final(bytes).wf(),
        match r {
            Ok(v) => spec_decode_records(old(bytes).buf@, old(bytes).pos as int, n as int)
                == Some((records_view(v@), final(bytes).pos as int)) && forall|i: int|
                0 <= i < v@.len() ==> wf_record((#[trigger] v@[i])@),
            Err(_) => spec_decode_records(old(bytes).buf@, old(bytes).pos as int, n as int)
                is None,
        },
{
    let ghost buf0 = bytes.buf@;
    let ghost start = bytes.pos as int;
    let mut out: Vec<Record> = Vec::new();
    proof {
        assert(Seq::<RecordV>::empty() + spec_decode_records(buf0, start, n as int)->Some_0.0
            =~= spec_decode_records(buf0, start, n as int)->Some_0.0);
    }
    for i in 0..n
        invariant
            bytes.wf(),
            buf0 == old(bytes).buf@,
            start == old(bytes).pos as int,
            bytes.buf@ == buf0,
            bytes.occs() == old(bytes).occs(),
            out@.len() == i,
            forall|j: int| 0 <= j < out@.len() ==> wf_record((#[trigger] out@[j])@),
            ({
                let whole = spec_decode_records(buf0, start, n as int);
                let rest = spec_decode_records(buf0, bytes.pos as int, n as int - i as int);
                match rest {
                    None => whole is None,
                    Some(d) => whole matches Some(w) && w.0 == records_view(out@) + d.0 && w.1
                        == d.1,
                }
            }),
    {
        let rec = match Record::from_bytes(bytes) {
            Ok(rec) => rec,
            Err(e) => {
                return Err(e);
            },
        };
        out.push(rec);
        proof {
            assert(records_view(out@) =~= records_view(out@.drop_last()) + seq![out@.last()@]);
        }
    }
    proof {
        assert(spec_decode_records(buf0, bytes.pos as int, 0) == Some((
            Seq::<RecordV>::empty(),
            bytes.pos as int,
        )));
        assert(records_view(out@) + Seq::<RecordV>::empty() =~= records_view(out@));
    }
    Ok(out)
}

/// Writes every question of a section at the cursor.
fn write_questions(bytes: &mut Bytes, qs: &Vec<Question>)
    requires
        old(bytes).at_end(),
        occs_wf(old(bytes).occs()),
        forall|i: int| 0 <= i < qs@.len() ==> (#[trigger] qs@[i]).wf(),
    ensures
        final(bytes).at_end(),
        occs_wf(final(bytes).occs()),
        ({
            let e = spec_encode_questions(
                questions_view(qs@),
                0,
                old(bytes).occs(),
                old(bytes).pos as int,
            );
            &&& final(bytes).buf@ == old(bytes).buf@ + e.0
            &&& final(bytes).occs() == e.1
        }),
{
    let ghost qv = questions_view(qs@);
    let ghost occs0 = bytes.occs();
    let ghost buf0 = bytes.buf@;
    let ghost pos0 = bytes.pos as int;
    let n = qs.len();
    for i in 0..n
        invariant
            n == qs@.len(),
            qv == questions_view(qs@),
            buf0 == old(bytes).buf@,
            occs0 == old(bytes).occs(),
            pos0 == old(bytes).pos as int,
            forall|j: int| 0 <= j < qs@.len() ==> (#[trigger] qs@[j]).wf(),
            bytes.at_end(),
            occs_wf(bytes.occs()),
            buf0.len() <= bytes.buf@.len(),
            bytes.buf@.take(buf0.len() as int) == buf0,
            ({
                let e = spec_encode_questions(qv, i as int, bytes.occs(), bytes.pos as int);
                &&& spec_encode_questions(qv, 0, occs0, pos0).0 == bytes.buf@.skip(
                    buf0.len() as int,
                ) + e.0
                &&& spec_encode_questions(qv, 0, occs0, pos0).1 == e.1
            }),
    {
        let ghost pre_buf = bytes.buf@;
        let ghost pre_occs = bytes.occs();
        let ghost pre_pos = bytes.pos as int;
        qs[i].to_bytes(bytes);
        proof {
            let e = spec_encode_question(qv[i as int], pre_occs, pre_pos);
            assert(bytes.buf@.take(buf0.len() as int) =~= buf0);
            assert(bytes.buf@.skip(buf0.len() as int) =~= pre_buf.skip(buf0.len() as int) + e.0);
            assert(bytes.buf@.skip(buf0.len() as int) + spec_encode_questions(
                qv,
                i + 1,
                bytes.occs(),
                bytes.pos as int,
            ).0 =~= pre_buf.skip(buf0.len() as int) + (e.0 + spec_encode_questions(
                qv,
                i + 1,
                bytes.occs(),
                bytes.pos as int,
            ).0));
        }
    }
    proof {
        assert(spec_encode_questions(qv, n as int, bytes.occs(), bytes.pos as int).0
            =~= Seq::<u8>::empty());
        assert(bytes.buf@.skip(buf0.len() as int) + Seq::<u8>::empty() =~= bytes.buf@.skip(
            buf0.len() as int,
        ));
        assert(bytes.buf@ =~= buf0 + bytes.buf@.skip(buf0.len() as int));
    }
}

/// Writes every record of a section at the cursor.
fn write_records(bytes: &mut Bytes, rs: &Vec<Record>)
    requires
        old(bytes).at_end(),
        occs_wf(old(bytes).occs()),
        forall|i: int| 0 <= i < rs@.len() ==> wf_record((#[trigger] rs@[i])@),
    ensures
        final(bytes).at_end(),
        occs_wf(final(bytes).occs()),
        ({
            let e = spec_encode_records(
                records_view(rs@),
                0,
                old(bytes).occs(),
                old(bytes).pos as int,
            );
            &&& final(bytes).buf@ == old(bytes).buf@ + e.0
            &&& final(bytes).occs() == e.1
        }),
{
    let ghost rv = records_view(rs@);
    let ghost occs0 = bytes.occs();
    let ghost buf0 = bytes.buf@;
    let ghost pos0 = bytes.pos as int;
    let n = rs.len();
    for i in 0..n
        invariant
            n == rs@.len(),
            rv == records_view(rs@),
            buf0 == old(bytes).buf@,
            occs0 == old(bytes).occs(),
            pos0 == old(bytes).pos as int,
            forall|j: int| 0 <= j < rs@.len() ==> wf_record((#[trigger] rs@[j])@),
            bytes.at_end(),
            occs_wf(bytes.occs()),
            buf0.len() <= bytes.buf@.len(),
            bytes.buf@.take(buf0.len() as int) == buf0,
            ({
                let e = spec_encode_records(rv, i as int, bytes.occs(), bytes.pos as int);
                &&& spec_encode_records(rv, 0, occs0, pos0).0 == bytes.buf@.skip(
                    buf0.len() as int,
                ) + e.0
                &&& spec_encode_records(rv, 0, occs0, pos0).1 == e.1
            }),
    {
        let ghost pre_buf = bytes.buf@;
        let ghost pre_occs = bytes.occs();
        let ghost pre_pos = bytes.pos as int;
        rs[i].to_bytes(bytes);
        proof {
            let e = spec_encode_record(rv[i as int], pre_occs, pre_pos);
            assert(bytes.buf@.take(buf0.len() as int) =~= buf0);
            assert(bytes.buf@.skip(buf0.len() as int) =~= pre_buf.skip(buf0.len() as int) + e.0);
            assert(bytes.buf@.skip(buf0.len() as int) + spec_encode_records(
                rv,
                i + 1,
                bytes.occs(),
                bytes.pos as int,
            ).0 =~= pre_buf.skip(buf0.len() as int) + (e.0 + spec_encode_records(
                rv,
                i + 1,
                bytes.occs(),
                bytes.pos as int,
            ).0));
        }
    }
    proof {
        assert(spec_encode_records(rv, n as int, bytes.occs(), bytes.pos as int).0
            =~= Seq::<u8>::empty());
        assert(bytes.buf@.skip(buf0.len() as int) + Seq::<u8>::empty() =~= bytes.buf@.skip(
            buf0.len() as int,
        ));
        assert(bytes.buf@ =~= buf0 + bytes.buf@.skip(buf0.len() as int));
    }
}

impl Message {
    /// Creates a new empty Message.
    pub fn new() -> (r: Message)
        ensures
            r.header == crate::header::spec_default_header(),
            r@.questions.len() == 0,
            r@.answer_records.len() == 0,
            r@.authority_records.len() == 0,
            r@.additional_records.len() == 0,
            wf_message(r@),
    {
        let r = Message {
            header: Header::default(),
            questions: Vec::new(),
            answer_records: Vec::new(),
            authority_records: Vec::new(),
            additional_records: Vec::new(),
        };
        r
    }

    /// Creates a Message from a byte stream: the header's counts drive
    /// the decoding of the four sections.
    pub fn from_bytes(bytes: &mut Bytes) -> (r: Result<Message, DnsError>)
        requires
            old(bytes).wf(),
        ensures
            final(bytes).buf@ == old(bytes).buf@,
            final(bytes).occs() == old(bytes).occs(),
            final(bytes).wf(),
            match r {
                Ok(m) => spec_decode_message(old(bytes).buf@, old(bytes).pos as int) == Some(
                    (m@, final(bytes).pos as int),
                ) && wf_message(m@),
                Err(_) => spec_decode_message(old(bytes).buf@, old(bytes).pos as int) is None,
            },
    {
        let header = match Header::from_bytes(bytes) {
            Ok(h) => h,
            Err(e) => {
                return Err(e);
            },
        };
        let questions = match read_questions(bytes, header.question_count) {
            Ok(v) => v,
            Err(e) => {
                return Err(e);
            },
        };
        let answer_records = match read_records(bytes, header.answer_count) {
            Ok(v) => v,
            Err(e) => {
                return Err(e);
            },
        };
        let authority_records = match read_records(bytes, header.authority_count) {
            Ok(v) => v,
            Err(e) => {
                return Err(e);
            },
        };
        let additional_records = match read_records(bytes, header.additional_count) {
            Ok(v) => v,
            Err(e) => {
                return Err(e);
            },
        };
        Ok(Message { header, questions, answer_records, authority_records, additional_records })
    }

    /// Converts a Message to a byte stream: the header, then each section
    /// in question, answer, authority, additional order, all sections
    /// sharing the cursor's name compression table.
    #[verifier::rlimit(100)]
    pub fn to_bytes(&self, bytes: &mut Bytes)
        requires
            wf_message(self@),
            old(bytes).at_end(),
            occs_wf(old(bytes).occs()),
        ensures
            final(bytes).at_end(),
            occs_wf(final(bytes).occs()),
            final(bytes).buf@ == old(bytes).buf@ + spec_encode_message(
                self@,
                old(bytes).occs(),
                old(bytes).pos as int,
            ),
    {
        proof {
            assert forall|i: int| 0 <= i < self.questions@.len() implies (
            #[trigger] self.questions@[i]).wf() by {
                assert(self@.questions[i] == self.questions@[i]@);
            }
            assert forall|i: int| 0 <= i < self.answer_records@.len() implies wf_record(
                (#[trigger] self.answer_records@[i])@,
            ) by {
                assert(self@.answer_records[i] == self.answer_records@[i]@);
            }
            assert forall|i: int| 0 <= i < self.authority_records@.len() implies wf_record(
                (#[trigger] self.authority_records@[i])@,
            ) by {
                assert(self@.authority_records[i] == self.authority_records@[i]@);
            }
            assert forall|i: int| 0 <= i < self.additional_records@.len() implies wf_record(
                (#[trigger] self.additional_records@[i])@,
            ) by {
                assert(self@.additional_records[i] == self.additional_records@[i]@);
            }
        }
        self.header.to_bytes(bytes);
        write_questions(bytes, &self.questions);
        write_records(bytes, &self.answer_records);
        write_records(bytes, &self.authority_records);
        write_records(bytes, &self.additional_records);
        proof {
            assert(forall|i: int|
                0 <= i < self.questions@.len() ==> (#[trigger] questions_view(self.questions@)[i])
                    == self.questions@[i]@);
            assert(bytes.buf@ =~= old(bytes).buf@ + spec_encode_message(
                self@,
                old(bytes).occs(),
                old(bytes).pos as int,
            ));
        }
    }
}

impl Clone for Message {
    fn clone(&self) -> (r: Self)
        ensures
            r@ == self@,
    {
        let r = Message {
            header: self.header,
            questions: clone_questions(&self.questions),
            answer_records: clone_records(&self.answer_records),
            authority_records: clone_records(&self.authority_records),
            additional_records: clone_records(&self.additional_records),
        };
        r
    }
}

/// Clones a question section.
fn clone_questions(qs: &Vec<Question>) -> (r: Vec<Question>)
    ensures
        questions_view(r@) == questions_view(qs@),
{
    let r = qs.clone();
    proof {
        assert forall|i: int| 0 <= i < r@.len() implies #[trigger] r@[i]@ == qs@[i]@ by {
            assert(cloned::<Question>(qs@[i], r@[i]));
        }
        assert(questions_view(r@) =~= questions_view(qs@));
    }
    r
}

/// Clones a record section.
fn clone_records(rs: &Vec<Record>) -> (r: Vec<Record>)
    ensures
        records_view(r@) == records_view(rs@),
{
    let r = rs.clone();
    proof {
        assert forall|i: int| 0 <= i < r@.len() implies #[trigger] r@[i]@ == rs@[i]@ by {
            assert(cloned::<Record>(rs@[i], r@[i]));
        }
        assert(records_view(r@) =~= records_view(rs@));
    }
    r
}

} // verus!
