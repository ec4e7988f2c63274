use vstd::prelude::*;

use crate::header::{OperationCode, ResponseCode};
use crate::message::{records_view, wf_message, Message, MessageV};
use crate::name::{lemma_wire_len_ge_len, spec_wildcard_of, wf_name, Name};
use crate::question::QuestionType;
use crate::record::{wf_record, Record, RecordV};
use crate::zone::{lemma_matching_records, matching_records, Zone};

verus! {

// ---------------------------------------------------------------------------
// Record filters
// ---------------------------------------------------------------------------

/// The CNAME records of a set, in order.
pub open spec fn filter_cname(rs: Seq<RecordV>) -> Seq<RecordV>
    decreases rs.len(),
{
    if rs.len() == 0 {
        Seq::<RecordV>::empty()
    } else {
        let rest = filter_cname(rs.drop_last());
        if rs.last() is Cname {
            rest + seq![rs.last()]
        } else {
            rest
        }
    }
}

/// The NS records of a set, in order.
pub open spec fn filter_ns(rs: Seq<RecordV>) -> Seq<RecordV>
    decreases rs.len(),
{
    if rs.len() == 0 {
        Seq::<RecordV>::empty()
    } else {
        let rest = filter_ns(rs.drop_last());
        if rs.last() is Ns {
            rest + seq![rs.last()]
        } else {
            rest
        }
    }
}

/// The records of a set whose type code is `code`, in order; with `all`
/// every record matches.
pub open spec fn filter_qtype(rs: Seq<RecordV>, code: u16, all: bool) -> Seq<RecordV>
    decreases rs.len(),
{
    if rs.len() == 0 {
        Seq::<RecordV>::empty()
    } else {
        let rest = filter_qtype(rs.drop_last(), code, all);
        if rs.last().spec_code() == code || all {
            rest + seq![rs.last()]
        } else {
            rest
        }
    }
}

/// The records of a set, each with its owner name replaced.
pub open spec fn rename_records(rs: Seq<RecordV>, n: Seq<Seq<u8>>) -> Seq<RecordV> {
    Seq::new(rs.len(), |i: int| rs[i].spec_with_name(n))
}

/// The view of the wildcard answers captured so far: none means no
/// capture.
pub open spec fn wc_view(o: Option<Vec<Record>>) -> Seq<RecordV> {
    match o {
        Some(v) => records_view(v@),
        None => Seq::<RecordV>::empty(),
    }
}

/// Every filtered record is one of the input's; with `all` false each has
/// the filtered code.
pub proof fn lemma_filter_qtype(rs: Seq<RecordV>, code: u16, all: bool)
    ensures
        filter_qtype(rs, code, all).len() <= rs.len(),
        forall|k: int|
            0 <= k < filter_qtype(rs, code, all).len() ==> rs.contains(
                #[trigger] filter_qtype(rs, code, all)[k],
            ) && (filter_qtype(rs, code, all)[k].spec_code() == code || all),
    decreases rs.len(),
{
    if rs.len() > 0 {
        lemma_filter_qtype(rs.drop_last(), code, all);
        assert(forall|k: int|
            0 <= k < rs.drop_last().len() ==> rs.drop_last()[k] == rs[k]);
        assert(forall|e: RecordV| rs.drop_last().contains(e) ==> rs.contains(e));
        assert(rs.contains(rs.last()));
    }
}

/// Every filtered record is one of the input's and is a CNAME.
pub proof fn lemma_filter_cname(rs: Seq<RecordV>)
    ensures
        filter_cname(rs).len() <= rs.len(),
        forall|k: int|
            0 <= k < filter_cname(rs).len() ==> rs.contains(#[trigger] filter_cname(rs)[k])
                && filter_cname(rs)[k] is Cname,
    decreases rs.len(),
{
    if rs.len() > 0 {
        lemma_filter_cname(rs.drop_last());
        assert(forall|k: int|
            0 <= k < rs.drop_last().len() ==> rs.drop_last()[k] == rs[k]);
        assert(forall|e: RecordV| rs.drop_last().contains(e) ==> rs.contains(e));
        assert(rs.contains(rs.last()));
    }
}

/// Every filtered record is one of the input's and is an NS record.
pub proof fn lemma_filter_ns(rs: Seq<RecordV>)
    ensures
        filter_ns(rs).len() <= rs.len(),
        forall|k: int|
            0 <= k < filter_ns(rs).len() ==> rs.contains(#[trigger] filter_ns(rs)[k])
                && filter_ns(rs)[k] is Ns,
    decreases rs.len(),
{
    if rs.len() > 0 {
        lemma_filter_ns(rs.drop_last());
        assert(forall|k: int|
            0 <= k < rs.drop_last().len() ==> rs.drop_last()[k] == rs[k]);
        assert(forall|e: RecordV| rs.drop_last().contains(e) ==> rs.contains(e));
        assert(rs.contains(rs.last()));
    }
}

/// Filtering distributes over concatenation.
proof fn lemma_filter_cname_cat(a: Seq<RecordV>, b: Seq<RecordV>)
    ensures
        filter_cname(a + b) == filter_cname(a) + filter_cname(b),
    decreases b.len(),
{
    if b.len() == 0 {
        assert(a + b =~= a);
        assert(filter_cname(a) + filter_cname(b) =~= filter_cname(a));
    } else {
        assert((a + b).drop_last() =~= a + b.drop_last());
        assert((a + b).last() == b.last());
        lemma_filter_cname_cat(a, b.drop_last());
        if b.last() is Cname {
            assert((filter_cname(a) + filter_cname(b.drop_last())) + seq![b.last()]
                =~= filter_cname(a) + (filter_cname(b.drop_last()) + seq![b.last()]));
        }
    }
}

/// The first CNAME record of a set, if any.
fn first_cname(rs: &Vec<Record>) -> (r: Option<Record>)
    ensures
        match r {
            Some(c) => filter_cname(records_view(rs@)).len() > 0 && c@ == filter_cname(
                records_view(rs@),
            )[0],
            None => filter_cname(records_view(rs@)).len() == 0,
        },
{
    let ghost rv = records_view(rs@);
    let n = rs.len();
    for i in 0..n
        invariant
            n == rs@.len(),
            rv == records_view(rs@),
            filter_cname(rv.take(i as int)) == Seq::<RecordV>::empty(),
    {
        proof {
            assert(rv.take(i + 1).drop_last() =~= rv.take(i as int));
            assert(rv.take(i + 1).last() == rv[i as int]);
            assert(rv[i as int] == rs@[i as int]@);
        }
        let is_cname = match &rs[i] {
            Record::Cname { .. } => true,
            _ => false,
        };
        if is_cname {
            let c = rs[i].clone();
            proof {
                lemma_filter_cname_cat(rv.take(i + 1), rv.skip(i + 1));
                assert(rv.take(i + 1) + rv.skip(i + 1) =~= rv);
                assert(filter_cname(rv.take(i + 1)) =~= seq![rv[i as int]]);
                assert(filter_cname(rv)[0] == rv[i as int]);
            }
            return Some(c);
        }
    }
    proof {
        assert(rv.take(n as int) =~= rv);
    }
    None
}

/// The records of a section whose type code is `code` (or all of them,
/// for an ALL query), cloned in order.
fn filter_qtype_records(rs: &Vec<Record>, code: u16, all: bool) -> (r: Vec<Record>)
    ensures
        records_view(r@) == filter_qtype(records_view(rs@), code, all),
{
    let ghost rv = records_view(rs@);
    let mut out: Vec<Record> = Vec::new();
    let n = rs.len();
    for i in 0..n
        invariant
            n == rs@.len(),
            rv == records_view(rs@),
            records_view(out@) == filter_qtype(rv.take(i as int), code, all),
    {
        proof {
            assert(rv.take(i + 1).drop_last() =~= rv.take(i as int));
            assert(rv.take(i + 1).last() == rv[i as int]);
            assert(rv[i as int] == rs@[i as int]@);
        }
        if rs[i].code() == code || all {
            out.push(rs[i].clone());
            proof {
                assert(records_view(out@) =~= records_view(out@.drop_last()) + seq![
                    out@.last()@,
                ]);
            }
        }
    }
    proof {
        assert(rv.take(n as int) =~= rv);
    }
    out
}

/// The NS records of a section, cloned in order.
fn filter_ns_records(rs: &Vec<Record>) -> (r: Vec<Record>)
    ensures
        records_view(r@) == filter_ns(records_view(rs@)),
{
    let ghost rv = records_view(rs@);
    let mut out: Vec<Record> = Vec::new();
    let n = rs.len();
    for i in 0..n
        invariant
            n == rs@.len(),
            rv == records_view(rs@),
            records_view(out@) == filter_ns(rv.take(i as int)),
    {
        proof {
            assert(rv.take(i + 1).drop_last() =~= rv.take(i as int));
            assert(rv.take(i + 1).last() == rv[i as int]);
            assert(rv[i as int] == rs@[i as int]@);
        }
        let is_ns = match &rs[i] {
            Record::Ns { .. } => true,
            _ => false,
        };
        if is_ns {
            out.push(rs[i].clone());
            proof {
                assert(records_view(out@) =~= records_view(out@.drop_last()) + seq![
                    out@.last()@,
                ]);
            }
        }
    }
    proof {
        assert(rv.take(n as int) =~= rv);
    }
    out
}

// ---------------------------------------------------------------------------
// The authoritative lookup walk
// ---------------------------------------------------------------------------

/// What the lookup walk decides for a query.
pub enum LookupOutcome {
    /// The operation code is not a standard query.
    NotImplemented,
    /// The query name carries a CNAME: that one record is the answer.
    Cname(RecordV),
    /// Records at the query name match the queried type.
    Answers(Seq<RecordV>),
    /// An ancestor carries NS records: the query is delegated.
    Delegation(Seq<RecordV>),
    /// A wildcard at the deepest empty level answers the query.
    Wildcard(Seq<RecordV>),
    /// Nothing matched.
    NameError,
}

/// The walk over the ancestors of the query name `q`, from the root down,
/// with `wc` the wildcard answers captured so far. At each ancestor:
/// explicit records clear the captured wildcard; at the leaf a CNAME and
/// then a type match answer; NS records delegate at any level; and an
/// empty non-root level may capture the records of its wildcard name that
/// match the queried type exactly. After the walk the captured wildcard
/// answers, if any, stand; otherwise the name does not exist.
pub open spec fn spec_walk(
    recs: Seq<RecordV>,
    q: Seq<Seq<u8>>,
    qt: QuestionType,
    i: int,
    wc: Seq<RecordV>,
) -> LookupOutcome
    decreases q.len() - i + 1,
{
    if i > q.len() || i < 1 {
        if wc.len() > 0 {
            LookupOutcome::Wildcard(wc)
        } else {
            LookupOutcome::NameError
        }
    } else {
        let a = q.skip(q.len() - i);
        let ra = matching_records(recs, a);
        let wc1 = if ra.len() > 0 {
            Seq::<RecordV>::empty()
        } else {
            wc
        };
        if i == q.len() && filter_cname(ra).len() > 0 {
            LookupOutcome::Cname(filter_cname(ra)[0])
        } else if i == q.len() && filter_qtype(ra, qt.spec_code(), qt is ALL).len() > 0 {
            LookupOutcome::Answers(filter_qtype(ra, qt.spec_code(), qt is ALL))
        } else if filter_ns(ra).len() > 0 {
            LookupOutcome::Delegation(filter_ns(ra))
        } else {
            let wc2 = if a.len() > 1 && ra.len() == 0 {
                let w = filter_qtype(matching_records(recs, spec_wildcard_of(a)), qt.spec_code(), false);
                if w.len() > 0 {
                    w
                } else {
                    wc1
                }
            } else {
                wc1
            };
            spec_walk(recs, q, qt, i + 1, wc2)
        }
    }
}

/// What the lookup engine decides for a query message: a non-query
/// operation code is not implemented; otherwise the walk over the first
/// question decides.
pub open spec fn spec_outcome(recs: Seq<RecordV>, m: MessageV) -> LookupOutcome {
    if !(m.header.op_code is Query) {
        LookupOutcome::NotImplemented
    } else {
        spec_walk(recs, m.questions[0].name, m.questions[0].q_type, 1, Seq::<RecordV>::empty())
    }
}

impl Zone {
    /// Serves a DNS query authoritatively from this zone.
    ///
    /// The response reuses the query's header id and question section,
    /// marks itself a response, and carries the records and codes that
    /// the lookup walk decides; the query's additional section is kept.
    #[verifier::rlimit(100)]
    pub fn serve(&self, query: Message) -> (r: Message)
        requires
            self.wf(),
            query@.questions.len() >= 1,
            wf_message(query@),
        ensures
            r.header.id == query@.header.id,
            r.header.is_response,
            r.header.op_code == query@.header.op_code,
            r.header.is_truncated == query@.header.is_truncated,
            r.header.recursion_desired == query@.header.recursion_desired,
            r.header.recursion_available == query@.header.recursion_available,
            r.header.question_count == query@.header.question_count,
            r.header.additional_count == query@.header.additional_count,
            r@.questions == query@.questions,
            r@.additional_records == query@.additional_records,
            wf_message(r@),
            ({
                let o = spec_outcome(records_view(self.records@), query@);
                match o {
                    LookupOutcome::NotImplemented => {
                        &&& r.header.resp_code is NotImplemented
                        &&& r.header.is_authority == query@.header.is_authority
                        &&& r.header.answer_count == query@.header.answer_count
                        &&& r.header.authority_count == query@.header.authority_count
                        &&& r@.answer_records == query@.answer_records
                        &&& r@.authority_records == query@.authority_records
                    },
                    LookupOutcome::Cname(c) => {
                        &&& r.header.resp_code is Success
                        &&& r.header.is_authority
                        &&& r.header.answer_count == 1
                        &&& r.header.authority_count == query@.header.authority_count
                        &&& r@.answer_records == query@.answer_records.push(c)
                        &&& r@.authority_records == query@.authority_records
                    },
                    LookupOutcome::Answers(ms) => {
                        &&& r.header.resp_code is Success
                        &&& r.header.is_authority
                        &&& r.header.answer_count == ms.len()
                        &&& r.header.authority_count == query@.header.authority_count
                        &&& r@.answer_records == query@.answer_records + ms
                        &&& r@.authority_records == query@.authority_records
                    },
                    LookupOutcome::Delegation(ds) => {
                        &&& r.header.resp_code is Success
                        &&& !r.header.is_authority
                        &&& r.header.answer_count == query@.header.answer_count
                        &&& r.header.authority_count == ds.len()
                        &&& r@.answer_records == query@.answer_records
                        &&& r@.authority_records == query@.authority_records + ds
                    },
                    LookupOutcome::Wildcard(ws) => {
                        &&& r.header.resp_code is Success
                        &&& r.header.is_authority
                        &&& r.header.answer_count == ws.len()
                        &&& r.header.authority_count == query@.header.authority_count
                        &&& r@.answer_records == query@.answer_records + rename_records(
                            ws,
                            query@.questions[0].name,
                        )
                        &&& r@.authority_records == query@.authority_records
                    },
                    LookupOutcome::NameError => {
                        &&& r.header.resp_code is NameError
                        &&& r.header.is_authority == query@.header.is_authority
                        &&& r.header.answer_count == query@.header.answer_count
                        &&& r.header.authority_count == query@.header.authority_count
                        &&& r@.answer_records == query@.answer_records
                        &&& r@.authority_records == query@.authority_records
                    },
                }
            }),
    {
        let ghost recs = records_view(self.records@);
        let ghost qv = query@;
        let mut response = query;
        response.header.is_response = true;
        let is_query = match response.header.op_code {
            OperationCode::Query => true,
            _ => false,
        };
        if !is_query {
            response.header.resp_code = ResponseCode::NotImplemented;
            proof {
                assert(response@.questions =~= qv.questions);
                assert(response@.answer_records =~= qv.answer_records);
                assert(response@.authority_records =~= qv.authority_records);
                assert(response@.additional_records =~= qv.additional_records);
                assert(wf_message(response@));
            }
            return response;
        }
        let qname = response.questions[0].name.clone();
        let qtype = response.questions[0].q_type;
        proof {
            assert(qv.questions[0] == response.questions@[0]@);
            assert(qname@ == qv.questions[0].name);
            assert(wf_name(qname@));
        }
        let qcode = qtype.code();
        let is_all = match qtype {
            QuestionType::ALL => true,
            _ => false,
        };
        let n = qname.labels.len();
        proof {
            lemma_wire_len_ge_len(qname@);
        }
        let mut wildcard_answers: Option<Vec<Record>> = None;
        let mut i: usize = 1;
        while i <= n
            invariant
                self.wf(),
                recs == records_view(self.records@),
                qv == query@,
                wf_message(qv),
                qv.questions.len() >= 1,
                qname@ == qv.questions[0].name,
                wf_name(qname@),
                qtype == qv.questions[0].q_type,
                qcode == qtype.spec_code(),
                is_all == (qtype is ALL),
                n == qname@.len(),
                1 <= n <= 254,
                1 <= i <= n + 1,
                response.header.id == qv.header.id,
                response.header.is_response,
                response.header.op_code == qv.header.op_code,
                response.header.op_code is Query,
                response.header.is_authority == qv.header.is_authority,
                response.header.is_truncated == qv.header.is_truncated,
                response.header.recursion_desired == qv.header.recursion_desired,
                response.header.recursion_available == qv.header.recursion_available,
                response.header.resp_code == qv.header.resp_code,
                response.header.question_count == qv.header.question_count,
                response.header.answer_count == qv.header.answer_count,
                response.header.authority_count == qv.header.authority_count,
                response.header.additional_count == qv.header.additional_count,
                response@.questions == qv.questions,
                response@.answer_records == qv.answer_records,
                response@.authority_records == qv.authority_records,
                response@.additional_records == qv.additional_records,
                spec_walk(recs, qname@, qtype, 1, Seq::<RecordV>::empty()) == spec_walk(
                    recs,
                    qname@,
                    qtype,
                    i as int,
                    wc_view(wildcard_answers),
                ),
                wc_view(wildcard_answers).len() <= recs.len(),
                forall|k: int|
                    0 <= k < wc_view(wildcard_answers).len() ==> wf_record(
                        #[trigger] wc_view(wildcard_answers)[k],
                    ),
                forall|k: int|
                    0 <= k < wc_view(wildcard_answers).len() ==> !((#[trigger] wc_view(
                        wildcard_answers,
                    )[k]) is Opt),
                wildcard_answers matches Some(v) ==> v@.len() > 0,
            decreases n + 1 - i,
        {
            let ghost wcv_old = wc_view(wildcard_answers);
            let a = qname.suffix_name(n - i);
            proof {
                assert(a@ == qname@.skip(n - i));
                assert(a@.len() == i);
            }
            let name_records = self.find_with_name(&a);
            let ghost ra = matching_records(recs, a@);
            proof {
                lemma_matching_records(recs, a@);
                assert forall|k: int| 0 <= k < ra.len() implies wf_record(#[trigger] ra[k]) by {
                    let j = choose|j: int| 0 <= j < recs.len() && recs[j] == ra[k];
                    assert(wf_record(recs[j]));
                }
            }
            if name_records.len() > 0 {
                wildcard_answers = None;
            }
            if i == n {
                // Leaf: a CNAME answers regardless of the queried type.
                match first_cname(&name_records) {
                    Some(cname_record) => {
                        proof {
                            lemma_filter_cname(ra);
                        }
                        response.header.is_authority = true;
                        response.header.resp_code = ResponseCode::Success;
                        response.header.answer_count = 1;
                        response.answer_records.push(cname_record);
                        proof {
                            assert(records_view(response.answer_records@)
                                =~= qv.answer_records.push(filter_cname(ra)[0]));
                            assert(response@.questions =~= qv.questions);
                        }
                        return response;
                    },
                    None => {},
                }
                // Leaf: records matching the queried type answer.
                let mut matched = filter_qtype_records(&name_records, qcode, is_all);
                if matched.len() > 0 {
                    proof {
                        lemma_filter_qtype(ra, qcode, is_all);
                        lemma_matching_records(recs, a@);
                    }
                    let ghost ms = filter_qtype(ra, qcode, is_all);
                    response.header.is_authority = true;
                    response.header.resp_code = ResponseCode::Success;
                    response.header.answer_count = matched.len() as u16;
                    let ghost pre_answers = response.answer_records@;
                    response.answer_records.append(&mut matched);
                    proof {
                        assert(records_view(response.answer_records@) =~= qv.answer_records
                            + ms);
                        assert forall|k: int|
                            0 <= k < response@.answer_records.len() implies wf_record(
                            #[trigger] response@.answer_records[k],
                        ) by {
                            if k >= qv.answer_records.len() {
                                let e = ms[k - qv.answer_records.len()];
                                let j = choose|j: int|
                                    0 <= j < recs.len() && recs[j] == e;
                                assert(wf_record(recs[j]));
                            }
                        }
                        assert(response@.questions =~= qv.questions);
                    }
                    return response;
                }
            }
            // Leaf or ancestor: NS records delegate.
            let mut delegation = filter_ns_records(&name_records);
            if delegation.len() > 0 {
                proof {
                    lemma_filter_ns(ra);
                    lemma_matching_records(recs, a@);
                }
                let ghost ds = filter_ns(ra);
                response.header.is_authority = false;
                response.header.resp_code = ResponseCode::Success;
                response.header.authority_count = delegation.len() as u16;
                response.authority_records.append(&mut delegation);
                proof {
                    assert(records_view(response.authority_records@) =~= qv.authority_records
                        + ds);
                    assert forall|k: int|
                        0 <= k < response@.authority_records.len() implies wf_record(
                        #[trigger] response@.authority_records[k],
                    ) by {
                        if k >= qv.authority_records.len() {
                            let e = ds[k - qv.authority_records.len()];
                            let j = choose|j: int| 0 <= j < recs.len() && recs[j] == e;
                            assert(wf_record(recs[j]));
                        }
                    }
                    assert(response@.questions =~= qv.questions);
                }
                return response;
            }
            // An empty non-root level may capture its wildcard's records
            // of the queried type.
            if i > 1 && name_records.len() == 0 {
                let wild = a.to_wildcard();
                let wild_records = self.find_with_name(&wild);
                let wild_matched = filter_qtype_records(&wild_records, qcode, false);
                if wild_matched.len() > 0 {
                    proof {
                        let wra = matching_records(recs, spec_wildcard_of(a@));
                        lemma_matching_records(recs, spec_wildcard_of(a@));
                        lemma_filter_qtype(wra, qcode, false);
                        assert forall|k: int|
                            0 <= k < records_view(wild_matched@).len() implies wf_record(
                            #[trigger] records_view(wild_matched@)[k],
                        ) && !(records_view(wild_matched@)[k] is Opt) by {
                            let e = records_view(wild_matched@)[k];
                            let j = choose|j: int| 0 <= j < wra.len() && wra[j] == e;
                            let j2 = choose|j2: int|
                                0 <= j2 < recs.len() && recs[j2] == wra[j];
                            assert(wf_record(recs[j2]));
                            assert(e.spec_code() == qcode);
                        }
                    }
                    wildcard_answers = Some(wild_matched);
                }
            }
            proof {
                let ra_v = matching_records(recs, a@);
                let wcv_new = wc_view(wildcard_answers);
                if i == n {
                    assert(filter_cname(ra_v).len() == 0);
                    assert(filter_qtype(ra_v, qcode, is_all).len() == 0);
                }
                assert(filter_ns(ra_v).len() == 0);
                assert(spec_walk(recs, qname@, qtype, i as int, wcv_old) == spec_walk(
                    recs,
                    qname@,
                    qtype,
                    i + 1,
                    wcv_new,
                ));
            }
            i = i + 1;
        }
        // The walk found neither explicit data nor a delegation: captured
        // wildcard answers stand, with their names rewritten to the query
        // name.
        let ghost wc_final = wc_view(wildcard_answers);
        match wildcard_answers {
            Some(ws) => {
                let ghost wsv = records_view(ws@);
                proof {
                    assert(wsv == wc_final);
                    assert(wsv.len() > 0);
                    assert(ws@.len() <= 0xFFFF);
                }
                response.header.is_authority = true;
                response.header.resp_code = ResponseCode::Success;
                response.header.answer_count = ws.len() as u16;
                let m = ws.len();
                let ghost pre_answers = records_view(response.answer_records@);
                proof {
                    assert(rename_records(wsv, qname@).take(0) =~= Seq::<RecordV>::empty());
                    assert(pre_answers + rename_records(wsv, qname@).take(0) =~= pre_answers);
                    assert forall|t: int|
                        0 <= t < response.answer_records@.len() implies wf_record(
                        (#[trigger] response.answer_records@[t])@,
                    ) by {
                        assert(qv.answer_records[t] == response.answer_records@[t]@);
                    }
                }
                for k in 0..m
                    invariant
                        m == ws@.len(),
                        wsv == records_view(ws@),
                        qname@ == qv.questions[0].name,
                        wf_name(qname@),
                        forall|t: int| 0 <= t < wsv.len() ==> wf_record(#[trigger] wsv[t]),
                        forall|t: int| 0 <= t < wsv.len() ==> !((#[trigger] wsv[t]) is Opt),
                        records_view(response.answer_records@) == pre_answers + rename_records(
                            wsv,
                            qname@,
                        ).take(k as int),
                        forall|t: int|
                            0 <= t < response.answer_records@.len() ==> wf_record(
                                (#[trigger] response.answer_records@[t])@,
                            ),
                        response@.questions == qv.questions,
                        response@.authority_records == qv.authority_records,
                        response@.additional_records == qv.additional_records,
                        response.header == old_header_with(qv, m as u16),
                {
                    proof {
                        assert(wsv[k as int] == ws@[k as int]@);
                    }
                    let renamed = ws[k].with_name(qname.clone());
                    let ghost pre_seq = response.answer_records@;
                    response.answer_records.push(renamed);
                    proof {
                        assert(response.answer_records@.drop_last() =~= pre_seq);
                        assert(rename_records(wsv, qname@).take(k + 1) =~= rename_records(
                            wsv,
                            qname@,
                        ).take(k as int).push(wsv[k as int].spec_with_name(qname@)));
                        assert(records_view(response.answer_records@) =~= records_view(
                            response.answer_records@.drop_last(),
                        ) + seq![response.answer_records@.last()@]);
                        assert(records_view(response.answer_records@) =~= pre_answers
                            + rename_records(wsv, qname@).take(k + 1));
                    }
                }
                proof {
                    assert(rename_records(wsv, qname@).take(m as int) =~= rename_records(
                        wsv,
                        qname@,
                    ));
                    assert(records_view(response.answer_records@) =~= qv.answer_records
                        + rename_records(wsv, qv.questions[0].name));
                    assert forall|t: int|
                        0 <= t < response@.answer_records.len() implies wf_record(
                        #[trigger] response@.answer_records[t],
                    ) by {
                        assert(response@.answer_records[t] == response.answer_records@[t]@);
                    }
                    assert(response@.questions =~= qv.questions);
                }
                response
            },
            None => {
                response.header.resp_code = ResponseCode::NameError;
                proof {
                    assert(response@.questions =~= qv.questions);
                }
                response
            },
        }
    }
}

/// The header a wildcard response carries before its answers are pushed:
/// the query's header marked as an authoritative successful response with
/// the answer count set.
pub open spec fn old_header_with(qv: MessageV, count: u16) -> crate::header::Header {
    crate::header::Header {
        is_response: true,
        is_authority: true,
        resp_code: ResponseCode::Success,
        answer_count: count,
        ..qv.header
    }
}

} // verus!
