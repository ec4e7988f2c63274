use vstd::prelude::*;

use crate::error::DnsError;
use crate::message::records_view;
use crate::name::{spec_contains, wf_name, Name};
use crate::record::{wf_record, Record, RecordV};

verus! {

/// The records of a zone whose owner name equals `n`, in declaration
/// order.
pub open spec fn matching_records(rs: Seq<RecordV>, n: Seq<Seq<u8>>) -> Seq<RecordV>
    decreases rs.len(),
{
    if rs.len() == 0 {
        Seq::<RecordV>::empty()
    } else {
        let rest = matching_records(rs.drop_last(), n);
        if rs.last().spec_name() == n {
            rest + seq![rs.last()]
        } else {
            rest
        }
    }
}

/// Every selected record is one of the zone's, has the looked-up name,
/// and there are no more of them than the zone holds.
pub proof fn lemma_matching_records(rs: Seq<RecordV>, n: Seq<Seq<u8>>)
    ensures
        matching_records(rs, n).len() <= rs.len(),
        forall|k: int|
            0 <= k < matching_records(rs, n).len() ==> rs.contains(
                #[trigger] matching_records(rs, n)[k],
            ) && matching_records(rs, n)[k].spec_name() == n,
    decreases rs.len(),
{
    if rs.len() > 0 {
        lemma_matching_records(rs.drop_last(), n);
        assert(forall|k: int|
            0 <= k < rs.drop_last().len() ==> rs.drop_last()[k] == rs[k]);
        assert(forall|e: RecordV| rs.drop_last().contains(e) ==> rs.contains(e));
        assert(rs.contains(rs.last()));
    }
}

/// A well-formed zone: a well-formed name, no more records than a count
/// field holds, and every record well-formed with its name inside the
/// zone.
pub open spec fn wf_zone(name: Seq<Seq<u8>>, rs: Seq<RecordV>) -> bool {
    &&& wf_name(name)
    &&& rs.len() <= 0xFFFF
    &&& forall|i: int| 0 <= i < rs.len() ==> wf_record(#[trigger] rs[i])
    &&& forall|i: int| 0 <= i < rs.len() ==> spec_contains(name, (#[trigger] rs[i]).spec_name())
}

/// A subset of the DNS namespace: a name and the records at or below it.
///
/// Zones are immutable after construction.
#[derive(Debug)]
pub struct Zone {
    pub name: Name,
    pub records: Vec<Record>,
}

impl Zone {
    pub open spec fn wf(&self) -> bool {
        wf_zone(self.name@, records_view(self.records@))
    }

    /// Creates a zone, rejecting it unless the zone name and every record
    /// are well-formed and every record's name is the zone name or lies
    /// within it.
    pub fn new(name: Name, records: Vec<Record>) -> (r: Result<Zone, DnsError>)
        ensures
            match r {
                Ok(z) => z.name@ == name@ && records_view(z.records@) == records_view(records@)
                    && z.wf(),
                Err(_) => !wf_zone(name@, records_view(records@)),
            },
    {
        let ghost rv = records_view(records@);
        if !name.is_wf() {
            return Err(DnsError::InvalidName);
        }
        let n = records.len();
        if n > 0xFFFF {
            return Err(DnsError::InvalidName);
        }
        for i in 0..n
            invariant
                n == records@.len(),
                rv == records_view(records@),
                name.wf(),
                forall|j: int| 0 <= j < i ==> wf_record(#[trigger] rv[j]),
                forall|j: int|
                    0 <= j < i ==> spec_contains(name@, (#[trigger] rv[j]).spec_name()),
        {
            proof {
                assert(rv[i as int] == records@[i as int]@);
            }
            if !records[i].check() {
                return Err(DnsError::InvalidName);
            }
            if !name.contains(records[i].name()) {
                return Err(DnsError::InvalidName);
            }
        }
        Ok(Zone { name, records })
    }

    /// Returns copies of the records with the specified name, preserving
    /// declaration order.
    pub fn find_with_name(&self, name: &Name) -> (r: Vec<Record>)
        ensures
            records_view(r@) == matching_records(records_view(self.records@), name@),
    {
        let ghost rv = records_view(self.records@);
        let mut out: Vec<Record> = Vec::new();
        let n = self.records.len();
        for i in 0..n
            invariant
                n == self.records@.len(),
                rv == records_view(self.records@),
                records_view(out@) == matching_records(rv.take(i as int), name@),
        {
            proof {
                assert(rv.take(i + 1).drop_last() =~= rv.take(i as int));
                assert(rv.take(i + 1).last() == rv[i as int]);
                assert(rv[i as int] == self.records@[i as int]@);
            }
            if self.records[i].name() == name {
                out.push(self.records[i].clone());
                proof {
                    assert(records_view(out@) =~= records_view(out@.drop_last()) + seq![
                        out@.last()@,
                    ]);
                }
            }
        }
        proof {
            assert(rv.take(n as int) =~= rv);
        }
        out
    }
}

} // verus!
