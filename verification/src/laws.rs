use vstd::prelude::*;

use crate::bytes::{be16, be32, lemma_be16_of, lemma_be32_of, spec_find_occ, u16_of, u32_of};
use crate::codec::{spec_encode_name, spec_encode_name_from, spec_name_at};
use crate::name::wf_name;
use crate::record::{
    opt_ttl_of, spec_class_slot, spec_decode_record, spec_encode_record, spec_rdata,
    spec_ttl_slot, spec_txt_parse, txt_chunks, wf_record, RecordV,
};

verus! {

/// TXT content split into character-strings on encode is reassembled on
/// decode: parsing the packed strings wherever they stand in a buffer
/// yields the content back, however many chunks it was split into.
pub proof fn lemma_txt_split_reassemble(c: Seq<u8>, buf: Seq<u8>, pos: int)
    requires
        0 <= pos,
        pos + txt_chunks(c).len() <= buf.len(),
        buf.subrange(pos, pos + txt_chunks(c).len()) == txt_chunks(c),
    ensures
        spec_txt_parse(buf, pos, txt_chunks(c).len() as int) == Some(
            (c, pos + txt_chunks(c).len()),
        ),
    decreases c.len(),
{
    let ch = txt_chunks(c);
    assert forall|k: int| 0 <= k < ch.len() implies buf[pos + k] == #[trigger] ch[k] by {
        assert(buf.subrange(pos, pos + ch.len())[k] == buf[pos + k]);
    }
    if c.len() == 0 {
        assert(c =~= Seq::<u8>::empty());
    } else if c.len() <= 255 {
        assert(ch == seq![c.len() as u8] + c);
        assert(ch[0] == c.len() as u8);
        assert(buf[pos + 0] == ch[0]);
        assert(buf[pos] == c.len() as u8);
        let len = c.len() as int;
        assert forall|j: int| 0 <= j < len implies buf.subrange(pos + 1, pos + 1 + len)[j]
            == c[j] by {
            assert(buf[pos + (1 + j)] == ch[1 + j]);
            assert(ch[1 + j] == c[j]);
        }
        assert(buf.subrange(pos + 1, pos + 1 + len) =~= c);
        assert(spec_txt_parse(buf, pos + 1 + len, 0) == Some((Seq::<u8>::empty(), pos + 1 + len)));
        assert(buf.subrange(pos + 1, pos + 1 + len) + Seq::<u8>::empty() =~= c);
    } else {
        assert(ch == (seq![255u8] + c.take(255)) + txt_chunks(c.skip(255)));
        assert(ch[0] == 255);
        assert(buf[pos + 0] == ch[0]);
        assert(buf[pos] == 255);
        let rest = txt_chunks(c.skip(255));
        assert forall|j: int| 0 <= j < rest.len() implies buf.subrange(
            pos + 256,
            pos + 256 + rest.len(),
        )[j] == rest[j] by {
            assert(buf[pos + (256 + j)] == ch[256 + j]);
            assert(ch[256 + j] == rest[j]);
        }
        assert(buf.subrange(pos + 256, pos + 256 + rest.len()) =~= rest);
        lemma_txt_split_reassemble(c.skip(255), buf, pos + 256);
        assert(ch.len() as int - 255 - 1 == rest.len());
        assert forall|j: int| 0 <= j < 255 implies buf.subrange(pos + 1, pos + 256)[j] == c.take(
            255,
        )[j] by {
            assert(buf[pos + (1 + j)] == ch[1 + j]);
            assert(ch[1 + j] == c.take(255)[j]);
        }
        assert(buf.subrange(pos + 1, pos + 256) =~= c.take(255));
        assert(buf.subrange(pos + 1, pos + 256) + c.skip(255) =~= c);
    }
}

/// The bytes of a name written without compression: each label behind its
/// length octet, the root label as a single zero octet.
pub open spec fn plain_name_bytes(ls: Seq<Seq<u8>>, i: int) -> Seq<u8>
    decreases ls.len() - i,
{
    if i < 0 || i >= ls.len() {
        Seq::<u8>::empty()
    } else if i == ls.len() - 1 {
        seq![0u8]
    } else {
        (seq![ls[i].len() as u8] + ls[i]) + plain_name_bytes(ls, i + 1)
    }
}

/// Every entry of the first-occurrence table is a name of more than `k`
/// labels.
pub open spec fn occs_longer(occs: Seq<(Seq<Seq<u8>>, int)>, k: int) -> bool {
    forall|j: int| 0 <= j < occs.len() ==> (#[trigger] occs[j]).0.len() > k
}

/// A name shorter than every table entry is not found.
proof fn lemma_find_occ_longer_misses(occs: Seq<(Seq<Seq<u8>>, int)>, n: Seq<Seq<u8>>)
    requires
        occs_longer(occs, n.len() as int),
    ensures
        spec_find_occ(occs, n) is None,
    decreases occs.len(),
{
    if occs.len() > 0 {
        assert(occs[0].0.len() > n.len());
        assert(forall|j: int| 0 <= j < occs.skip(1).len() ==> occs.skip(1)[j] == occs[j + 1]);
        lemma_find_occ_longer_misses(occs.skip(1), n);
    }
}

/// A name whose suffixes are all new to the first-occurrence table is
/// written without compression: plain labels, no pointer.
pub proof fn lemma_encode_name_plain(
    ls: Seq<Seq<u8>>,
    i: int,
    occs: Seq<(Seq<Seq<u8>>, int)>,
    pos: int,
)
    requires
        0 <= i < ls.len(),
        occs_longer(occs, ls.len() - i),
    ensures
        spec_encode_name_from(ls, i, occs, pos).0 == plain_name_bytes(ls, i),
    decreases ls.len() - i,
{
    if i < ls.len() - 1 {
        assert(ls.skip(i).len() == ls.len() - i);
        lemma_find_occ_longer_misses(occs, ls.skip(i));
        let occs1 = if pos < 0x4000 {
            occs.push((ls.skip(i), pos))
        } else {
            occs
        };
        assert(occs_longer(occs1, ls.len() - (i + 1)));
        let lb = seq![ls[i].len() as u8] + ls[i];
        lemma_encode_name_plain(ls, i + 1, occs1, pos + lb.len());
    }
}

/// A name written without compression decodes to its labels, wherever it
/// stands in a buffer and whatever hop bound is in force.
pub proof fn lemma_decode_name_plain(
    ls: Seq<Seq<u8>>,
    i: int,
    buf: Seq<u8>,
    pos: int,
    max: int,
)
    requires
        wf_name(ls),
        0 <= i < ls.len(),
        0 <= pos,
        0 <= max,
        pos + plain_name_bytes(ls, i).len() <= buf.len(),
        buf.subrange(pos, pos + plain_name_bytes(ls, i).len()) == plain_name_bytes(ls, i),
    ensures
        crate::codec::spec_decode_name(buf, pos, max) == Some(
            (ls.skip(i), pos + plain_name_bytes(ls, i).len()),
        ),
    decreases ls.len() - i,
{
    let pb = plain_name_bytes(ls, i);
    assert forall|k: int| 0 <= k < pb.len() implies buf[pos + k] == #[trigger] pb[k] by {
        assert(buf.subrange(pos, pos + pb.len())[k] == buf[pos + k]);
    }
    if i == ls.len() - 1 {
        assert(pb == seq![0u8]);
        assert(pb[0] == 0);
        assert(buf[pos + 0] == pb[0]);
        assert(ls[i].len() == 0);
        assert(ls.skip(i) =~~= seq![Seq::<u8>::empty()]);
    } else {
        let lb = seq![ls[i].len() as u8] + ls[i];
        let rest = plain_name_bytes(ls, i + 1);
        assert(pb == lb + rest);
        assert(crate::name::wf_label(ls[i]) && ls[i].len() > 0);
        let len = ls[i].len() as int;
        assert(pb[0] == ls[i].len() as u8);
        assert(buf[pos + 0] == pb[0]);
        let signal = buf[pos];
        assert(signal == len && 0 < signal < 63);
        assert forall|j: int| 0 <= j < rest.len() implies buf.subrange(
            pos + 1 + len,
            pos + 1 + len + rest.len(),
        )[j] == rest[j] by {
            assert(buf[pos + (1 + len + j)] == pb[1 + len + j]);
            assert(pb[1 + len + j] == rest[j]);
        }
        assert(buf.subrange(pos + 1 + len, pos + 1 + len + rest.len()) =~= rest);
        lemma_decode_name_plain(ls, i + 1, buf, pos + 1 + len, max);
        assert forall|j: int| 0 <= j < len implies buf.subrange(pos + 1, pos + 1 + len)[j]
            == ls[i][j] by {
            assert(buf[pos + (1 + j)] == pb[1 + j]);
            assert(pb[1 + j] == ls[i][j]);
        }
        assert(buf.subrange(pos + 1, pos + 1 + len) =~= ls[i]);
        assert(seq![ls[i]] + ls.skip(i + 1) =~= ls.skip(i));
    }
}

/// A name encoded at a fresh cursor decodes back to itself: the
/// round-trip of the name codec without compression sharing.
pub proof fn lemma_name_round_trip(ls: Seq<Seq<u8>>, pos: int, buf: Seq<u8>, max: int)
    requires
        wf_name(ls),
        0 <= pos,
        0 <= max,
        pos + spec_encode_name(ls, Seq::<(Seq<Seq<u8>>, int)>::empty(), pos).0.len()
            <= buf.len(),
        buf.subrange(
            pos,
            pos + spec_encode_name(ls, Seq::<(Seq<Seq<u8>>, int)>::empty(), pos).0.len(),
        ) == spec_encode_name(ls, Seq::<(Seq<Seq<u8>>, int)>::empty(), pos).0,
    ensures
        crate::codec::spec_decode_name(buf, pos, max) == Some(
            (
                ls,
                pos + spec_encode_name(ls, Seq::<(Seq<Seq<u8>>, int)>::empty(), pos).0.len(),
            ),
        ),
{
    let occs0 = Seq::<(Seq<Seq<u8>>, int)>::empty();
    lemma_encode_name_plain(ls, 0, occs0, pos);
    lemma_decode_name_plain(ls, 0, buf, pos, max);
    assert(ls.skip(0) =~= ls);
}

/// Whether a record's rdata holds no names: its payload is plain octets
/// and integers.
pub open spec fn rdata_has_no_names(r: RecordV) -> bool {
    match r {
        RecordV::A { .. } => true,
        RecordV::Null { .. } => true,
        RecordV::Wks { .. } => true,
        RecordV::Hinfo { .. } => true,
        RecordV::Txt { .. } => true,
        RecordV::Aaaa { .. } => true,
        RecordV::Opt { .. } => true,
        _ => false,
    }
}

/// A record whose rdata holds no names round-trips through the codec at a
/// fresh cursor: decoding its encoding yields the record back. Records
/// whose rdata holds names compress against earlier names, which this
/// statement leaves out.
#[verifier::rlimit(100)]
#[verifier::spinoff_prover]
pub proof fn lemma_record_round_trip_fresh(r: RecordV)
    requires
        wf_record(r),
        rdata_has_no_names(r),
    ensures
        ({
            let e = spec_encode_record(r, Seq::<(Seq<Seq<u8>>, int)>::empty(), 0).0;
            spec_decode_record(e, 0) == Some((r, e.len() as int))
        }),
{
    let occs0 = Seq::<(Seq<Seq<u8>>, int)>::empty();
    if r is Opt {
        lemma_opt_round_trip(r, occs0);
    } else {
        let nm = r.spec_name();
        let en = spec_encode_name(nm, occs0, 0);
        lemma_encode_name_plain(nm, 0, occs0, 0);
        let nb = en.0;
        let nl = nb.len() as int;
        let rd = spec_rdata(r, en.1, nl + 10);
        crate::record::lemma_rdata_len(r, en.1, nl + 10);
        let h10 = be16(r.spec_code()) + be16(spec_class_slot(r)) + be32(spec_ttl_slot(r)) + be16(
            rd.0.len() as u16,
        );
        let e = spec_encode_record(r, occs0, 0).0;
        assert(e =~= nb + h10 + rd.0);
        assert(e.subrange(0, nl) =~= nb);
        lemma_decode_name_plain(nm, 0, e, 0, 0);
        assert(nm.skip(0) =~= nm);
        assert(spec_name_at(e, 0) == Some((nm, nl)));
        assert forall|k: int| 0 <= k < 10 implies e[nl + k] == #[trigger] h10[k] by {
            assert((nb + h10 + rd.0)[nl + k] == h10[k]);
        }
        assert forall|j: int| 0 <= j < rd.0.len() implies e[nl + 10 + j] == #[trigger] rd.0[j] by {
            assert((nb + h10 + rd.0)[nl + 10 + j] == rd.0[j]);
        }
        assert(h10[0] == be16(r.spec_code())[0] && h10[1] == be16(r.spec_code())[1]);
        assert(h10[2] == be16(spec_class_slot(r))[0] && h10[3] == be16(spec_class_slot(r))[1]);
        assert(h10[4] == be32(spec_ttl_slot(r))[0] && h10[5] == be32(spec_ttl_slot(r))[1] && h10[6]
            == be32(spec_ttl_slot(r))[2] && h10[7] == be32(spec_ttl_slot(r))[3]);
        assert(h10[8] == be16(rd.0.len() as u16)[0] && h10[9] == be16(rd.0.len() as u16)[1]);
        lemma_be16_of(r.spec_code());
        lemma_be16_of(spec_class_slot(r));
        lemma_be32_of(spec_ttl_slot(r));
        lemma_be16_of(rd.0.len() as u16);
        assert(u16_of(e[nl], e[nl + 1]) == r.spec_code());
        assert(u16_of(e[nl + 2], e[nl + 3]) == spec_class_slot(r));
        assert(u32_of(e[nl + 4], e[nl + 5], e[nl + 6], e[nl + 7]) == spec_ttl_slot(r));
        assert(u16_of(e[nl + 8], e[nl + 9]) == rd.0.len() as u16);
        assert(spec_class_slot(r) == r.spec_class().spec_code());
        assert(crate::record::class_code_known(r.spec_class().spec_code()));
        assert(crate::record::spec_class_of_code(r.spec_class().spec_code()) == r.spec_class());
        let q = nl + 10;
        match r {
            RecordV::A { addr, .. } => {
                assert(rd.0 == be32(addr));
                lemma_be32_of(addr);
                assert(u32_of(e[q + 0], e[q + 1], e[q + 2], e[q + 3]) == addr);
                assert(spec_decode_record(e, 0)->Some_0.0 =~~= r);
            },
            RecordV::Null { data, .. } => {
                assert(rd.0 == data);
                assert(e.subrange(q, q + rd.0.len() as int) =~= data);
                assert(spec_decode_record(e, 0)->Some_0.0 =~~= r);
            },
            RecordV::Wks { addr, protocol, data, .. } => {
                assert(rd.0 == be32(addr) + seq![protocol] + data);
                lemma_be32_of(addr);
                assert(rd.0[0] == be32(addr)[0] && rd.0[1] == be32(addr)[1] && rd.0[2] == be32(
                    addr,
                )[2] && rd.0[3] == be32(addr)[3] && rd.0[4] == protocol);
                assert(u32_of(e[q + 0], e[q + 1], e[q + 2], e[q + 3]) == addr);
                assert(e[q + 4] == protocol);
                assert forall|j: int| 0 <= j < data.len() implies e.subrange(
                    q + 5,
                    q + rd.0.len() as int,
                )[j] == data[j] by {
                    assert(e[q + (5 + j)] == rd.0[5 + j]);
                    assert(rd.0[5 + j] == data[j]);
                }
                assert(e.subrange(q + 5, q + rd.0.len() as int) =~= data);
                assert(spec_decode_record(e, 0)->Some_0.0 =~~= r);
            },
            RecordV::Hinfo { cpu, os, .. } => {
                assert(rd.0 == seq![cpu.len() as u8] + cpu + seq![os.len() as u8] + os);
                let c = cpu.len() as int;
                let o = os.len() as int;
                assert(rd.0[0] == cpu.len() as u8);
                assert(e[q + 0] == rd.0[0]);
                assert(rd.0[1 + c] == os.len() as u8);
                assert(e[q + (1 + c)] == rd.0[1 + c]);
                assert forall|j: int| 0 <= j < c implies e.subrange(q + 1, q + 1 + c)[j]
                    == cpu[j] by {
                    assert(e[q + (1 + j)] == rd.0[1 + j]);
                    assert(rd.0[1 + j] == cpu[j]);
                }
                assert(e.subrange(q + 1, q + 1 + c) =~= cpu);
                assert forall|j: int| 0 <= j < o implies e.subrange(
                    q + 2 + c,
                    q + 2 + c + o,
                )[j] == os[j] by {
                    assert(e[q + (2 + c + j)] == rd.0[2 + c + j]);
                    assert(rd.0[2 + c + j] == os[j]);
                }
                assert(e.subrange(q + 2 + c, q + 2 + c + o) =~= os);
                assert(spec_decode_record(e, 0)->Some_0.0 =~~= r);
            },
            RecordV::Txt { content, .. } => {
                assert(rd.0 == txt_chunks(content));
                crate::record::lemma_txt_chunks_len(content);
                assert(e.subrange(q, q + rd.0.len() as int) =~= rd.0);
                lemma_txt_split_reassemble(content, e, q);
                assert(spec_decode_record(e, 0)->Some_0.0 =~~= r);
            },
            RecordV::Aaaa { addr, .. } => {
                assert(rd.0 == addr);
                assert(e.subrange(q, q + 16) =~= addr);
                assert(spec_decode_record(e, 0)->Some_0.0 =~~= r);
            },
            _ => {},
        }
        assert(spec_decode_record(e, 0) == Some((r, e.len() as int)));
    }
}

/// The packed ttl slot of an OPT pseudo-record unpacks to its fields.
proof fn lemma_opt_ttl_fields(e: u8, v: u8, d: bool)
    ensures
        (opt_ttl_of(e, v, d) as int) / 0x1000000 == e,
        ((opt_ttl_of(e, v, d) as int) / 0x10000) % 256 == v,
        ((opt_ttl_of(e, v, d) as int) / 0x8000) % 2 == (if d {
            1int
        } else {
            0int
        }),
{
    let di: int = if d {
        1
    } else {
        0
    };
    let t = (e as int) * 0x1000000 + (v as int) * 0x10000 + di * 0x8000;
    assert(opt_ttl_of(e, v, d) == t);
    assert(t / 0x1000000 == e && (t / 0x10000) % 256 == v && (t / 0x8000) % 2 == di)
        by (nonlinear_arith)
        requires
            t == (e as int) * 0x1000000 + (v as int) * 0x10000 + di * 0x8000,
            0 <= e < 256,
            0 <= v < 256,
            0 <= di <= 1,
    ;
}

/// An OPT pseudo-record round-trips: its encoding places the advertised
/// maximum response size in the class slot and the DNSSEC-OK flag in the
/// ttl slot, and decoding the encoding yields the record back, flag
/// included.
#[verifier::rlimit(100)]
#[verifier::spinoff_prover]
pub proof fn lemma_opt_round_trip(r: RecordV, occs: Seq<(Seq<Seq<u8>>, int)>)
    requires
        r is Opt,
        wf_record(r),
    ensures
        ({
            let e = spec_encode_record(r, occs, 0).0;
            &&& e.subrange(3, 5) == be16(r->Opt_max_response_size)
            &&& spec_decode_record(e, 0) == Some((r, e.len() as int))
        }),
{
    let nm = r.spec_name();
    assert(nm.len() == 1);
    assert(nm[0].len() == 0);
    assert(nm =~~= seq![Seq::<u8>::empty()]);
    let en = spec_encode_name(nm, occs, 0);
    assert(en == (seq![0u8], occs));
    let max = r->Opt_max_response_size;
    let ext = r->Opt_extended_rcode;
    let ver = r->Opt_version;
    let dns = r->Opt_dnssec_ok;
    let data = r->Opt_data;
    let tt = opt_ttl_of(ext, ver, dns);
    let head = seq![0u8] + be16(41u16) + be16(max) + be32(tt);
    let e = spec_encode_record(r, occs, 0).0;
    assert(e == head + be16(data.len() as u16) + data);
    assert(e.len() == 11 + data.len());
    assert(e[0] == 0);
    assert(e[1] == be16(41u16)[0] && e[2] == be16(41u16)[1]);
    assert(e[3] == be16(max)[0] && e[4] == be16(max)[1]);
    assert(e[5] == be32(tt)[0] && e[6] == be32(tt)[1] && e[7] == be32(tt)[2] && e[8] == be32(
        tt,
    )[3]);
    assert(e[9] == be16(data.len() as u16)[0] && e[10] == be16(data.len() as u16)[1]);
    assert(e.subrange(3, 5) =~= be16(max));
    // The name at the start of the encoding is the root name.
    assert(spec_name_at(e, 0) == Some((seq![Seq::<u8>::empty()], 1int)));
    assert(wf_name(seq![Seq::<u8>::empty()])) by {
        assert(seq![Seq::<u8>::empty()].drop_last() =~= Seq::<Seq<u8>>::empty());
        assert(crate::name::wire_len(Seq::<Seq<u8>>::empty()) == 0);
        assert(crate::name::wire_len(seq![Seq::<u8>::empty()]) == 1);
    }
    lemma_be16_of(41u16);
    lemma_be16_of(max);
    lemma_be16_of(data.len() as u16);
    lemma_be32_of(tt);
    assert(u16_of(e[1], e[2]) == 41);
    assert(u16_of(e[3], e[4]) == max);
    assert(u32_of(e[5], e[6], e[7], e[8]) == tt);
    assert(u16_of(e[9], e[10]) == data.len() as u16);
    lemma_opt_ttl_fields(ext, ver, dns);
    assert(e.subrange(11, 11 + data.len() as int) =~= data);
    let d = spec_decode_record(e, 0);
    assert(d matches Some(p) && p.1 == e.len() && p.0 is Opt);
    assert(d->Some_0.0 =~= r);
}

} // verus!
