use vstd::prelude::*;

use crate::bytes::{be16, spec_find_occ, u16_of, Bytes};
use crate::error::DnsError;
use crate::name::{labels_view, wf_label, wf_name, Label, Name};

verus! {

// ---------------------------------------------------------------------------
// Name encoding with compression
// ---------------------------------------------------------------------------

/// The two bytes of a compression pointer to `off`: the top two bits set,
/// the low fourteen bits the absolute offset.
pub open spec fn ptr_bytes(off: int) -> Seq<u8> {
    seq![(192 + off / 256) as u8, (off % 256) as u8]
}

/// All offsets recorded for compression are representable in the fourteen
/// bits of a pointer.
pub open spec fn occs_wf(os: Seq<(Seq<Seq<u8>>, int)>) -> bool {
    forall|i: int| 0 <= i < os.len() ==> 0 <= (#[trigger] os[i]).1 < 0x4000
}

/// The bytes a name's suffixes from `i` on encode to, together with the
/// first-occurrence table afterwards. Starting at suffix `i` and cursor
/// position `pos`: the root label encodes as a single zero byte; a suffix
/// already in the table encodes as a pointer to its first occurrence; any
/// other suffix is recorded (when its offset fits in a pointer) and
/// contributes its leading label.
pub open spec fn spec_encode_name_from(
    ls: Seq<Seq<u8>>,
    i: int,
    occs: Seq<(Seq<Seq<u8>>, int)>,
    pos: int,
) -> (Seq<u8>, Seq<(Seq<Seq<u8>>, int)>)
    decreases ls.len() - i,
{
    if i < 0 || i >= ls.len() {
        (Seq::<u8>::empty(), occs)
    } else if i == ls.len() - 1 {
        (seq![0u8], occs)
    } else {
        match spec_find_occ(occs, ls.skip(i)) {
            Some(off) => (ptr_bytes(off), occs),
            None => {
                let occs1 = if pos < 0x4000 {
                    occs.push((ls.skip(i), pos))
                } else {
                    occs
                };
                let lb = seq![ls[i].len() as u8] + ls[i];
                let rest = spec_encode_name_from(ls, i + 1, occs1, pos + lb.len());
                (lb + rest.0, rest.1)
            },
        }
    }
}

/// The bytes a whole name encodes to at cursor position `pos` with
/// first-occurrence table `occs`.
pub open spec fn spec_encode_name(
    ls: Seq<Seq<u8>>,
    occs: Seq<(Seq<Seq<u8>>, int)>,
    pos: int,
) -> (Seq<u8>, Seq<(Seq<Seq<u8>>, int)>) {
    spec_encode_name_from(ls, 0, occs, pos)
}

proof fn lemma_ptr_encode(off: u16)
    requires
        off < 0x4000,
    ensures
        be16(0xC000u16 | off) =~= ptr_bytes(off as int),
{
    assert((0xC000u16 | off) == 0xC000 + off) by (bit_vector)
        requires
            off < 0x4000,
    ;
    assert((0xC000 + off) / 256 == 192 + off / 256 && (0xC000 + off) % 256 == off % 256)
        by (nonlinear_arith);
}

proof fn lemma_ptr_decode(hi: u8, lo: u8)
    requires
        hi >= 0xC0,
    ensures
        (u16_of(hi, lo) & 0x3FFF) == ((hi - 0xC0) as int) * 256 + lo as int,
{
    assert(((((hi as u16) * 256 + (lo as u16)) as u16) & 0x3FFF) == ((((hi as u16) - 0xC0) * 256
        + (lo as u16)) as u16)) by (bit_vector)
        requires
            hi >= 0xC0,
    ;
}

/// The label read at `pos`: one length octet, then that many content
/// octets. `None` is a format error.
pub open spec fn spec_decode_label(buf: Seq<u8>, pos: int) -> Option<(Seq<u8>, int)> {
    if pos < 0 || pos >= buf.len() {
        None
    } else {
        let len = buf[pos] as int;
        if pos + 1 + len > buf.len() {
            None
        } else {
            Some((buf.subrange(pos + 1, pos + 1 + len), pos + 1 + len))
        }
    }
}

impl Label {
    /// Reads one label from the cursor: a length octet and its content,
    /// rejected when truncated or outside the label grammar.
    pub fn from_bytes(bytes: &mut Bytes) -> (r: Result<Label, DnsError>)
        requires
            old(bytes).wf(),
        ensures
            final(bytes).buf@ == old(bytes).buf@,
            final(bytes).occs() == old(bytes).occs(),
            final(bytes).wf(),
            match r {
                Ok(l) => spec_decode_label(old(bytes).buf@, old(bytes).pos as int) matches Some(
                    d,
                ) && d.0 == l@ && d.1 == final(bytes).pos && wf_label(l@),
                Err(_) => match spec_decode_label(old(bytes).buf@, old(bytes).pos as int) {
                    Some(d) => !wf_label(d.0),
                    None => true,
                },
            },
    {
        let len = match bytes.read() {
            Some(v) => v,
            None => {
                return Err(DnsError::FormatError);
            },
        };
        let content = match bytes.read_exact(len as usize) {
            Some(v) => v,
            None => {
                return Err(DnsError::FormatError);
            },
        };
        Label::from_bytes_vec(content)
    }

    /// Writes this label at the cursor: its length octet, then its
    /// content.
    pub fn to_bytes(&self, bytes: &mut Bytes)
        requires
            self.wf(),
            old(bytes).at_end(),
        ensures
            final(bytes).at_end(),
            final(bytes).buf@ == old(bytes).buf@ + seq![self@.len() as u8] + self@,
            final(bytes).occs() == old(bytes).occs(),
    {
        bytes.write(self.len());
        bytes.write_all(self.bytes.as_slice());
    }
}

impl Name {
    /// Writes this name at the cursor with RFC 1035 compression: the
    /// longest suffix already seen is emitted as a two-octet pointer, and
    /// every suffix written in full is recorded for later names.
    pub fn to_bytes(&self, bytes: &mut Bytes)
        requires
            self.wf(),
            old(bytes).at_end(),
            occs_wf(old(bytes).occs()),
        ensures
            final(bytes).at_end(),
            occs_wf(final(bytes).occs()),
            ({
                let e = spec_encode_name(self@, old(bytes).occs(), old(bytes).pos as int);
                &&& final(bytes).buf@ == old(bytes).buf@ + e.0
                &&& final(bytes).occs() == e.1
            }),
    {
        let ghost ls = self@;
        let ghost occs0 = bytes.occs();
        let ghost buf0 = bytes.buf@;
        let ghost pos0 = bytes.pos as int;
        let n = self.labels.len();
        let mut i: usize = 0;
        proof {
            assert(spec_encode_name(ls, occs0, pos0) == spec_encode_name_from(ls, 0, occs0, pos0));
        }
        while i < n - 1
            invariant
                n == self.labels@.len() >= 1,
                ls == self@,
                buf0 == old(bytes).buf@,
                occs0 == old(bytes).occs(),
                pos0 == old(bytes).pos as int,
                self.wf(),
                i < n,
                bytes.at_end(),
                occs_wf(bytes.occs()),
                buf0.len() <= bytes.buf@.len(),
                bytes.buf@.take(buf0.len() as int) == buf0,
                ({
                    let e = spec_encode_name_from(ls, i as int, bytes.occs(), bytes.pos as int);
                    &&& spec_encode_name(ls, occs0, pos0).0 == bytes.buf@.skip(
                        buf0.len() as int,
                    ) + e.0
                    &&& spec_encode_name(ls, occs0, pos0).1 == e.1
                }),
            decreases n - 1 - i,
        {
            let suffix = self.suffix_name(i);
            let start_pos = bytes.pos();
            let ghost pre_buf = bytes.buf@;
            let ghost pre_occs = bytes.occs();
            let ghost pre_pos = bytes.pos as int;
            proof {
                assert(suffix@ == ls.skip(i as int));
            }
            match bytes.find_first_occ(&suffix) {
                Some(offset) => {
                    proof {
                        assert(spec_find_occ(pre_occs, ls.skip(i as int)) == Some(offset as int));
                        lemma_occ_found_wf(pre_occs, ls.skip(i as int));
                    }
                    let ptr: u16 = 0xC000u16 | (offset as u16);
                    proof {
                        lemma_ptr_encode(offset as u16);
                    }
                    bytes.write_u16(ptr);
                    proof {
                        assert(spec_encode_name_from(ls, i as int, pre_occs, pre_pos) == (
                        ptr_bytes(offset as int),
                        pre_occs,
                        ));
                        assert(bytes.buf@.skip(buf0.len() as int) =~= pre_buf.skip(
                            buf0.len() as int,
                        ) + be16(ptr));
                        assert(bytes.buf@.take(buf0.len() as int) =~= buf0);
                        assert(bytes.buf@ =~= buf0 + bytes.buf@.skip(buf0.len() as int));
                        assert(bytes.buf@ =~= old(bytes).buf@ + spec_encode_name(
                            ls,
                            occs0,
                            pos0,
                        ).0);
                    }
                    return ;
                },
                None => {
                    if start_pos < 0x4000 {
                        bytes.set_first_occ(&suffix, start_pos);
                    }
                    let l = &self.labels[i];
                    proof {
                        assert(l@ == ls[i as int]);
                        assert(wf_label(ls[i as int]));
                    }
                    let len = l.bytes.len() as u8;
                    bytes.write(len);
                    bytes.write_all(l.bytes.as_slice());
                    proof {
                        let lb = seq![ls[i as int].len() as u8] + ls[i as int];
                        assert(bytes.buf@ =~= pre_buf + lb);
                        assert(bytes.occs() == if pre_pos < 0x4000 {
                            pre_occs.push((ls.skip(i as int), pre_pos))
                        } else {
                            pre_occs
                        });
                        assert(bytes.pos == pre_pos + lb.len());
                        assert(spec_encode_name_from(ls, i as int, pre_occs, pre_pos) == {
                            let rest = spec_encode_name_from(
                                ls,
                                i + 1,
                                bytes.occs(),
                                bytes.pos as int,
                            );
                            (lb + rest.0, rest.1)
                        });
                        assert(bytes.buf@.take(buf0.len() as int) =~= buf0);
                        assert(bytes.buf@.skip(buf0.len() as int) =~= pre_buf.skip(
                            buf0.len() as int,
                        ) + lb);
                        assert(bytes.buf@.skip(buf0.len() as int) + spec_encode_name_from(
                            ls,
                            i + 1,
                            bytes.occs(),
                            bytes.pos as int,
                        ).0 =~= pre_buf.skip(buf0.len() as int) + (lb + spec_encode_name_from(
                            ls,
                            i + 1,
                            bytes.occs(),
                            bytes.pos as int,
                        ).0));
                    }
                    i = i + 1;
                },
            }
        }
        // The remaining suffix is the root name: a single zero byte.
        let ghost pre_buf = bytes.buf@;
        bytes.write(0);
        proof {
            assert(spec_encode_name_from(ls, i as int, bytes.occs(), pre_buf.len() as int) == (
            seq![0u8],
            bytes.occs(),
            ));
            assert(bytes.buf@.skip(buf0.len() as int) =~= pre_buf.skip(buf0.len() as int) + seq![
                0u8,
            ]);
            assert(bytes.buf@.take(buf0.len() as int) =~= buf0);
            assert(bytes.buf@ =~= old(bytes).buf@ + spec_encode_name(ls, occs0, pos0).0);
        }
    }
}

/// A found offset satisfies the table's bound.
proof fn lemma_occ_found_wf(os: Seq<(Seq<Seq<u8>>, int)>, n: Seq<Seq<u8>>)
    requires
        occs_wf(os),
        spec_find_occ(os, n) is Some,
    ensures
        0 <= spec_find_occ(os, n)->Some_0 < 0x4000,
    decreases os.len(),
{
    if os.len() > 0 && os[0].0 != n {
        assert(forall|i: int| 0 <= i < os.skip(1).len() ==> os.skip(1)[i] == os[i + 1]);
        lemma_occ_found_wf(os.skip(1), n);
    }
}

// ---------------------------------------------------------------------------
// Name decoding
// ---------------------------------------------------------------------------

/// The labels a name decodes to from `buf` at `pos`, and the position of
/// the cursor afterwards: one past the root label, or one past the first
/// pointer followed. A label runs the cursor forward; a pointer hops to
/// an offset that must lie strictly before `max`, the offset of the most
/// recent hop, which rules out pointer loops. `None` is a format error.
pub open spec fn spec_decode_name(buf: Seq<u8>, pos: int, max: int) -> Option<
    (Seq<Seq<u8>>, int),
>
    decreases max, buf.len() - pos,
{
    if pos < 0 || pos >= buf.len() || max < 0 {
        None
    } else {
        let signal = buf[pos];
        if signal >= 0xC0 {
            if pos + 2 > buf.len() {
                None
            } else {
                let off = ((signal - 0xC0) as int) * 256 + buf[pos + 1] as int;
                if off >= max {
                    None
                } else {
                    match spec_decode_name(buf, off, off) {
                        Some(r) => Some((r.0, pos + 2)),
                        None => None,
                    }
                }
            }
        } else {
            let len = signal as int;
            if pos + 1 + len > buf.len() {
                None
            } else if len == 0 {
                Some((seq![Seq::<u8>::empty()], pos + 1))
            } else {
                match spec_decode_name(buf, pos + 1 + len, max) {
                    Some(r) => Some((seq![buf.subrange(pos + 1, pos + 1 + len)] + r.0, r.1)),
                    None => None,
                }
            }
        }
    }
}

/// The name read at `pos`: pointers may only hop strictly backwards from
/// `pos`.
pub open spec fn spec_name_at(buf: Seq<u8>, pos: int) -> Option<(Seq<Seq<u8>>, int)> {
    spec_decode_name(buf, pos, pos)
}

impl Name {
    /// Reads a name from the cursor, following compression pointers.
    ///
    /// Returns a format error on truncation, on a pointer whose target is
    /// not strictly before the most recently hopped-to offset, and on a
    /// label sequence that is not a well-formed name.
    pub fn from_bytes(bytes: &mut Bytes) -> (r: Result<Name, DnsError>)
        requires
            old(bytes).wf(),
        ensures
            final(bytes).buf@ == old(bytes).buf@,
            final(bytes).occs() == old(bytes).occs(),
            final(bytes).wf(),
            match r {
                Ok(n) => {
                    &&& spec_name_at(old(bytes).buf@, old(bytes).pos as int) matches Some(d)
                        && d.0 == n@ && d.1 == final(bytes).pos
                    &&& n.wf()
                },
                Err(_) => match spec_name_at(old(bytes).buf@, old(bytes).pos as int) {
                    Some(d) => !wf_name(d.0),
                    None => true,
                },
            },
    {
        let ghost buf0 = bytes.buf@;
        let ghost start = bytes.pos as int;
        let mut labels: Vec<Label> = Vec::new();
        let mut restore: Option<usize> = None;
        let mut max: usize = bytes.pos();
        proof {
            assert(labels_view(labels@) =~= Seq::<Seq<u8>>::empty());
            assert(Seq::<Seq<u8>>::empty() + spec_decode_name(buf0, start, start)->Some_0.0
                =~= spec_decode_name(buf0, start, start)->Some_0.0);
        }
        loop
            invariant_except_break
                ({
                    let whole = spec_decode_name(buf0, start, start);
                    let rest = spec_decode_name(buf0, bytes.pos as int, max as int);
                    match rest {
                        None => whole is None,
                        Some(d) => whole matches Some(w) && w.0 == labels_view(labels@) + d.0
                            && w.1 == (match restore {
                            Some(p) => p as int,
                            None => d.1,
                        }),
                    }
                }),
            invariant
                bytes.wf(),
                buf0 == old(bytes).buf@,
                start == old(bytes).pos as int,
                bytes.buf@ == buf0,
                bytes.occs() == old(bytes).occs(),
                max <= buf0.len(),
                restore matches Some(p) ==> p <= buf0.len(),
            ensures
                spec_decode_name(buf0, start, start) matches Some(w) && w.0 == labels_view(
                    labels@,
                ) && w.1 == (match restore {
                    Some(p) => p as int,
                    None => bytes.pos as int,
                }),
            decreases max, buf0.len() - bytes.pos,
        {
            let ghost pos_i = bytes.pos as int;
            let signal = match bytes.peek() {
                Some(s) => s,
                None => {
                    return Err(DnsError::FormatError);
                },
            };
            if signal >= 0xC0 {
                let ptr = match bytes.read_u16() {
                    Some(p) => p,
                    None => {
                        return Err(DnsError::FormatError);
                    },
                };
                let offset = (ptr & 0x3FFF) as usize;
                proof {
                    lemma_ptr_decode(buf0[pos_i], buf0[pos_i + 1]);
                    assert(offset == ((signal - 0xC0) as int) * 256 + buf0[pos_i + 1] as int);
                }
                if offset >= max {
                    return Err(DnsError::FormatError);
                }
                if restore.is_none() {
                    restore = Some(bytes.pos());
                }
                bytes.seek(offset);
                max = offset;
            } else {
                let len = match bytes.read() {
                    Some(_) => signal as usize,
                    None => {
                        return Err(DnsError::FormatError);
                    },
                };
                let content = match bytes.read_exact(len) {
                    Some(v) => v,
                    None => {
                        proof {
                            assert(spec_decode_name(buf0, pos_i, max as int) is None);
                        }
                        return Err(DnsError::FormatError);
                    },
                };
                let is_root = len == 0;
                labels.push(Label { bytes: content });
                proof {
                    assert(labels_view(labels@) =~= labels_view(labels@.drop_last()) + seq![
                        labels@.last()@,
                    ]);
                    if !is_root {
                        assert(labels_view(labels@.drop_last()) + (seq![
                            buf0.subrange(pos_i + 1, pos_i + 1 + len),
                        ] + spec_decode_name(buf0, bytes.pos as int, max as int)->Some_0.0)
                            =~= labels_view(labels@) + spec_decode_name(
                            buf0,
                            bytes.pos as int,
                            max as int,
                        )->Some_0.0);
                    }
                }
                if is_root {
                    proof {
                        assert(labels@.last()@ =~= Seq::<u8>::empty());
                        assert(labels_view(labels@.drop_last()) + seq![Seq::<u8>::empty()]
                            =~~= labels_view(labels@));
                    }
                    break ;
                }
            }
        }
        if let Some(p) = restore {
            bytes.seek(p);
        }
        match Name::from_labels(labels) {
            Ok(n) => Ok(n),
            Err(_) => Err(DnsError::FormatError),
        }
    }
}

} // verus!
