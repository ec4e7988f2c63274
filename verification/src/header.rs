use vstd::prelude::*;

use crate::bytes::{be16, u16_of, Bytes};
use crate::error::DnsError;

verus! {

/// A DNS operation code.
#[derive(Debug, Clone, Copy, PartialEq, Eq, Structural)]
pub enum OperationCode {
    /// A standard query.
    Query,
    /// An inverse query.
    InverseQuery,
    /// A server status request.
    Status,
}

impl OperationCode {
    pub open spec fn spec_code(&self) -> u8 {
        match self {
            OperationCode::Query => 0,
            OperationCode::InverseQuery => 1,
            OperationCode::Status => 2,
        }
    }

    /// Returns the wire code of this operation code.
    pub fn code(&self) -> (r: u8)
        ensures
            r == self.spec_code(),
    {
        match self {
            OperationCode::Query => 0,
            OperationCode::InverseQuery => 1,
            OperationCode::Status => 2,
        }
    }

    /// Maps a wire code to an operation code; codes above 2 are unknown.
    pub fn from_code(value: u8) -> (r: Result<OperationCode, DnsError>)
        ensures
            match r {
                Ok(c) => c.spec_code() == value,
                Err(_) => value > 2,
            },
    {
        match value {
            0 => Ok(OperationCode::Query),
            1 => Ok(OperationCode::InverseQuery),
            2 => Ok(OperationCode::Status),
            _ => Err(DnsError::FormatError),
        }
    }
}

/// A DNS response code.
#[derive(Debug, Clone, Copy, PartialEq, Eq, Structural)]
pub enum ResponseCode {
    /// No error condition.
    Success,
    /// The name server was unable to interpret the query.
    FormatError,
    /// The name server was unable to process the query due to a problem
    /// with the name server.
    ServerFailure,
    /// The domain name referenced in the query does not exist.
    NameError,
    /// The name server does not support the requested kind of query.
    NotImplemented,
    /// The name server refuses to perform the specified operation for
    /// policy reasons.
    Refused,
}

impl ResponseCode {
    pub open spec fn spec_code(&self) -> u8 {
        match self {
            ResponseCode::Success => 0,
            ResponseCode::FormatError => 1,
            ResponseCode::ServerFailure => 2,
            ResponseCode::NameError => 3,
            ResponseCode::NotImplemented => 4,
            ResponseCode::Refused => 5,
        }
    }

    /// Returns the wire code of this response code.
    pub fn code(&self) -> (r: u8)
        ensures
            r == self.spec_code(),
    {
        match self {
            ResponseCode::Success => 0,
            ResponseCode::FormatError => 1,
            ResponseCode::ServerFailure => 2,
            ResponseCode::NameError => 3,
            ResponseCode::NotImplemented => 4,
            ResponseCode::Refused => 5,
        }
    }

    /// Maps a wire code to a response code; codes above 5 are unknown.
    pub fn from_code(value: u8) -> (r: Result<ResponseCode, DnsError>)
        ensures
            match r {
                Ok(c) => c.spec_code() == value,
                Err(_) => value > 5,
            },
    {
        match value {
            0 => Ok(ResponseCode::Success),
            1 => Ok(ResponseCode::FormatError),
            2 => Ok(ResponseCode::ServerFailure),
            3 => Ok(ResponseCode::NameError),
            4 => Ok(ResponseCode::NotImplemented),
            5 => Ok(ResponseCode::Refused),
            _ => Err(DnsError::FormatError),
        }
    }

    /// Returns the textual form of this response code.
    pub fn to_text(&self) -> (r: &'static str) {
        match self {
            ResponseCode::Success => "success",
            ResponseCode::FormatError => "format_error",
            ResponseCode::ServerFailure => "server_failure",
            ResponseCode::NameError => "nonexistent_domain",
            ResponseCode::NotImplemented => "not_implemented",
            ResponseCode::Refused => "refused",
        }
    }
}

/// A message header: the fixed twelve-octet prefix of every DNS message.
#[derive(Debug, Clone, Copy, PartialEq, Eq, Structural)]
pub struct Header {
    pub id: u16,
    pub is_response: bool,
    pub op_code: OperationCode,
    pub is_authority: bool,
    pub is_truncated: bool,
    pub recursion_desired: bool,
    pub recursion_available: bool,
    pub resp_code: ResponseCode,
    pub question_count: u16,
    pub answer_count: u16,
    pub authority_count: u16,
    pub additional_count: u16,
}

/// The first flags byte: `QR(1) | OP(4) | AA(1) | TC(1) | RD(1)` from the
/// most significant bit down.
pub open spec fn spec_flags1(h: Header) -> u8 {
    ((if h.is_response {
        128int
    } else {
        0
    }) + (h.op_code.spec_code() as int) * 8 + (if h.is_authority {
        4int
    } else {
        0
    }) + (if h.is_truncated {
        2int
    } else {
        0
    }) + (if h.recursion_desired {
        1int
    } else {
        0
    })) as u8
}

/// The second flags byte: `RA(1) | Z(3) | RC(4)`; the Z bits are emitted
/// as zero.
pub open spec fn spec_flags2(h: Header) -> u8 {
    ((if h.recursion_available {
        128int
    } else {
        0
    }) + h.resp_code.spec_code() as int) as u8
}

/// The twelve bytes a header encodes to.
pub open spec fn spec_encode_header(h: Header) -> Seq<u8> {
    be16(h.id) + seq![spec_flags1(h), spec_flags2(h)] + be16(h.question_count) + be16(
        h.answer_count,
    ) + be16(h.authority_count) + be16(h.additional_count)
}

/// The operation code a four-bit field below 3 decodes to.
pub open spec fn spec_op_of(v: u8) -> OperationCode {
    if v == 0 {
        OperationCode::Query
    } else if v == 1 {
        OperationCode::InverseQuery
    } else {
        OperationCode::Status
    }
}

/// The response code a four-bit field below 6 decodes to.
pub open spec fn spec_rc_of(v: u8) -> ResponseCode {
    if v == 0 {
        ResponseCode::Success
    } else if v == 1 {
        ResponseCode::FormatError
    } else if v == 2 {
        ResponseCode::ServerFailure
    } else if v == 3 {
        ResponseCode::NameError
    } else if v == 4 {
        ResponseCode::NotImplemented
    } else {
        ResponseCode::Refused
    }
}

/// The header decoded from twelve bytes at `pos`, and the position after
/// it. An unknown operation or response code is a format error; the Z
/// bits are ignored.
pub open spec fn spec_decode_header(buf: Seq<u8>, pos: int) -> Option<(Header, int)> {
    if pos < 0 || pos + 12 > buf.len() {
        None
    } else {
        let b1 = buf[pos + 2];
        let b2 = buf[pos + 3];
        let opraw = ((b1 / 8) % 16) as u8;
        let rcraw = (b2 % 16) as u8;
        if opraw > 2 || rcraw > 5 {
            None
        } else {
            Some(
                (
                    Header {
                        id: u16_of(buf[pos], buf[pos + 1]),
                        is_response: b1 / 128 == 1,
                        op_code: spec_op_of(opraw),
                        is_authority: (b1 / 4) % 2 == 1,
                        is_truncated: (b1 / 2) % 2 == 1,
                        recursion_desired: b1 % 2 == 1,
                        recursion_available: b2 / 128 == 1,
                        resp_code: spec_rc_of(rcraw),
                        question_count: u16_of(buf[pos + 4], buf[pos + 5]),
                        answer_count: u16_of(buf[pos + 6], buf[pos + 7]),
                        authority_count: u16_of(buf[pos + 8], buf[pos + 9]),
                        additional_count: u16_of(buf[pos + 10], buf[pos + 11]),
                    },
                    pos + 12,
                ),
            )
        }
    }
}

impl Header {
    /// Creates a Header from a byte stream.
    pub fn from_bytes(bytes: &mut Bytes) -> (r: Result<Header, DnsError>)
        requires
            old(bytes).wf(),
        ensures
            final(bytes).buf@ == old(bytes).buf@,
            final(bytes).occs() == old(bytes).occs(),
            final(bytes).wf(),
            match r {
                Ok(h) => spec_decode_header(old(bytes).buf@, old(bytes).pos as int) == Some(
                    (h, final(bytes).pos as int),
                ),
                Err(_) => spec_decode_header(old(bytes).buf@, old(bytes).pos as int) is None,
            },
    {
        let ghost buf0 = bytes.buf@;
        let ghost pos0 = bytes.pos as int;
        if bytes.buf.len() - bytes.pos() < 12 {
            return Err(DnsError::FormatError);
        }
        let id = match bytes.read_u16() {
            Some(v) => v,
            None => {
                return Err(DnsError::FormatError);
            },
        };
        let b1 = match bytes.read() {
            Some(v) => v,
            None => {
                return Err(DnsError::FormatError);
            },
        };
        let b2 = match bytes.read() {
            Some(v) => v,
            None => {
                return Err(DnsError::FormatError);
            },
        };
        let is_response = b1 / 128 == 1;
        let op_code = match OperationCode::from_code((b1 / 8) % 16) {
            Ok(c) => c,
            Err(e) => {
                return Err(e);
            },
        };
        let is_authority = (b1 / 4) % 2 == 1;
        let is_truncated = (b1 / 2) % 2 == 1;
        let recursion_desired = b1 % 2 == 1;
        let recursion_available = b2 / 128 == 1;
        let resp_code = match ResponseCode::from_code(b2 % 16) {
            Ok(c) => c,
            Err(e) => {
                return Err(e);
            },
        };
        let question_count = match bytes.read_u16() {
            Some(v) => v,
            None => {
                return Err(DnsError::FormatError);
            },
        };
        let answer_count = match bytes.read_u16() {
            Some(v) => v,
            None => {
                return Err(DnsError::FormatError);
            },
        };
        let authority_count = match bytes.read_u16() {
            Some(v) => v,
            None => {
                return Err(DnsError::FormatError);
            },
        };
        let additional_count = match bytes.read_u16() {
            Some(v) => v,
            None => {
                return Err(DnsError::FormatError);
            },
        };
        Ok(
            Header {
                id,
                is_response,
                op_code,
                is_authority,
                is_truncated,
                recursion_desired,
                recursion_available,
                resp_code,
                question_count,
                answer_count,
                authority_count,
                additional_count,
            },
        )
    }

    /// Converts a Header to a byte stream.
    pub fn to_bytes(&self, bytes: &mut Bytes)
        requires
            old(bytes).at_end(),
        ensures
            final(bytes).at_end(),
            final(bytes).buf@ == old(bytes).buf@ + spec_encode_header(*self),
            final(bytes).occs() == old(bytes).occs(),
    {
        bytes.write_u16(self.id);
        let mut codes1: u8 = 0;
        if self.is_response {
            codes1 = codes1 + 128;
        }
        codes1 = codes1 + self.op_code.code() * 8;
        if self.is_authority {
            codes1 = codes1 + 4;
        }
        if self.is_truncated {
            codes1 = codes1 + 2;
        }
        if self.recursion_desired {
            codes1 = codes1 + 1;
        }
        bytes.write(codes1);
        let mut codes2: u8 = 0;
        if self.recursion_available {
            codes2 = codes2 + 128;
        }
        codes2 = codes2 + self.resp_code.code();
        bytes.write(codes2);
        bytes.write_u16(self.question_count);
        bytes.write_u16(self.answer_count);
        bytes.write_u16(self.authority_count);
        bytes.write_u16(self.additional_count);
        proof {
            assert(bytes.buf@ =~= old(bytes).buf@ + spec_encode_header(*self));
        }
    }
}

/// The all-zero header: a query with no sections.
pub open spec fn spec_default_header() -> Header {
    Header {
        id: 0,
        is_response: false,
        op_code: OperationCode::Query,
        is_authority: false,
        is_truncated: false,
        recursion_desired: false,
        recursion_available: false,
        resp_code: ResponseCode::Success,
        question_count: 0,
        answer_count: 0,
        authority_count: 0,
        additional_count: 0,
    }
}

impl Default for Header {
    /// An all-zero header: a query with no sections.
    fn default() -> (r: Header)
        ensures
            r == spec_default_header(),
            r == (Header {
                id: 0,
                is_response: false,
                op_code: OperationCode::Query,
                is_authority: false,
                is_truncated: false,
                recursion_desired: false,
                recursion_available: false,
                resp_code: ResponseCode::Success,
                question_count: 0,
                answer_count: 0,
                authority_count: 0,
                additional_count: 0,
            }),
    {
        Header {
            id: 0,
            is_response: false,
            op_code: OperationCode::Query,
            is_authority: false,
            is_truncated: false,
            recursion_desired: false,
            recursion_available: false,
            resp_code: ResponseCode::Success,
            question_count: 0,
            answer_count: 0,
            authority_count: 0,
            additional_count: 0,
        }
    }
}

/// Decoding an encoded header yields the header back, wherever it stands
/// in a message.
pub proof fn lemma_header_round_trip(h: Header, buf: Seq<u8>, pos: int)
    requires
        0 <= pos,
        pos + 12 <= buf.len(),
        buf.subrange(pos, pos + 12) == spec_encode_header(h),
    ensures
        spec_decode_header(buf, pos) == Some((h, pos + 12)),
{
    let e = spec_encode_header(h);
    assert forall|k: int| 0 <= k < 12 implies buf[pos + k] == e[k] by {
        assert(buf.subrange(pos, pos + 12)[k] == buf[pos + k]);
    }
    assert(e[0] == be16(h.id)[0] && e[1] == be16(h.id)[1]);
    assert(e[2] == spec_flags1(h) && e[3] == spec_flags2(h));
    assert(e[4] == be16(h.question_count)[0] && e[5] == be16(h.question_count)[1]);
    assert(e[6] == be16(h.answer_count)[0] && e[7] == be16(h.answer_count)[1]);
    assert(e[8] == be16(h.authority_count)[0] && e[9] == be16(h.authority_count)[1]);
    assert(e[10] == be16(h.additional_count)[0] && e[11] == be16(h.additional_count)[1]);
    crate::bytes::lemma_be16_of(h.id);
    crate::bytes::lemma_be16_of(h.question_count);
    crate::bytes::lemma_be16_of(h.answer_count);
    crate::bytes::lemma_be16_of(h.authority_count);
    crate::bytes::lemma_be16_of(h.additional_count);
    let b1 = spec_flags1(h);
    let b2 = spec_flags2(h);
    let qr: int = if h.is_response {
        1
    } else {
        0
    };
    let op = h.op_code.spec_code() as int;
    let aa: int = if h.is_authority {
        1
    } else {
        0
    };
    let tc: int = if h.is_truncated {
        1
    } else {
        0
    };
    let rd: int = if h.recursion_desired {
        1
    } else {
        0
    };
    assert(b1 == qr * 128 + op * 8 + aa * 4 + tc * 2 + rd);
    assert(0 <= qr <= 1 && 0 <= op <= 2 && 0 <= aa <= 1 && 0 <= tc <= 1 && 0 <= rd <= 1);
    assert((qr * 128 + op * 8 + aa * 4 + tc * 2 + rd) / 128 == qr && ((qr * 128 + op * 8 + aa * 4
        + tc * 2 + rd) / 8) % 16 == op && ((qr * 128 + op * 8 + aa * 4 + tc * 2 + rd) / 4) % 2
        == aa && ((qr * 128 + op * 8 + aa * 4 + tc * 2 + rd) / 2) % 2 == tc && (qr * 128 + op * 8
        + aa * 4 + tc * 2 + rd) % 2 == rd) by (nonlinear_arith)
        requires
            0 <= qr <= 1 && 0 <= op <= 2 && 0 <= aa <= 1 && 0 <= tc <= 1 && 0 <= rd <= 1,
    ;
    let ra: int = if h.recursion_available {
        1
    } else {
        0
    };
    let rc = h.resp_code.spec_code() as int;
    assert(b2 == ra * 128 + rc);
    assert((ra * 128 + rc) / 128 == ra && (ra * 128 + rc) % 16 == rc) by (nonlinear_arith)
        requires
            0 <= ra <= 1 && 0 <= rc <= 5,
    ;
}

} // verus!
