use vstd::prelude::*;
use vstd::string::StrSliceExecFns;
use vstd::string::StringSliceAdditionalSpecFns;

use crate::bytes::{be16, u16_of, Bytes};
use crate::codec::{occs_wf, spec_encode_name, spec_name_at};
use crate::error::DnsError;
use crate::name::{wf_name, Name};

verus! {

/// The type of a DNS question: a superset of the record types.
#[derive(Debug, Clone, Copy, PartialEq, Eq, Structural)]
pub enum QuestionType {
    /// A host address.
    A,
    /// An authoritative name server.
    NS,
    /// A mail destination (deprecated in favor of MX).
    MD,
    /// A mail forwarder (deprecated in favor of MX).
    MF,
    /// The canonical name for an alias.
    CNAME,
    /// Marks the start of a zone of authority.
    SOA,
    /// A mailbox domain name (experimental).
    MB,
    /// A mail group member (experimental).
    MG,
    /// A mail rename domain name (experimental).
    MR,
    /// A null record (experimental).
    NULL,
    /// A well known service description.
    WKS,
    /// A domain name pointer.
    PTR,
    /// Host information.
    HINFO,
    /// Mailbox or mail list information.
    MINFO,
    /// Mail exchange.
    MX,
    /// Text strings.
    TXT,
    /// A request for a transfer of an entire zone.
    AXFR,
    /// A request for mailbox-related records (MB, MG or MR).
    MAILB,
    /// A request for mail agent records (deprecated in favor of MX).
    MAILA,
    /// A request for all records.
    ALL,
}

impl QuestionType {
    pub open spec fn spec_code(&self) -> u16 {
        match self {
            QuestionType::A => 1,
            QuestionType::NS => 2,
            QuestionType::MD => 3,
            QuestionType::MF => 4,
            QuestionType::CNAME => 5,
            QuestionType::SOA => 6,
            QuestionType::MB => 7,
            QuestionType::MG => 8,
            QuestionType::MR => 9,
            QuestionType::NULL => 10,
            QuestionType::WKS => 11,
            QuestionType::PTR => 12,
            QuestionType::HINFO => 13,
            QuestionType::MINFO => 14,
            QuestionType::MX => 15,
            QuestionType::TXT => 16,
            QuestionType::AXFR => 252,
            QuestionType::MAILB => 253,
            QuestionType::MAILA => 254,
            QuestionType::ALL => 255,
        }
    }

    /// Returns the wire code for this type.
    pub fn code(&self) -> (r: u16)
        ensures
            r == self.spec_code(),
    {
        match self {
            QuestionType::A => 1,
            QuestionType::NS => 2,
            QuestionType::MD => 3,
            QuestionType::MF => 4,
            QuestionType::CNAME => 5,
            QuestionType::SOA => 6,
            QuestionType::MB => 7,
            QuestionType::MG => 8,
            QuestionType::MR => 9,
            QuestionType::NULL => 10,
            QuestionType::WKS => 11,
            QuestionType::PTR => 12,
            QuestionType::HINFO => 13,
            QuestionType::MINFO => 14,
            QuestionType::MX => 15,
            QuestionType::TXT => 16,
            QuestionType::AXFR => 252,
            QuestionType::MAILB => 253,
            QuestionType::MAILA => 254,
            QuestionType::ALL => 255,
        }
    }

    /// Maps a wire code to a question type; anything outside 1 to 16 and
    /// 252 to 255 is unknown.
    pub fn from_code(value: u16) -> (r: Result<QuestionType, DnsError>)
        ensures
            match r {
                Ok(t) => t.spec_code() == value,
                Err(_) => !qtype_code_known(value),
            },
    {
        match value {
            1 => Ok(QuestionType::A),
            2 => Ok(QuestionType::NS),
            3 => Ok(QuestionType::MD),
            4 => Ok(QuestionType::MF),
            5 => Ok(QuestionType::CNAME),
            6 => Ok(QuestionType::SOA),
            7 => Ok(QuestionType::MB),
            8 => Ok(QuestionType::MG),
            9 => Ok(QuestionType::MR),
            10 => Ok(QuestionType::NULL),
            11 => Ok(QuestionType::WKS),
            12 => Ok(QuestionType::PTR),
            13 => Ok(QuestionType::HINFO),
            14 => Ok(QuestionType::MINFO),
            15 => Ok(QuestionType::MX),
            16 => Ok(QuestionType::TXT),
            252 => Ok(QuestionType::AXFR),
            253 => Ok(QuestionType::MAILB),
            254 => Ok(QuestionType::MAILA),
            255 => Ok(QuestionType::ALL),
            _ => Err(DnsError::FormatError),
        }
    }

    /// Parses the upper-case code of a question type.
    pub fn from_str(s: &str) -> (r: Result<QuestionType, DnsError>)
        ensures
            match r {
                Ok(t) => spec_qtype_of_bytes(s.spec_bytes()) == Some(t),
                Err(_) => spec_qtype_of_bytes(s.spec_bytes()) is None,
            },
    {
        let b = s.as_bytes_vec();
        let n = b.len();
        if n == 1 && b[0] == 65 {
            Ok(QuestionType::A)
        } else if n == 2 && b[0] == 78 && b[1] == 83 {
            Ok(QuestionType::NS)
        } else if n == 2 && b[0] == 77 && b[1] == 68 {
            Ok(QuestionType::MD)
        } else if n == 2 && b[0] == 77 && b[1] == 70 {
            Ok(QuestionType::MF)
        } else if n == 5 && b[0] == 67 && b[1] == 78 && b[2] == 65 && b[3] == 77 && b[4]
            == 69 {
            Ok(QuestionType::CNAME)
        } else if n == 3 && b[0] == 83 && b[1] == 79 && b[2] == 65 {
            Ok(QuestionType::SOA)
        } else if n == 2 && b[0] == 77 && b[1] == 66 {
            Ok(QuestionType::MB)
        } else if n == 2 && b[0] == 77 && b[1] == 71 {
            Ok(QuestionType::MG)
        } else if n == 2 && b[0] == 77 && b[1] == 82 {
            Ok(QuestionType::MR)
        } else if n == 4 && b[0] == 78 && b[1] == 85 && b[2] == 76 && b[3] == 76 {
            Ok(QuestionType::NULL)
        } else if n == 3 && b[0] == 87 && b[1] == 75 && b[2] == 83 {
            Ok(QuestionType::WKS)
        } else if n == 3 && b[0] == 80 && b[1] == 84 && b[2] == 82 {
            Ok(QuestionType::PTR)
        } else if n == 5 && b[0] == 72 && b[1] == 73 && b[2] == 78 && b[3] == 70 && b[4]
            == 79 {
            Ok(QuestionType::HINFO)
        } else if n == 5 && b[0] == 77 && b[1] == 73 && b[2] == 78 && b[3] == 70 && b[4]
            == 79 {
            Ok(QuestionType::MINFO)
        } else if n == 2 && b[0] == 77 && b[1] == 88 {
            Ok(QuestionType::MX)
        } else if n == 3 && b[0] == 84 && b[1] == 88 && b[2] == 84 {
            Ok(QuestionType::TXT)
        } else if n == 4 && b[0] == 65 && b[1] == 88 && b[2] == 70 && b[3] == 82 {
            Ok(QuestionType::AXFR)
        } else if n == 5 && b[0] == 77 && b[1] == 65 && b[2] == 73 && b[3] == 76 && b[4]
            == 66 {
            Ok(QuestionType::MAILB)
        } else if n == 5 && b[0] == 77 && b[1] == 65 && b[2] == 73 && b[3] == 76 && b[4]
            == 65 {
            Ok(QuestionType::MAILA)
        } else if n == 3 && b[0] == 65 && b[1] == 76 && b[2] == 76 {
            Ok(QuestionType::ALL)
        } else {
            Err(DnsError::FormatError)
        }
    }
}

/// Whether a wire code names a question type.
pub open spec fn qtype_code_known(v: u16) -> bool {
    (1 <= v && v <= 16) || (252 <= v && v <= 255)
}

/// The question type an upper-case code parses to.
pub open spec fn spec_qtype_of_bytes(b: Seq<u8>) -> Option<QuestionType> {
    if b.len() == 1 && b[0] == 65 {
        Some(QuestionType::A)
    } else if b.len() == 2 && b[0] == 78 && b[1] == 83 {
        Some(QuestionType::NS)
    } else if b.len() == 2 && b[0] == 77 && b[1] == 68 {
        Some(QuestionType::MD)
    } else if b.len() == 2 && b[0] == 77 && b[1] == 70 {
        Some(QuestionType::MF)
    } else if b.len() == 5 && b[0] == 67 && b[1] == 78 && b[2] == 65 && b[3] == 77 && b[4] == 69 {
        Some(QuestionType::CNAME)
    } else if b.len() == 3 && b[0] == 83 && b[1] == 79 && b[2] == 65 {
        Some(QuestionType::SOA)
    } else if b.len() == 2 && b[0] == 77 && b[1] == 66 {
        Some(QuestionType::MB)
    } else if b.len() == 2 && b[0] == 77 && b[1] == 71 {
        Some(QuestionType::MG)
    } else if b.len() == 2 && b[0] == 77 && b[1] == 82 {
        Some(QuestionType::MR)
    } else if b.len() == 4 && b[0] == 78 && b[1] == 85 && b[2] == 76 && b[3] == 76 {
        Some(QuestionType::NULL)
    } else if b.len() == 3 && b[0] == 87 && b[1] == 75 && b[2] == 83 {
        Some(QuestionType::WKS)
    } else if b.len() == 3 && b[0] == 80 && b[1] == 84 && b[2] == 82 {
        Some(QuestionType::PTR)
    } else if b.len() == 5 && b[0] == 72 && b[1] == 73 && b[2] == 78 && b[3] == 70 && b[4] == 79 {
        Some(QuestionType::HINFO)
    } else if b.len() == 5 && b[0] == 77 && b[1] == 73 && b[2] == 78 && b[3] == 70 && b[4] == 79 {
        Some(QuestionType::MINFO)
    } else if b.len() == 2 && b[0] == 77 && b[1] == 88 {
        Some(QuestionType::MX)
    } else if b.len() == 3 && b[0] == 84 && b[1] == 88 && b[2] == 84 {
        Some(QuestionType::TXT)
    } else if b.len() == 4 && b[0] == 65 && b[1] == 88 && b[2] == 70 && b[3] == 82 {
        Some(QuestionType::AXFR)
    } else if b.len() == 5 && b[0] == 77 && b[1] == 65 && b[2] == 73 && b[3] == 76 && b[4] == 66 {
        Some(QuestionType::MAILB)
    } else if b.len() == 5 && b[0] == 77 && b[1] == 65 && b[2] == 73 && b[3] == 76 && b[4] == 65 {
        Some(QuestionType::MAILA)
    } else if b.len() == 3 && b[0] == 65 && b[1] == 76 && b[2] == 76 {
        Some(QuestionType::ALL)
    } else {
        None
    }
}

/// The class of a DNS question: the record classes plus ANY.
#[derive(Debug, Clone, Copy, PartialEq, Eq, Structural)]
pub enum QuestionClass {
    /// Internet.
    In,
    /// CS Net.
    Cs,
    /// Chaos.
    Ch,
    /// Hesiod.
    Hs,
    /// Any class.
    Any,
}

impl QuestionClass {
    pub open spec fn spec_code(&self) -> u16 {
        match self {
            QuestionClass::In => 1,
            QuestionClass::Cs => 2,
            QuestionClass::Ch => 3,
            QuestionClass::Hs => 4,
            QuestionClass::Any => 255,
        }
    }

    /// Returns the wire code for this class.
    pub fn code(&self) -> (r: u16)
        ensures
            r == self.spec_code(),
    {
        match self {
            QuestionClass::In => 1,
            QuestionClass::Cs => 2,
            QuestionClass::Ch => 3,
            QuestionClass::Hs => 4,
            QuestionClass::Any => 255,
        }
    }

    /// Maps a wire code to a question class; anything outside 1 to 4 and
    /// 255 is unknown.
    pub fn from_code(value: u16) -> (r: Result<QuestionClass, DnsError>)
        ensures
            match r {
                Ok(c) => c.spec_code() == value,
                Err(_) => !qclass_code_known(value),
            },
    {
        match value {
            1 => Ok(QuestionClass::In),
            2 => Ok(QuestionClass::Cs),
            3 => Ok(QuestionClass::Ch),
            4 => Ok(QuestionClass::Hs),
            255 => Ok(QuestionClass::Any),
            _ => Err(DnsError::FormatError),
        }
    }

    /// Parses the upper-case code of a question class.
    pub fn from_str(s: &str) -> (r: Result<QuestionClass, DnsError>)
        ensures
            match r {
                Ok(c) => spec_qclass_of_bytes(s.spec_bytes()) == Some(c),
                Err(_) => spec_qclass_of_bytes(s.spec_bytes()) is None,
            },
    {
        let b = s.as_bytes_vec();
        let n = b.len();
        if n == 2 && b[0] == 73 && b[1] == 78 {
            Ok(QuestionClass::In)
        } else if n == 2 && b[0] == 67 && b[1] == 83 {
            Ok(QuestionClass::Cs)
        } else if n == 2 && b[0] == 67 && b[1] == 72 {
            Ok(QuestionClass::Ch)
        } else if n == 2 && b[0] == 72 && b[1] == 83 {
            Ok(QuestionClass::Hs)
        } else if n == 3 && b[0] == 65 && b[1] == 78 && b[2] == 89 {
            Ok(QuestionClass::Any)
        } else {
            Err(DnsError::FormatError)
        }
    }
}

/// Whether a wire code names a question class.
pub open spec fn qclass_code_known(v: u16) -> bool {
    (1 <= v && v <= 4) || v == 255
}

/// The question class an upper-case code parses to.
pub open spec fn spec_qclass_of_bytes(b: Seq<u8>) -> Option<QuestionClass> {
    if b.len() == 2 && b[0] == 73 && b[1] == 78 {
        Some(QuestionClass::In)
    } else if b.len() == 2 && b[0] == 67 && b[1] == 83 {
        Some(QuestionClass::Cs)
    } else if b.len() == 2 && b[0] == 67 && b[1] == 72 {
        Some(QuestionClass::Ch)
    } else if b.len() == 2 && b[0] == 72 && b[1] == 83 {
        Some(QuestionClass::Hs)
    } else if b.len() == 3 && b[0] == 65 && b[1] == 78 && b[2] == 89 {
        Some(QuestionClass::Any)
    } else {
        None
    }
}

/// A DNS question: a name with a queried type and class.
#[derive(Debug)]
pub struct Question {
    pub name: Name,
    pub q_type: QuestionType,
    pub q_class: QuestionClass,
}

/// The view of a question: its name's labels with the type and class.
pub struct QuestionV {
    pub name: Seq<Seq<u8>>,
    pub q_type: QuestionType,
    pub q_class: QuestionClass,
}

impl View for Question {
    type V = QuestionV;

    open spec fn view(&self) -> QuestionV {
        QuestionV { name: self.name@, q_type: self.q_type, q_class: self.q_class }
    }
}

/// The bytes a question encodes to at position `pos`, and the
/// first-occurrence table afterwards.
pub open spec fn spec_encode_question(
    q: QuestionV,
    occs: Seq<(Seq<Seq<u8>>, int)>,
    pos: int,
) -> (Seq<u8>, Seq<(Seq<Seq<u8>>, int)>) {
    let e = spec_encode_name(q.name, occs, pos);
    (e.0 + be16(q.q_type.spec_code()) + be16(q.q_class.spec_code()), e.1)
}

/// The question decoded at `pos`, and the position after it: a name, then
/// the type and class codes. An unknown code is a format error.
pub open spec fn spec_decode_question(buf: Seq<u8>, pos: int) -> Option<(QuestionV, int)> {
    match spec_name_at(buf, pos) {
        None => None,
        Some((name, p)) => {
            if !wf_name(name) {
                None
            } else if p + 4 > buf.len() {
                None
            } else {
                let tcode = u16_of(buf[p], buf[p + 1]);
                let ccode = u16_of(buf[p + 2], buf[p + 3]);
                if !qtype_code_known(tcode) || !qclass_code_known(ccode) {
                    None
                } else {
                    Some(
                        (
                            QuestionV {
                                name,
                                q_type: spec_qtype_of_code(tcode),
                                q_class: spec_qclass_of_code(ccode),
                            },
                            p + 4,
                        ),
                    )
                }
            }
        },
    }
}

/// The question type a known wire code decodes to.
pub open spec fn spec_qtype_of_code(v: u16) -> QuestionType {
    if v == 1 {
        QuestionType::A
    } else if v == 2 {
        QuestionType::NS
    } else if v == 3 {
        QuestionType::MD
    } else if v == 4 {
        QuestionType::MF
    } else if v == 5 {
        QuestionType::CNAME
    } else if v == 6 {
        QuestionType::SOA
    } else if v == 7 {
        QuestionType::MB
    } else if v == 8 {
        QuestionType::MG
    } else if v == 9 {
        QuestionType::MR
    } else if v == 10 {
        QuestionType::NULL
    } else if v == 11 {
        QuestionType::WKS
    } else if v == 12 {
        QuestionType::PTR
    } else if v == 13 {
        QuestionType::HINFO
    } else if v == 14 {
        QuestionType::MINFO
    } else if v == 15 {
        QuestionType::MX
    } else if v == 16 {
        QuestionType::TXT
    } else if v == 252 {
        QuestionType::AXFR
    } else if v == 253 {
        QuestionType::MAILB
    } else if v == 254 {
        QuestionType::MAILA
    } else {
        QuestionType::ALL
    }
}

/// The question class a known wire code decodes to.
pub open spec fn spec_qclass_of_code(v: u16) -> QuestionClass {
    if v == 1 {
        QuestionClass::In
    } else if v == 2 {
        QuestionClass::Cs
    } else if v == 3 {
        QuestionClass::Ch
    } else if v == 4 {
        QuestionClass::Hs
    } else {
        QuestionClass::Any
    }
}

impl Clone for Question {
    fn clone(&self) -> (r: Self)
        ensures
            r@ == self@,
    {
        Question { name: self.name.clone(), q_type: self.q_type, q_class: self.q_class }
    }
}

impl Question {
    pub open spec fn wf(&self) -> bool {
        wf_name(self.name@)
    }

    /// Creates a Question from a byte stream.
    pub fn from_bytes(bytes: &mut Bytes) -> (r: Result<Question, DnsError>)
        requires
            old(bytes).wf(),
        ensures
            final(bytes).buf@ == old(bytes).buf@,
            final(bytes).occs() == old(bytes).occs(),
            final(bytes).wf(),
            match r {
                Ok(q) => spec_decode_question(old(bytes).buf@, old(bytes).pos as int) == Some(
                    (q@, final(bytes).pos as int),
                ) && q.wf(),
                Err(_) => spec_decode_question(old(bytes).buf@, old(bytes).pos as int) is None,
            },
    {
        let name = match Name::from_bytes(bytes) {
            Ok(n) => n,
            Err(e) => {
                return Err(e);
            },
        };
        let tcode = match bytes.read_u16() {
            Some(v) => v,
            None => {
                return Err(DnsError::FormatError);
            },
        };
        let ccode = match bytes.read_u16() {
            Some(v) => v,
            None => {
                return Err(DnsError::FormatError);
            },
        };
        let q_type = match QuestionType::from_code(tcode) {
            Ok(t) => t,
            Err(e) => {
                return Err(e);
            },
        };
        let q_class = match QuestionClass::from_code(ccode) {
            Ok(c) => c,
            Err(e) => {
                return Err(e);
            },
        };
        proof {
            assert(spec_qtype_of_code(tcode) == q_type);
            assert(spec_qclass_of_code(ccode) == q_class);
        }
        Ok(Question { name, q_type, q_class })
    }

    /// Converts a Question to a byte stream.
    pub fn to_bytes(&self, bytes: &mut Bytes)
        requires
            self.wf(),
            old(bytes).at_end(),
            occs_wf(old(bytes).occs()),
        ensures
            final(bytes).at_end(),
            occs_wf(final(bytes).occs()),
            ({
                let e = spec_encode_question(self@, old(bytes).occs(), old(bytes).pos as int);
                &&& final(bytes).buf@ == old(bytes).buf@ + e.0
                &&& final(bytes).occs() == e.1
            }),
    {
        self.name.to_bytes(bytes);
        bytes.write_u16(self.q_type.code());
        bytes.write_u16(self.q_class.code());
        proof {
            let e = spec_encode_question(self@, old(bytes).occs(), old(bytes).pos as int);
            assert(bytes.buf@ =~= old(bytes).buf@ + e.0);
        }
    }
}

} // verus!
