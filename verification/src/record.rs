use vstd::prelude::*;

use vstd::slice::slice_subrange;

use crate::bytes::{be16, be32, spec_find_occ, u16_of, u32_of, Bytes};
use crate::codec::{occs_wf, spec_encode_name, spec_encode_name_from, spec_name_at};
use crate::error::DnsError;
use crate::name::{lemma_wire_len_ge_len, lemma_wire_len_nonneg, wf_name, wire_len, Name};

verus! {

/// A DNS record class.
#[derive(Debug, Clone, Copy, PartialEq, Eq, Structural)]
pub enum Class {
    /// Internet.
    In,
    /// CS Net.
    Cs,
    /// Chaos.
    Ch,
    /// Hesiod.
    Hs,
}

impl Class {
    pub open spec fn spec_code(&self) -> u16 {
        match self {
            Class::In => 1,
            Class::Cs => 2,
            Class::Ch => 3,
            Class::Hs => 4,
        }
    }

    /// Returns the wire code of this class.
    pub fn code(&self) -> (r: u16)
        ensures
            r == self.spec_code(),
    {
        match self {
            Class::In => 1,
            Class::Cs => 2,
            Class::Ch => 3,
            Class::Hs => 4,
        }
    }

    /// Maps a wire code to a class; anything outside 1 to 4 is unknown.
    pub fn from_code(value: u16) -> (r: Result<Class, DnsError>)
        ensures
            match r {
                Ok(c) => c.spec_code() == value,
                Err(_) => !class_code_known(value),
            },
    {
        match value {
            1 => Ok(Class::In),
            2 => Ok(Class::Cs),
            3 => Ok(Class::Ch),
            4 => Ok(Class::Hs),
            _ => Err(DnsError::FormatError),
        }
    }
}

impl Default for Class {
    /// The Internet class.
    fn default() -> (r: Class)
        ensures
            r == Class::In,
    {
        Class::In
    }
}

/// Whether a wire code names a record class.
pub open spec fn class_code_known(v: u16) -> bool {
    1 <= v && v <= 4
}

/// The class a known wire code decodes to.
pub open spec fn spec_class_of_code(v: u16) -> Class {
    if v == 1 {
        Class::In
    } else if v == 2 {
        Class::Cs
    } else if v == 3 {
        Class::Ch
    } else {
        Class::Hs
    }
}

/// A DNS resource record.
///
/// Addresses are held as plain octets: an IPv4 address as its big-endian
/// 32-bit value, an IPv6 address as its sixteen octets. Character-string
/// payloads are held as octet vectors.
#[derive(Debug)]
pub enum Record {
    /// IPv4 address record.
    A { name: Name, class: Class, ttl: u32, addr: u32 },
    /// Name server record.
    Ns { name: Name, class: Class, ttl: u32, host: Name },
    /// Mail destination record.
    Md { name: Name, class: Class, ttl: u32, host: Name },
    /// Mail forwarder record.
    Mf { name: Name, class: Class, ttl: u32, host: Name },
    /// Canonical name record.
    Cname { name: Name, class: Class, ttl: u32, host: Name },
    /// Statement of authority record.
    Soa {
        name: Name,
        class: Class,
        ttl: u32,
        origin: Name,
        mailbox: Name,
        version: u32,
        refresh: u32,
        retry: u32,
        expire: u32,
        minimum: u32,
    },
    /// Mailbox domain record.
    Mb { name: Name, class: Class, ttl: u32, host: Name },
    /// Mail group record.
    Mg { name: Name, class: Class, ttl: u32, host: Name },
    /// Mail rename record.
    Mr { name: Name, class: Class, ttl: u32, host: Name },
    /// Null record.
    Null { name: Name, class: Class, ttl: u32, data: Vec<u8> },
    /// Well known service record.
    Wks { name: Name, class: Class, ttl: u32, addr: u32, protocol: u8, data: Vec<u8> },
    /// Domain name pointer record.
    Ptr { name: Name, class: Class, ttl: u32, host: Name },
    /// Host information record.
    Hinfo { name: Name, class: Class, ttl: u32, cpu: Vec<u8>, os: Vec<u8> },
    /// Mailbox information record.
    Minfo { name: Name, class: Class, ttl: u32, r_mailbox: Name, e_mailbox: Name },
    /// Mail exchange record.
    Mx { name: Name, class: Class, ttl: u32, priority: u16, host: Name },
    /// Text record.
    Txt { name: Name, class: Class, ttl: u32, content: Vec<u8> },
    /// IPv6 address record.
    Aaaa { name: Name, class: Class, ttl: u32, addr: Vec<u8> },
    /// EDNS options pseudo-record. Its name must be root; on the wire its
    /// class slot carries the advertised maximum response size, and its
    /// ttl slot carries the extended response code, the EDNS version and
    /// the DNSSEC-OK flag.
    Opt {
        name: Name,
        max_response_size: u16,
        extended_rcode: u8,
        version: u8,
        dnssec_ok: bool,
        data: Vec<u8>,
    },
}

/// The view of a record: the same shape over label sequences and octet
/// sequences.
pub enum RecordV {
    A { name: Seq<Seq<u8>>, class: Class, ttl: u32, addr: u32 },
    Ns { name: Seq<Seq<u8>>, class: Class, ttl: u32, host: Seq<Seq<u8>> },
    Md { name: Seq<Seq<u8>>, class: Class, ttl: u32, host: Seq<Seq<u8>> },
    Mf { name: Seq<Seq<u8>>, class: Class, ttl: u32, host: Seq<Seq<u8>> },
    Cname { name: Seq<Seq<u8>>, class: Class, ttl: u32, host: Seq<Seq<u8>> },
    Soa {
        name: Seq<Seq<u8>>,
        class: Class,
        ttl: u32,
        origin: Seq<Seq<u8>>,
        mailbox: Seq<Seq<u8>>,
        version: u32,
        refresh: u32,
        retry: u32,
        expire: u32,
        minimum: u32,
    },
    Mb { name: Seq<Seq<u8>>, class: Class, ttl: u32, host: Seq<Seq<u8>> },
    Mg { name: Seq<Seq<u8>>, class: Class, ttl: u32, host: Seq<Seq<u8>> },
    Mr { name: Seq<Seq<u8>>, class: Class, ttl: u32, host: Seq<Seq<u8>> },
    Null { name: Seq<Seq<u8>>, class: Class, ttl: u32, data: Seq<u8> },
    Wks { name: Seq<Seq<u8>>, class: Class, ttl: u32, addr: u32, protocol: u8, data: Seq<u8> },
    Ptr { name: Seq<Seq<u8>>, class: Class, ttl: u32, host: Seq<Seq<u8>> },
    Hinfo { name: Seq<Seq<u8>>, class: Class, ttl: u32, cpu: Seq<u8>, os: Seq<u8> },
    Minfo {
        name: Seq<Seq<u8>>,
        class: Class,
        ttl: u32,
        r_mailbox: Seq<Seq<u8>>,
        e_mailbox: Seq<Seq<u8>>,
    },
    Mx { name: Seq<Seq<u8>>, class: Class, ttl: u32, priority: u16, host: Seq<Seq<u8>> },
    Txt { name: Seq<Seq<u8>>, class: Class, ttl: u32, content: Seq<u8> },
    Aaaa { name: Seq<Seq<u8>>, class: Class, ttl: u32, addr: Seq<u8> },
    Opt {
        name: Seq<Seq<u8>>,
        max_response_size: u16,
        extended_rcode: u8,
        version: u8,
        dnssec_ok: bool,
        data: Seq<u8>,
    },
}

impl View for Record {
    type V = RecordV;

    open spec fn view(&self) -> RecordV {
        match self {
            Record::A { name, class, ttl, addr } => RecordV::A {
                name: name@,
                class: *class,
                ttl: *ttl,
                addr: *addr,
            },
            Record::Ns { name, class, ttl, host } => RecordV::Ns {
                name: name@,
                class: *class,
                ttl: *ttl,
                host: host@,
            },
            Record::Md { name, class, ttl, host } => RecordV::Md {
                name: name@,
                class: *class,
                ttl: *ttl,
                host: host@,
            },
            Record::Mf { name, class, ttl, host } => RecordV::Mf {
                name: name@,
                class: *class,
                ttl: *ttl,
                host: host@,
            },
            Record::Cname { name, class, ttl, host } => RecordV::Cname {
                name: name@,
                class: *class,
                ttl: *ttl,
                host: host@,
            },
            Record::Soa {
                name,
                class,
                ttl,
                origin,
                mailbox,
                version,
                refresh,
                retry,
                expire,
                minimum,
            } => RecordV::Soa {
                name: name@,
                class: *class,
                ttl: *ttl,
                origin: origin@,
                mailbox: mailbox@,
                version: *version,
                refresh: *refresh,
                retry: *retry,
                expire: *expire,
                minimum: *minimum,
            },
            Record::Mb { name, class, ttl, host } => RecordV::Mb {
                name: name@,
                class: *class,
                ttl: *ttl,
                host: host@,
            },
            Record::Mg { name, class, ttl, host } => RecordV::Mg {
                name: name@,
                class: *class,
                ttl: *ttl,
                host: host@,
            },
            Record::Mr { name, class, ttl, host } => RecordV::Mr {
                name: name@,
                class: *class,
                ttl: *ttl,
                host: host@,
            },
            Record::Null { name, class, ttl, data } => RecordV::Null {
                name: name@,
                class: *class,
                ttl: *ttl,
                data: data@,
            },
            Record::Wks { name, class, ttl, addr, protocol, data } => RecordV::Wks {
                name: name@,
                class: *class,
                ttl: *ttl,
                addr: *addr,
                protocol: *protocol,
                data: data@,
            },
            Record::Ptr { name, class, ttl, host } => RecordV::Ptr {
                name: name@,
                class: *class,
                ttl: *ttl,
                host: host@,
            },
            Record::Hinfo { name, class, ttl, cpu, os } => RecordV::Hinfo {
                name: name@,
                class: *class,
                ttl: *ttl,
                cpu: cpu@,
                os: os@,
            },
            Record::Minfo { name, class, ttl, r_mailbox, e_mailbox } => RecordV::Minfo {
                name: name@,
                class: *class,
                ttl: *ttl,
                r_mailbox: r_mailbox@,
                e_mailbox: e_mailbox@,
            },
            Record::Mx { name, class, ttl, priority, host } => RecordV::Mx {
                name: name@,
                class: *class,
                ttl: *ttl,
                priority: *priority,
                host: host@,
            },
            Record::Txt { name, class, ttl, content } => RecordV::Txt {
                name: name@,
                class: *class,
                ttl: *ttl,
                content: content@,
            },
            Record::Aaaa { name, class, ttl, addr } => RecordV::Aaaa {
                name: name@,
                class: *class,
                ttl: *ttl,
                addr: addr@,
            },
            Record::Opt { name, max_response_size, extended_rcode, version, dnssec_ok, data } => RecordV::Opt {
                name: name@,
                max_response_size: *max_response_size,
                extended_rcode: *extended_rcode,
                version: *version,
                dnssec_ok: *dnssec_ok,
                data: data@,
            },
        }
    }
}

impl RecordV {
    /// The owner name of the record.
    pub open spec fn spec_name(&self) -> Seq<Seq<u8>> {
        match self {
            RecordV::A { name, .. } => *name,
            RecordV::Ns { name, .. } => *name,
            RecordV::Md { name, .. } => *name,
            RecordV::Mf { name, .. } => *name,
            RecordV::Cname { name, .. } => *name,
            RecordV::Soa { name, .. } => *name,
            RecordV::Mb { name, .. } => *name,
            RecordV::Mg { name, .. } => *name,
            RecordV::Mr { name, .. } => *name,
            RecordV::Null { name, .. } => *name,
            RecordV::Wks { name, .. } => *name,
            RecordV::Ptr { name, .. } => *name,
            RecordV::Hinfo { name, .. } => *name,
            RecordV::Minfo { name, .. } => *name,
            RecordV::Mx { name, .. } => *name,
            RecordV::Txt { name, .. } => *name,
            RecordV::Aaaa { name, .. } => *name,
            RecordV::Opt { name, .. } => *name,
        }
    }

    /// The class of the record; the OPT pseudo-record carries none and
    /// reports the Internet class.
    pub open spec fn spec_class(&self) -> Class {
        match self {
            RecordV::A { class, .. } => *class,
            RecordV::Ns { class, .. } => *class,
            RecordV::Md { class, .. } => *class,
            RecordV::Mf { class, .. } => *class,
            RecordV::Cname { class, .. } => *class,
            RecordV::Soa { class, .. } => *class,
            RecordV::Mb { class, .. } => *class,
            RecordV::Mg { class, .. } => *class,
            RecordV::Mr { class, .. } => *class,
            RecordV::Null { class, .. } => *class,
            RecordV::Wks { class, .. } => *class,
            RecordV::Ptr { class, .. } => *class,
            RecordV::Hinfo { class, .. } => *class,
            RecordV::Minfo { class, .. } => *class,
            RecordV::Mx { class, .. } => *class,
            RecordV::Txt { class, .. } => *class,
            RecordV::Aaaa { class, .. } => *class,
            RecordV::Opt { .. } => Class::In,
        }
    }

    /// The time-to-live of the record; the OPT pseudo-record carries none
    /// and reports zero.
    pub open spec fn spec_ttl(&self) -> u32 {
        match self {
            RecordV::A { ttl, .. } => *ttl,
            RecordV::Ns { ttl, .. } => *ttl,
            RecordV::Md { ttl, .. } => *ttl,
            RecordV::Mf { ttl, .. } => *ttl,
            RecordV::Cname { ttl, .. } => *ttl,
            RecordV::Soa { ttl, .. } => *ttl,
            RecordV::Mb { ttl, .. } => *ttl,
            RecordV::Mg { ttl, .. } => *ttl,
            RecordV::Mr { ttl, .. } => *ttl,
            RecordV::Null { ttl, .. } => *ttl,
            RecordV::Wks { ttl, .. } => *ttl,
            RecordV::Ptr { ttl, .. } => *ttl,
            RecordV::Hinfo { ttl, .. } => *ttl,
            RecordV::Minfo { ttl, .. } => *ttl,
            RecordV::Mx { ttl, .. } => *ttl,
            RecordV::Txt { ttl, .. } => *ttl,
            RecordV::Aaaa { ttl, .. } => *ttl,
            RecordV::Opt { .. } => 0,
        }
    }

    /// The wire type code of the record.
    pub open spec fn spec_code(&self) -> u16 {
        match self {
            RecordV::A { .. } => 1,
            RecordV::Ns { .. } => 2,
            RecordV::Md { .. } => 3,
            RecordV::Mf { .. } => 4,
            RecordV::Cname { .. } => 5,
            RecordV::Soa { .. } => 6,
            RecordV::Mb { .. } => 7,
            RecordV::Mg { .. } => 8,
            RecordV::Mr { .. } => 9,
            RecordV::Null { .. } => 10,
            RecordV::Wks { .. } => 11,
            RecordV::Ptr { .. } => 12,
            RecordV::Hinfo { .. } => 13,
            RecordV::Minfo { .. } => 14,
            RecordV::Mx { .. } => 15,
            RecordV::Txt { .. } => 16,
            RecordV::Aaaa { .. } => 28,
            RecordV::Opt { .. } => 41,
        }
    }

    /// The record with its owner name replaced.
    pub open spec fn spec_with_name(&self, n: Seq<Seq<u8>>) -> RecordV {
        match self {
            RecordV::A { class, ttl, addr, .. } => RecordV::A {
                name: n,
                class: *class,
                ttl: *ttl,
                addr: *addr,
            },
            RecordV::Ns { class, ttl, host, .. } => RecordV::Ns {
                name: n,
                class: *class,
                ttl: *ttl,
                host: *host,
            },
            RecordV::Md { class, ttl, host, .. } => RecordV::Md {
                name: n,
                class: *class,
                ttl: *ttl,
                host: *host,
            },
            RecordV::Mf { class, ttl, host, .. } => RecordV::Mf {
                name: n,
                class: *class,
                ttl: *ttl,
                host: *host,
            },
            RecordV::Cname { class, ttl, host, .. } => RecordV::Cname {
                name: n,
                class: *class,
                ttl: *ttl,
                host: *host,
            },
            RecordV::Soa {
                class,
                ttl,
                origin,
                mailbox,
                version,
                refresh,
                retry,
                expire,
                minimum,
                ..
            } => RecordV::Soa {
                name: n,
                class: *class,
                ttl: *ttl,
                origin: *origin,
                mailbox: *mailbox,
                version: *version,
                refresh: *refresh,
                retry: *retry,
                expire: *expire,
                minimum: *minimum,
            },
            RecordV::Mb { class, ttl, host, .. } => RecordV::Mb {
                name: n,
                class: *class,
                ttl: *ttl,
                host: *host,
            },
            RecordV::Mg { class, ttl, host, .. } => RecordV::Mg {
                name: n,
                class: *class,
                ttl: *ttl,
                host: *host,
            },
            RecordV::Mr { class, ttl, host, .. } => RecordV::Mr {
                name: n,
                class: *class,
                ttl: *ttl,
                host: *host,
            },
            RecordV::Null { class, ttl, data, .. } => RecordV::Null {
                name: n,
                class: *class,
                ttl: *ttl,
                data: *data,
            },
            RecordV::Wks { class, ttl, addr, protocol, data, .. } => RecordV::Wks {
                name: n,
                class: *class,
                ttl: *ttl,
                addr: *addr,
                protocol: *protocol,
                data: *data,
            },
            RecordV::Ptr { class, ttl, host, .. } => RecordV::Ptr {
                name: n,
                class: *class,
                ttl: *ttl,
                host: *host,
            },
            RecordV::Hinfo { class, ttl, cpu, os, .. } => RecordV::Hinfo {
                name: n,
                class: *class,
                ttl: *ttl,
                cpu: *cpu,
                os: *os,
            },
            RecordV::Minfo { class, ttl, r_mailbox, e_mailbox, .. } => RecordV::Minfo {
                name: n,
                class: *class,
                ttl: *ttl,
                r_mailbox: *r_mailbox,
                e_mailbox: *e_mailbox,
            },
            RecordV::Mx { class, ttl, priority, host, .. } => RecordV::Mx {
                name: n,
                class: *class,
                ttl: *ttl,
                priority: *priority,
                host: *host,
            },
            RecordV::Txt { class, ttl, content, .. } => RecordV::Txt {
                name: n,
                class: *class,
                ttl: *ttl,
                content: *content,
            },
            RecordV::Aaaa { class, ttl, addr, .. } => RecordV::Aaaa {
                name: n,
                class: *class,
                ttl: *ttl,
                addr: *addr,
            },
            RecordV::Opt { max_response_size, extended_rcode, version, dnssec_ok, data, .. } => RecordV::Opt {
                name: n,
                max_response_size: *max_response_size,
                extended_rcode: *extended_rcode,
                version: *version,
                dnssec_ok: *dnssec_ok,
                data: *data,
            },
        }
    }
}

/// A well-formed record: its names are well-formed, its payload lengths
/// fit their wire fields, and an OPT pseudo-record's name is root.
pub open spec fn wf_record(r: RecordV) -> bool {
    wf_name(r.spec_name()) && match r {
        RecordV::A { .. } => true,
        RecordV::Ns { host, .. } => wf_name(host),
        RecordV::Md { host, .. } => wf_name(host),
        RecordV::Mf { host, .. } => wf_name(host),
        RecordV::Cname { host, .. } => wf_name(host),
        RecordV::Soa { origin, mailbox, .. } => wf_name(origin) && wf_name(mailbox),
        RecordV::Mb { host, .. } => wf_name(host),
        RecordV::Mg { host, .. } => wf_name(host),
        RecordV::Mr { host, .. } => wf_name(host),
        RecordV::Null { data, .. } => data.len() <= 0xFFFF,
        RecordV::Wks { data, .. } => 5 + data.len() <= 0xFFFF,
        RecordV::Ptr { host, .. } => wf_name(host),
        RecordV::Hinfo { cpu, os, .. } => cpu.len() < 256 && os.len() < 256,
        RecordV::Minfo { r_mailbox, e_mailbox, .. } => wf_name(r_mailbox) && wf_name(e_mailbox),
        RecordV::Mx { host, .. } => wf_name(host),
        RecordV::Txt { content, .. } => content.len() <= 65279,
        RecordV::Aaaa { addr, .. } => addr.len() == 16,
        RecordV::Opt { name, data, .. } => name.len() == 1 && data.len() <= 0xFFFF,
    }
}

impl Record {
    pub open spec fn wf(&self) -> bool {
        wf_record(self@)
    }

    /// Returns the name of the record.
    pub fn name(&self) -> (r: &Name)
        ensures
            r@ == self@.spec_name(),
    {
        match self {
            Record::A { name, .. } => name,
            Record::Ns { name, .. } => name,
            Record::Md { name, .. } => name,
            Record::Mf { name, .. } => name,
            Record::Cname { name, .. } => name,
            Record::Soa { name, .. } => name,
            Record::Mb { name, .. } => name,
            Record::Mg { name, .. } => name,
            Record::Mr { name, .. } => name,
            Record::Null { name, .. } => name,
            Record::Wks { name, .. } => name,
            Record::Ptr { name, .. } => name,
            Record::Hinfo { name, .. } => name,
            Record::Minfo { name, .. } => name,
            Record::Mx { name, .. } => name,
            Record::Txt { name, .. } => name,
            Record::Aaaa { name, .. } => name,
            Record::Opt { name, .. } => name,
        }
    }

    /// Returns the class of the record; the OPT pseudo-record carries
    /// none and reports the Internet class.
    pub fn class(&self) -> (r: Class)
        ensures
            r == self@.spec_class(),
    {
        match self {
            Record::A { class, .. } => *class,
            Record::Ns { class, .. } => *class,
            Record::Md { class, .. } => *class,
            Record::Mf { class, .. } => *class,
            Record::Cname { class, .. } => *class,
            Record::Soa { class, .. } => *class,
            Record::Mb { class, .. } => *class,
            Record::Mg { class, .. } => *class,
            Record::Mr { class, .. } => *class,
            Record::Null { class, .. } => *class,
            Record::Wks { class, .. } => *class,
            Record::Ptr { class, .. } => *class,
            Record::Hinfo { class, .. } => *class,
            Record::Minfo { class, .. } => *class,
            Record::Mx { class, .. } => *class,
            Record::Txt { class, .. } => *class,
            Record::Aaaa { class, .. } => *class,
            Record::Opt { .. } => Class::In,
        }
    }

    /// Returns the time-to-live of the record; the OPT pseudo-record
    /// carries none and reports zero.
    pub fn ttl(&self) -> (r: u32)
        ensures
            r == self@.spec_ttl(),
    {
        match self {
            Record::A { ttl, .. } => *ttl,
            Record::Ns { ttl, .. } => *ttl,
            Record::Md { ttl, .. } => *ttl,
            Record::Mf { ttl, .. } => *ttl,
            Record::Cname { ttl, .. } => *ttl,
            Record::Soa { ttl, .. } => *ttl,
            Record::Mb { ttl, .. } => *ttl,
            Record::Mg { ttl, .. } => *ttl,
            Record::Mr { ttl, .. } => *ttl,
            Record::Null { ttl, .. } => *ttl,
            Record::Wks { ttl, .. } => *ttl,
            Record::Ptr { ttl, .. } => *ttl,
            Record::Hinfo { ttl, .. } => *ttl,
            Record::Minfo { ttl, .. } => *ttl,
            Record::Mx { ttl, .. } => *ttl,
            Record::Txt { ttl, .. } => *ttl,
            Record::Aaaa { ttl, .. } => *ttl,
            Record::Opt { .. } => 0,
        }
    }

    /// Returns the wire type code of the record.
    pub fn code(&self) -> (r: u16)
        ensures
            r == self@.spec_code(),
    {
        match self {
            Record::A { .. } => 1,
            Record::Ns { .. } => 2,
            Record::Md { .. } => 3,
            Record::Mf { .. } => 4,
            Record::Cname { .. } => 5,
            Record::Soa { .. } => 6,
            Record::Mb { .. } => 7,
            Record::Mg { .. } => 8,
            Record::Mr { .. } => 9,
            Record::Null { .. } => 10,
            Record::Wks { .. } => 11,
            Record::Ptr { .. } => 12,
            Record::Hinfo { .. } => 13,
            Record::Minfo { .. } => 14,
            Record::Mx { .. } => 15,
            Record::Txt { .. } => 16,
            Record::Aaaa { .. } => 28,
            Record::Opt { .. } => 41,
        }
    }

    /// Returns a copy of the record with its owner name replaced.
    pub fn with_name(&self, name: Name) -> (r: Record)
        ensures
            r@ == self@.spec_with_name(name@),
            wf_record(self@) && wf_name(name@) && !(self@ is Opt) ==> wf_record(r@),
    {
        match self {
            Record::A { class, ttl, addr, .. } => Record::A {
                name,
                class: *class,
                ttl: *ttl,
                addr: *addr,
            },
            Record::Ns { class, ttl, host, .. } => Record::Ns {
                name,
                class: *class,
                ttl: *ttl,
                host: host.clone(),
            },
            Record::Md { class, ttl, host, .. } => Record::Md {
                name,
                class: *class,
                ttl: *ttl,
                host: host.clone(),
            },
            Record::Mf { class, ttl, host, .. } => Record::Mf {
                name,
                class: *class,
                ttl: *ttl,
                host: host.clone(),
            },
            Record::Cname { class, ttl, host, .. } => Record::Cname {
                name,
                class: *class,
                ttl: *ttl,
                host: host.clone(),
            },
            Record::Soa {
                class,
                ttl,
                origin,
                mailbox,
                version,
                refresh,
                retry,
                expire,
                minimum,
                ..
            } => Record::Soa {
                name,
                class: *class,
                ttl: *ttl,
                origin: origin.clone(),
                mailbox: mailbox.clone(),
                version: *version,
                refresh: *refresh,
                retry: *retry,
                expire: *expire,
                minimum: *minimum,
            },
            Record::Mb { class, ttl, host, .. } => Record::Mb {
                name,
                class: *class,
                ttl: *ttl,
                host: host.clone(),
            },
            Record::Mg { class, ttl, host, .. } => Record::Mg {
                name,
                class: *class,
                ttl: *ttl,
                host: host.clone(),
            },
            Record::Mr { class, ttl, host, .. } => Record::Mr {
                name,
                class: *class,
                ttl: *ttl,
                host: host.clone(),
            },
            Record::Null { class, ttl, data, .. } => Record::Null {
                name,
                class: *class,
                ttl: *ttl,
                data: data.clone(),
            },
            Record::Wks { class, ttl, addr, protocol, data, .. } => Record::Wks {
                name,
                class: *class,
                ttl: *ttl,
                addr: *addr,
                protocol: *protocol,
                data: data.clone(),
            },
            Record::Ptr { class, ttl, host, .. } => Record::Ptr {
                name,
                class: *class,
                ttl: *ttl,
                host: host.clone(),
            },
            Record::Hinfo { class, ttl, cpu, os, .. } => Record::Hinfo {
                name,
                class: *class,
                ttl: *ttl,
                cpu: cpu.clone(),
                os: os.clone(),
            },
            Record::Minfo { class, ttl, r_mailbox, e_mailbox, .. } => Record::Minfo {
                name,
                class: *class,
                ttl: *ttl,
                r_mailbox: r_mailbox.clone(),
                e_mailbox: e_mailbox.clone(),
            },
            Record::Mx { class, ttl, priority, host, .. } => Record::Mx {
                name,
                class: *class,
                ttl: *ttl,
                priority: *priority,
                host: host.clone(),
            },
            Record::Txt { class, ttl, content, .. } => Record::Txt {
                name,
                class: *class,
                ttl: *ttl,
                content: content.clone(),
            },
            Record::Aaaa { class, ttl, addr, .. } => Record::Aaaa {
                name,
                class: *class,
                ttl: *ttl,
                addr: addr.clone(),
            },
            Record::Opt { max_response_size, extended_rcode, version, dnssec_ok, data, .. } => Record::Opt {
                name,
                max_response_size: *max_response_size,
                extended_rcode: *extended_rcode,
                version: *version,
                dnssec_ok: *dnssec_ok,
                data: data.clone(),
            },
        }
    }
}

impl Record {
    /// Returns true if the record is well-formed.
    pub fn check(&self) -> (r: bool)
        ensures
            r == wf_record(self@),
    {
        if !self.name().is_wf() {
            return false;
        }
        match self {
            Record::A { .. } => true,
            Record::Ns { host, .. } => host.is_wf(),
            Record::Md { host, .. } => host.is_wf(),
            Record::Mf { host, .. } => host.is_wf(),
            Record::Cname { host, .. } => host.is_wf(),
            Record::Soa { origin, mailbox, .. } => origin.is_wf() && mailbox.is_wf(),
            Record::Mb { host, .. } => host.is_wf(),
            Record::Mg { host, .. } => host.is_wf(),
            Record::Mr { host, .. } => host.is_wf(),
            Record::Null { data, .. } => data.len() <= 0xFFFF,
            Record::Wks { data, .. } => data.len() <= 0xFFFF - 5,
            Record::Ptr { host, .. } => host.is_wf(),
            Record::Hinfo { cpu, os, .. } => cpu.len() < 256 && os.len() < 256,
            Record::Minfo { r_mailbox, e_mailbox, .. } => r_mailbox.is_wf() && e_mailbox.is_wf(),
            Record::Mx { host, .. } => host.is_wf(),
            Record::Txt { content, .. } => content.len() <= 65279,
            Record::Aaaa { addr, .. } => addr.len() == 16,
            Record::Opt { name, data, .. } => name.is_root() && data.len() <= 0xFFFF,
        }
    }
}

impl Clone for Record {
    fn clone(&self) -> (r: Self)
        ensures
            r@ == self@,
    {
        let n = self.name().clone();
        let r = self.with_name(n);
        proof {
            assert(self@.spec_with_name(self@.spec_name()) == self@);
        }
        r
    }
}

// ---------------------------------------------------------------------------
// Record encoding
// ---------------------------------------------------------------------------

/// The value of the OPT pseudo-record's ttl slot:
/// `extended_rcode << 24 | version << 16 | dnssec_ok << 15`.
pub open spec fn opt_ttl_of(extended_rcode: u8, version: u8, dnssec_ok: bool) -> u32 {
    ((extended_rcode as int) * 0x1000000 + (version as int) * 0x10000 + (if dnssec_ok {
        0x8000int
    } else {
        0
    })) as u32
}

/// The value of a record's class slot on the wire: its class code, except
/// for the OPT pseudo-record, whose class slot carries the advertised
/// maximum response size.
pub open spec fn spec_class_slot(r: RecordV) -> u16 {
    match r {
        RecordV::Opt { max_response_size, .. } => max_response_size,
        _ => r.spec_class().spec_code(),
    }
}

/// The value of a record's ttl slot on the wire: its time-to-live, except
/// for the OPT pseudo-record, whose ttl slot packs the extended response
/// code, the EDNS version and the DNSSEC-OK flag.
pub open spec fn spec_ttl_slot(r: RecordV) -> u32 {
    match r {
        RecordV::Opt { extended_rcode, version, dnssec_ok, .. } => opt_ttl_of(
            extended_rcode,
            version,
            dnssec_ok,
        ),
        _ => r.spec_ttl(),
    }
}

/// TXT content packed into character-strings: full 255-octet chunks, then
/// the remainder; empty content packs to no strings at all.
pub open spec fn txt_chunks(c: Seq<u8>) -> Seq<u8>
    decreases c.len(),
{
    if c.len() == 0 {
        Seq::<u8>::empty()
    } else if c.len() <= 255 {
        seq![c.len() as u8] + c
    } else {
        (seq![255u8] + c.take(255)) + txt_chunks(c.skip(255))
    }
}

/// Packing adds one length octet per begun 255-octet chunk.
pub proof fn lemma_txt_chunks_len(c: Seq<u8>)
    ensures
        c.len() == 0 ==> txt_chunks(c).len() == 0,
        c.len() > 0 ==> txt_chunks(c).len() == c.len() + (c.len() + 254) / 255,
    decreases c.len(),
{
    if c.len() > 255 {
        lemma_txt_chunks_len(c.skip(255));
        let n = c.len() as int;
        assert((n + 254) / 255 == ((n - 255) + 254) / 255 + 1) by (nonlinear_arith)
            requires
                n > 255,
        ;
    } else if c.len() > 0 {
        let n = c.len() as int;
        assert((n + 254) / 255 == 1) by (nonlinear_arith)
            requires
                0 < n <= 255,
        ;
    }
}

/// The rdata of a record: its payload after the rdlength slot, and the
/// first-occurrence table after it, when the rdata starts at `pos`.
pub open spec fn spec_rdata(r: RecordV, occs: Seq<(Seq<Seq<u8>>, int)>, pos: int) -> (
    Seq<u8>,
    Seq<(Seq<Seq<u8>>, int)>,
) {
    match r {
        RecordV::A { addr, .. } => (be32(addr), occs),
        RecordV::Ns { host, .. } => spec_encode_name(host, occs, pos),
        RecordV::Md { host, .. } => spec_encode_name(host, occs, pos),
        RecordV::Mf { host, .. } => spec_encode_name(host, occs, pos),
        RecordV::Cname { host, .. } => spec_encode_name(host, occs, pos),
        RecordV::Soa { origin, mailbox, version, refresh, retry, expire, minimum, .. } => {
            let o = spec_encode_name(origin, occs, pos);
            let m = spec_encode_name(mailbox, o.1, pos + o.0.len());
            (
                o.0 + m.0 + be32(version) + be32(refresh) + be32(retry) + be32(expire) + be32(
                    minimum,
                ),
                m.1,
            )
        },
        RecordV::Mb { host, .. } => spec_encode_name(host, occs, pos),
        RecordV::Mg { host, .. } => spec_encode_name(host, occs, pos),
        RecordV::Mr { host, .. } => spec_encode_name(host, occs, pos),
        RecordV::Null { data, .. } => (data, occs),
        RecordV::Wks { addr, protocol, data, .. } => (be32(addr) + seq![protocol] + data, occs),
        RecordV::Ptr { host, .. } => spec_encode_name(host, occs, pos),
        RecordV::Hinfo { cpu, os, .. } => (
            seq![cpu.len() as u8] + cpu + seq![os.len() as u8] + os,
            occs,
        ),
        RecordV::Minfo { r_mailbox, e_mailbox, .. } => {
            let a = spec_encode_name(r_mailbox, occs, pos);
            let b = spec_encode_name(e_mailbox, a.1, pos + a.0.len());
            (a.0 + b.0, b.1)
        },
        RecordV::Mx { priority, host, .. } => {
            let h = spec_encode_name(host, occs, pos + 2);
            (be16(priority) + h.0, h.1)
        },
        RecordV::Txt { content, .. } => (txt_chunks(content), occs),
        RecordV::Aaaa { addr, .. } => (addr, occs),
        RecordV::Opt { data, .. } => (data, occs),
    }
}

/// The bytes a record encodes to at position `pos`, and the
/// first-occurrence table afterwards: the owner name, the type code, the
/// class slot, the ttl slot, the rdata length, and the rdata.
pub open spec fn spec_encode_record(r: RecordV, occs: Seq<(Seq<Seq<u8>>, int)>, pos: int) -> (
    Seq<u8>,
    Seq<(Seq<Seq<u8>>, int)>,
) {
    let e = spec_encode_name(r.spec_name(), occs, pos);
    let head = e.0 + be16(r.spec_code()) + be16(spec_class_slot(r)) + be32(spec_ttl_slot(r));
    let rd = spec_rdata(r, e.1, pos + head.len() + 2);
    (head + be16(rd.0.len() as u16) + rd.0, rd.1)
}

/// A name's encoding is never longer than its uncompressed wire form plus
/// one octet.
pub proof fn lemma_encode_name_len(
    ls: Seq<Seq<u8>>,
    i: int,
    occs: Seq<(Seq<Seq<u8>>, int)>,
    pos: int,
)
    requires
        0 <= i < ls.len(),
    ensures
        spec_encode_name_from(ls, i, occs, pos).0.len() <= wire_len(ls.skip(i)) + 1,
    decreases ls.len() - i,
{
    lemma_wire_len_nonneg(ls.skip(i));
    if i == ls.len() - 1 {
        assert(ls.skip(i).len() == 1);
        lemma_wire_len_nonneg(ls.skip(i).drop_last());
    } else {
        match spec_find_occ(occs, ls.skip(i)) {
            Some(off) => {
                lemma_wire_len_ge_len(ls.skip(i));
            },
            None => {
                let occs1 = if pos < 0x4000 {
                    occs.push((ls.skip(i), pos))
                } else {
                    occs
                };
                let lb = seq![ls[i].len() as u8] + ls[i];
                lemma_encode_name_len(ls, i + 1, occs1, pos + lb.len());
                assert(ls.skip(i) =~= seq![ls[i]] + ls.skip(i + 1));
                crate::name::lemma_wire_len_cat(seq![ls[i]], ls.skip(i + 1));
                assert(seq![ls[i]].drop_last() =~= Seq::<Seq<u8>>::empty());
                assert(wire_len(Seq::<Seq<u8>>::empty()) == 0);
                assert(seq![ls[i]].last() == ls[i]);
                assert(wire_len(seq![ls[i]]) == ls[i].len() + 1);
            },
        }
    }
}

/// The whole encoding of a well-formed name fits in 256 octets.
pub proof fn lemma_encode_wf_name_len(
    ls: Seq<Seq<u8>>,
    occs: Seq<(Seq<Seq<u8>>, int)>,
    pos: int,
)
    requires
        wf_name(ls),
    ensures
        spec_encode_name(ls, occs, pos).0.len() <= 255,
{
    lemma_encode_name_len(ls, 0, occs, pos);
    assert(ls.skip(0) =~= ls);
}

impl Record {
    /// Converts a Record to a byte stream: the owner name, the type code,
    /// the class and ttl slots, then the rdata behind a back-patched
    /// two-octet length.
    #[verifier::rlimit(100)]
    pub fn to_bytes(&self, bytes: &mut Bytes)
        requires
            self.wf(),
            old(bytes).at_end(),
            occs_wf(old(bytes).occs()),
        ensures
            final(bytes).at_end(),
            occs_wf(final(bytes).occs()),
            ({
                let e = spec_encode_record(self@, old(bytes).occs(), old(bytes).pos as int);
                &&& final(bytes).buf@ == old(bytes).buf@ + e.0
                &&& final(bytes).occs() == e.1
            }),
    {
        let ghost occs0 = bytes.occs();
        let ghost pos0 = bytes.pos as int;
        let ghost buf0 = bytes.buf@;
        self.name().to_bytes(bytes);
        bytes.write_u16(self.code());
        let class_slot: u16 = match self {
            Record::Opt { max_response_size, .. } => *max_response_size,
            _ => self.class().code(),
        };
        bytes.write_u16(class_slot);
        let ttl_slot: u32 = match self {
            Record::Opt { extended_rcode, version, dnssec_ok, .. } => {
                let mut t: u32 = (*extended_rcode as u32) * 0x1000000 + (*version as u32)
                    * 0x10000;
                if *dnssec_ok {
                    t = t + 0x8000;
                }
                t
            },
            _ => self.ttl(),
        };
        bytes.write_u32(ttl_slot);
        let ghost e_name = spec_encode_name(self@.spec_name(), occs0, pos0);
        let ghost head = e_name.0 + be16(self@.spec_code()) + be16(spec_class_slot(self@))
            + be32(spec_ttl_slot(self@));
        proof {
            assert(class_slot == spec_class_slot(self@));
            assert(ttl_slot == spec_ttl_slot(self@));
            assert(bytes.buf@ =~= buf0 + head);
        }
        // Reserve the rdlength slot, write the rdata, then patch the slot.
        let slot = bytes.pos();
        bytes.write_u16(0);
        let ghost occs1 = bytes.occs();
        let ghost rd_pos = bytes.pos as int;
        let ghost rd = spec_rdata(self@, occs1, rd_pos);
        match self {
            Record::A { addr, .. } => {
                bytes.write_u32(*addr);
            },
            Record::Ns { host, .. } => {
                host.to_bytes(bytes);
            },
            Record::Md { host, .. } => {
                host.to_bytes(bytes);
            },
            Record::Mf { host, .. } => {
                host.to_bytes(bytes);
            },
            Record::Cname { host, .. } => {
                host.to_bytes(bytes);
            },
            Record::Soa { origin, mailbox, version, refresh, retry, expire, minimum, .. } => {
                origin.to_bytes(bytes);
                mailbox.to_bytes(bytes);
                bytes.write_u32(*version);
                bytes.write_u32(*refresh);
                bytes.write_u32(*retry);
                bytes.write_u32(*expire);
                bytes.write_u32(*minimum);
            },
            Record::Mb { host, .. } => {
                host.to_bytes(bytes);
            },
            Record::Mg { host, .. } => {
                host.to_bytes(bytes);
            },
            Record::Mr { host, .. } => {
                host.to_bytes(bytes);
            },
            Record::Null { data, .. } => {
                bytes.write_all(data.as_slice());
            },
            Record::Wks { addr, protocol, data, .. } => {
                bytes.write_u32(*addr);
                bytes.write(*protocol);
                bytes.write_all(data.as_slice());
            },
            Record::Ptr { host, .. } => {
                host.to_bytes(bytes);
            },
            Record::Hinfo { cpu, os, .. } => {
                bytes.write(cpu.len() as u8);
                bytes.write_all(cpu.as_slice());
                bytes.write(os.len() as u8);
                bytes.write_all(os.as_slice());
            },
            Record::Minfo { r_mailbox, e_mailbox, .. } => {
                r_mailbox.to_bytes(bytes);
                e_mailbox.to_bytes(bytes);
            },
            Record::Mx { priority, host, .. } => {
                bytes.write_u16(*priority);
                host.to_bytes(bytes);
            },
            Record::Txt { content, .. } => {
                write_txt_chunks(bytes, content);
            },
            Record::Aaaa { addr, .. } => {
                bytes.write_all(addr.as_slice());
            },
            Record::Opt { data, .. } => {
                bytes.write_all(data.as_slice());
            },
        }
        proof {
            match self@ {
                RecordV::Soa { origin, mailbox, .. } => {
                    let o = spec_encode_name(origin, occs1, rd_pos);
                    let m = spec_encode_name(mailbox, o.1, rd_pos + o.0.len());
                    assert(bytes.buf@ =~= (buf0 + head + be16(0)) + rd.0);
                },
                RecordV::Minfo { r_mailbox, e_mailbox, .. } => {
                    let a = spec_encode_name(r_mailbox, occs1, rd_pos);
                    let b = spec_encode_name(e_mailbox, a.1, rd_pos + a.0.len());
                    assert(bytes.buf@ =~= (buf0 + head + be16(0)) + rd.0);
                },
                RecordV::Hinfo { cpu, os, .. } => {
                    assert(bytes.buf@ =~= (buf0 + head + be16(0)) + rd.0);
                },
                RecordV::Wks { .. } => {
                    assert(bytes.buf@ =~= (buf0 + head + be16(0)) + rd.0);
                },
                _ => {
                    assert(bytes.buf@ =~= (buf0 + head + be16(0)) + rd.0);
                },
            }
            assert(bytes.occs() == rd.1);
            lemma_rdata_len(self@, occs1, rd_pos);
        }
        let size = bytes.pos() - (slot + 2);
        bytes.set_u16(slot, size as u16);
        proof {
            assert(size == rd.0.len());
            assert(bytes.buf@ =~= buf0 + (head + be16(rd.0.len() as u16) + rd.0));
            assert(bytes.buf@ == old(bytes).buf@ + spec_encode_record(self@, occs0, pos0).0);
        }
    }
}

/// The rdata of a well-formed record fits its two-octet length field.
pub proof fn lemma_rdata_len(r: RecordV, occs: Seq<(Seq<Seq<u8>>, int)>, pos: int)
    requires
        wf_record(r),
    ensures
        spec_rdata(r, occs, pos).0.len() <= 0xFFFF,
{
    match r {
        RecordV::Ns { host, .. } => lemma_encode_wf_name_len(host, occs, pos),
        RecordV::Md { host, .. } => lemma_encode_wf_name_len(host, occs, pos),
        RecordV::Mf { host, .. } => lemma_encode_wf_name_len(host, occs, pos),
        RecordV::Cname { host, .. } => lemma_encode_wf_name_len(host, occs, pos),
        RecordV::Mb { host, .. } => lemma_encode_wf_name_len(host, occs, pos),
        RecordV::Mg { host, .. } => lemma_encode_wf_name_len(host, occs, pos),
        RecordV::Mr { host, .. } => lemma_encode_wf_name_len(host, occs, pos),
        RecordV::Ptr { host, .. } => lemma_encode_wf_name_len(host, occs, pos),
        RecordV::Soa { origin, mailbox, .. } => {
            let o = spec_encode_name(origin, occs, pos);
            lemma_encode_wf_name_len(origin, occs, pos);
            lemma_encode_wf_name_len(mailbox, o.1, pos + o.0.len());
        },
        RecordV::Minfo { r_mailbox, e_mailbox, .. } => {
            let a = spec_encode_name(r_mailbox, occs, pos);
            lemma_encode_wf_name_len(r_mailbox, occs, pos);
            lemma_encode_wf_name_len(e_mailbox, a.1, pos + a.0.len());
        },
        RecordV::Mx { host, .. } => lemma_encode_wf_name_len(host, occs, pos + 2),
        RecordV::Txt { content, .. } => lemma_txt_chunks_len(content),
        _ => {},
    }
}

// ---------------------------------------------------------------------------
// Record decoding
// ---------------------------------------------------------------------------

/// A well-formed name decoded at `pos`, or a format error.
pub open spec fn spec_host_at(buf: Seq<u8>, pos: int) -> Option<(Seq<Seq<u8>>, int)> {
    match spec_name_at(buf, pos) {
        None => None,
        Some((h, e)) => if wf_name(h) {
            Some((h, e))
        } else {
            None
        },
    }
}

/// TXT character-strings read from `pos` until `remaining` octets are
/// consumed: the concatenated contents and the position after the last
/// string. A string that runs past the buffer is a format error.
pub open spec fn spec_txt_parse(buf: Seq<u8>, pos: int, remaining: int) -> Option<(Seq<u8>, int)>
    decreases
            (if remaining <= 0 {
                0int
            } else {
                remaining
            }),
{
    if remaining <= 0 {
        Some((Seq::<u8>::empty(), pos))
    } else if pos < 0 || pos >= buf.len() {
        None
    } else {
        let len = buf[pos] as int;
        if pos + 1 + len > buf.len() {
            None
        } else {
            match spec_txt_parse(buf, pos + 1 + len, remaining - len - 1) {
                Some(r) => Some((buf.subrange(pos + 1, pos + 1 + len) + r.0, r.1)),
                None => None,
            }
        }
    }
}

/// The record decoded at `pos`, and the position after it: the owner
/// name, the type code, the class and ttl slots, the rdata length, then
/// the type's rdata. Unknown types and classes, malformed names and
/// truncated payloads are format errors.
pub open spec fn spec_decode_record(buf: Seq<u8>, pos: int) -> Option<(RecordV, int)> {
    match spec_host_at(buf, pos) {
        None => None,
        Some((nm, p)) => {
            if p + 10 > buf.len() {
                None
            } else {
                let rtype = u16_of(buf[p], buf[p + 1]);
                let class_raw = u16_of(buf[p + 2], buf[p + 3]);
                let ttl = u32_of(buf[p + 4], buf[p + 5], buf[p + 6], buf[p + 7]);
                let rdlen = u16_of(buf[p + 8], buf[p + 9]) as int;
                let q = p + 10;
                if rtype == 41 {
                    if nm.len() != 1 || q + rdlen > buf.len() {
                        None
                    } else {
                        Some(
                            (
                                RecordV::Opt {
                                    name: nm,
                                    max_response_size: class_raw,
                                    extended_rcode: ((ttl as int) / 0x1000000) as u8,
                                    version: (((ttl as int) / 0x10000) % 256) as u8,
                                    dnssec_ok: ((ttl as int) / 0x8000) % 2 == 1,
                                    data: buf.subrange(q, q + rdlen),
                                },
                                q + rdlen,
                            ),
                        )
                    }
                } else if !class_code_known(class_raw) {
                    None
                } else {
                    let class = spec_class_of_code(class_raw);
                    spec_decode_rdata(buf, nm, class, rtype, ttl, rdlen, q)
                }
            }
        },
    }
}

/// The rdata of a non-OPT record of type `rtype` decoded at `q`.
pub open spec fn spec_decode_rdata(
    buf: Seq<u8>,
    nm: Seq<Seq<u8>>,
    class: Class,
    rtype: u16,
    ttl: u32,
    rdlen: int,
    q: int,
) -> Option<(RecordV, int)> {
    if rtype == 1 {
        if q + 4 > buf.len() {
            None
        } else {
            Some(
                (
                    RecordV::A {
                        name: nm,
                        class,
                        ttl,
                        addr: u32_of(buf[q], buf[q + 1], buf[q + 2], buf[q + 3]),
                    },
                    q + 4,
                ),
            )
        }
    } else if rtype == 2 {
        match spec_host_at(buf, q) {
            Some((h, e)) => Some((RecordV::Ns { name: nm, class, ttl, host: h }, e)),
            None => None,
        }
    } else if rtype == 3 {
        match spec_host_at(buf, q) {
            Some((h, e)) => Some((RecordV::Md { name: nm, class, ttl, host: h }, e)),
            None => None,
        }
    } else if rtype == 4 {
        match spec_host_at(buf, q) {
            Some((h, e)) => Some((RecordV::Mf { name: nm, class, ttl, host: h }, e)),
            None => None,
        }
    } else if rtype == 5 {
        match spec_host_at(buf, q) {
            Some((h, e)) => Some((RecordV::Cname { name: nm, class, ttl, host: h }, e)),
            None => None,
        }
    } else if rtype == 6 {
        match spec_host_at(buf, q) {
            Some((origin, e1)) => match spec_host_at(buf, e1) {
                Some((mailbox, e2)) => {
                    if e2 + 20 > buf.len() {
                        None
                    } else {
                        Some(
                            (
                                RecordV::Soa {
                                    name: nm,
                                    class,
                                    ttl,
                                    origin,
                                    mailbox,
                                    version: u32_of(
                                        buf[e2],
                                        buf[e2 + 1],
                                        buf[e2 + 2],
                                        buf[e2 + 3],
                                    ),
                                    refresh: u32_of(
                                        buf[e2 + 4],
                                        buf[e2 + 5],
                                        buf[e2 + 6],
                                        buf[e2 + 7],
                                    ),
                                    retry: u32_of(
                                        buf[e2 + 8],
                                        buf[e2 + 9],
                                        buf[e2 + 10],
                                        buf[e2 + 11],
                                    ),
                                    expire: u32_of(
                                        buf[e2 + 12],
                                        buf[e2 + 13],
                                        buf[e2 + 14],
                                        buf[e2 + 15],
                                    ),
                                    minimum: u32_of(
                                        buf[e2 + 16],
                                        buf[e2 + 17],
                                        buf[e2 + 18],
                                        buf[e2 + 19],
                                    ),
                                },
                                e2 + 20,
                            ),
                        )
                    }
                },
                None => None,
            },
            None => None,
        }
    } else if rtype == 7 {
        match spec_host_at(buf, q) {
            Some((h, e)) => Some((RecordV::Mb { name: nm, class, ttl, host: h }, e)),
            None => None,
        }
    } else if rtype == 8 {
        match spec_host_at(buf, q) {
            Some((h, e)) => Some((RecordV::Mg { name: nm, class, ttl, host: h }, e)),
            None => None,
        }
    } else if rtype == 9 {
        match spec_host_at(buf, q) {
            Some((h, e)) => Some((RecordV::Mr { name: nm, class, ttl, host: h }, e)),
            None => None,
        }
    } else if rtype == 10 {
        if q + rdlen > buf.len() {
            None
        } else {
            Some(
                (RecordV::Null { name: nm, class, ttl, data: buf.subrange(q, q + rdlen) }, q
                    + rdlen),
            )
        }
    } else if rtype == 11 {
        if rdlen < 5 || q + rdlen > buf.len() {
            None
        } else {
            Some(
                (
                    RecordV::Wks {
                        name: nm,
                        class,
                        ttl,
                        addr: u32_of(buf[q], buf[q + 1], buf[q + 2], buf[q + 3]),
                        protocol: buf[q + 4],
                        data: buf.subrange(q + 5, q + rdlen),
                    },
                    q + rdlen,
                ),
            )
        }
    } else if rtype == 12 {
        match spec_host_at(buf, q) {
            Some((h, e)) => Some((RecordV::Ptr { name: nm, class, ttl, host: h }, e)),
            None => None,
        }
    } else if rtype == 13 {
        if q >= buf.len() {
            None
        } else {
            let len1 = buf[q] as int;
            if q + 1 + len1 >= buf.len() {
                None
            } else {
                let len2 = buf[q + 1 + len1] as int;
                if q + 2 + len1 + len2 > buf.len() {
                    None
                } else {
                    Some(
                        (
                            RecordV::Hinfo {
                                name: nm,
                                class,
                                ttl,
                                cpu: buf.subrange(q + 1, q + 1 + len1),
                                os: buf.subrange(q + 2 + len1, q + 2 + len1 + len2),
                            },
                            q + 2 + len1 + len2,
                        ),
                    )
                }
            }
        }
    } else if rtype == 14 {
        match spec_host_at(buf, q) {
            Some((r_mailbox, e1)) => match spec_host_at(buf, e1) {
                Some((e_mailbox, e2)) => Some(
                    (RecordV::Minfo { name: nm, class, ttl, r_mailbox, e_mailbox }, e2),
                ),
                None => None,
            },
            None => None,
        }
    } else if rtype == 15 {
        if q + 2 > buf.len() {
            None
        } else {
            match spec_host_at(buf, q + 2) {
                Some((h, e)) => Some(
                    (
                        RecordV::Mx {
                            name: nm,
                            class,
                            ttl,
                            priority: u16_of(buf[q], buf[q + 1]),
                            host: h,
                        },
                        e,
                    ),
                ),
                None => None,
            }
        }
    } else if rtype == 16 {
        match spec_txt_parse(buf, q, rdlen) {
            Some((content, e)) => {
                if content.len() <= 65279 {
                    Some((RecordV::Txt { name: nm, class, ttl, content }, e))
                } else {
                    None
                }
            },
            None => None,
        }
    } else if rtype == 28 {
        if q + 16 > buf.len() {
            None
        } else {
            Some((RecordV::Aaaa { name: nm, class, ttl, addr: buf.subrange(q, q + 16) }, q + 16))
        }
    } else {
        None
    }
}

impl Record {
    /// Creates a Record from a byte stream.
    #[verifier::rlimit(100)]
    pub fn from_bytes(bytes: &mut Bytes) -> (r: Result<Record, DnsError>)
        requires
            old(bytes).wf(),
        ensures
            final(bytes).buf@ == old(bytes).buf@,
            final(bytes).occs() == old(bytes).occs(),
            final(bytes).wf(),
            match r {
                Ok(rec) => spec_decode_record(old(bytes).buf@, old(bytes).pos as int) == Some(
                    (rec@, final(bytes).pos as int),
                ) && rec.wf(),
                Err(_) => spec_decode_record(old(bytes).buf@, old(bytes).pos as int) is None,
            },
    {
        let ghost buf0 = bytes.buf@;
        let ghost pos0 = bytes.pos as int;
        let name = match Name::from_bytes(bytes) {
            Ok(n) => n,
            Err(e) => {
                return Err(e);
            },
        };
        let r_type = match bytes.read_u16() {
            Some(v) => v,
            None => {
                return Err(DnsError::FormatError);
            },
        };
        let class_raw = match bytes.read_u16() {
            Some(v) => v,
            None => {
                return Err(DnsError::FormatError);
            },
        };
        let ttl = match bytes.read_u32() {
            Some(v) => v,
            None => {
                return Err(DnsError::FormatError);
            },
        };
        let rd_len = match bytes.read_u16() {
            Some(v) => v,
            None => {
                return Err(DnsError::FormatError);
            },
        };
        let ghost q0 = bytes.pos as int;
        if r_type == 41 {
            // The OPT pseudo-record: its name must be root, its class
            // slot is the maximum response size, its ttl slot packs the
            // extended response code, version and DNSSEC-OK flag.
            if !name.is_root() {
                return Err(DnsError::FormatError);
            }
            let data = match bytes.read_exact(rd_len as usize) {
                Some(v) => v,
                None => {
                    return Err(DnsError::FormatError);
                },
            };
            return Ok(
                Record::Opt {
                    name,
                    max_response_size: class_raw,
                    extended_rcode: (ttl / 0x1000000) as u8,
                    version: ((ttl / 0x10000) % 256) as u8,
                    dnssec_ok: (ttl / 0x8000) % 2 == 1,
                    data,
                },
            );
        }
        let class = match Class::from_code(class_raw) {
            Ok(c) => c,
            Err(e) => {
                return Err(e);
            },
        };
        proof {
            assert(spec_class_of_code(class_raw) == class);
        }
        read_rdata(bytes, name, class, r_type, ttl, rd_len)
    }
}

/// Reads the rdata of a non-OPT record of type `r_type` at the cursor.
fn read_rdata(
    bytes: &mut Bytes,
    name: Name,
    class: Class,
    r_type: u16,
    ttl: u32,
    rd_len: u16,
) -> (r: Result<Record, DnsError>)
    requires
        old(bytes).wf(),
        wf_name(name@),
    ensures
        final(bytes).buf@ == old(bytes).buf@,
        final(bytes).occs() == old(bytes).occs(),
        final(bytes).wf(),
        match r {
            Ok(rec) => spec_decode_rdata(
                old(bytes).buf@,
                name@,
                class,
                r_type,
                ttl,
                rd_len as int,
                old(bytes).pos as int,
            ) == Some((rec@, final(bytes).pos as int)) && rec.wf(),
            Err(_) => spec_decode_rdata(
                old(bytes).buf@,
                name@,
                class,
                r_type,
                ttl,
                rd_len as int,
                old(bytes).pos as int,
            ) is None,
        },
{
    if r_type <= 9 {
        read_rdata_low(bytes, name, class, r_type, ttl, rd_len)
    } else {
        read_rdata_high(bytes, name, class, r_type, ttl, rd_len)
    }
}

/// Reads the rdata of a record whose type code is at most 9.
#[verifier::rlimit(100)]
#[verifier::spinoff_prover]
fn read_rdata_low(
    bytes: &mut Bytes,
    name: Name,
    class: Class,
    r_type: u16,
    ttl: u32,
    rd_len: u16,
) -> (r: Result<Record, DnsError>)
    requires
        r_type <= 9,
        old(bytes).wf(),
        wf_name(name@),
    ensures
        final(bytes).buf@ == old(bytes).buf@,
        final(bytes).occs() == old(bytes).occs(),
        final(bytes).wf(),
        match r {
            Ok(rec) => spec_decode_rdata(
                old(bytes).buf@,
                name@,
                class,
                r_type,
                ttl,
                rd_len as int,
                old(bytes).pos as int,
            ) == Some((rec@, final(bytes).pos as int)) && rec.wf(),
            Err(_) => spec_decode_rdata(
                old(bytes).buf@,
                name@,
                class,
                r_type,
                ttl,
                rd_len as int,
                old(bytes).pos as int,
            ) is None,
        },
{
    {
        let ghost buf0 = bytes.buf@;
        let ghost q0 = bytes.pos as int;
        if r_type == 1 {
            let addr = match bytes.read_u32() {
                Some(v) => v,
                None => {
                    return Err(DnsError::FormatError);
                },
            };
            Ok(Record::A { name, class, ttl, addr })
        } else if r_type == 2 {
            match Name::from_bytes(bytes) {
                Ok(host) => Ok(Record::Ns { name, class, ttl, host }),
                Err(e) => Err(e),
            }
        } else if r_type == 3 {
            match Name::from_bytes(bytes) {
                Ok(host) => Ok(Record::Md { name, class, ttl, host }),
                Err(e) => Err(e),
            }
        } else if r_type == 4 {
            match Name::from_bytes(bytes) {
                Ok(host) => Ok(Record::Mf { name, class, ttl, host }),
                Err(e) => Err(e),
            }
        } else if r_type == 5 {
            match Name::from_bytes(bytes) {
                Ok(host) => Ok(Record::Cname { name, class, ttl, host }),
                Err(e) => Err(e),
            }
        } else if r_type == 6 {
            let origin = match Name::from_bytes(bytes) {
                Ok(n) => n,
                Err(e) => {
                    return Err(e);
                },
            };
            let mailbox = match Name::from_bytes(bytes) {
                Ok(n) => n,
                Err(e) => {
                    return Err(e);
                },
            };
            if bytes.buf.len() - bytes.pos() < 20 {
                return Err(DnsError::FormatError);
            }
            let version = bytes.read_u32().unwrap();
            let refresh = bytes.read_u32().unwrap();
            let retry = bytes.read_u32().unwrap();
            let expire = bytes.read_u32().unwrap();
            let minimum = bytes.read_u32().unwrap();
            Ok(
                Record::Soa {
                    name,
                    class,
                    ttl,
                    origin,
                    mailbox,
                    version,
                    refresh,
                    retry,
                    expire,
                    minimum,
                },
            )
        } else if r_type == 7 {
            match Name::from_bytes(bytes) {
                Ok(host) => Ok(Record::Mb { name, class, ttl, host }),
                Err(e) => Err(e),
            }
        } else if r_type == 8 {
            match Name::from_bytes(bytes) {
                Ok(host) => Ok(Record::Mg { name, class, ttl, host }),
                Err(e) => Err(e),
            }
        } else if r_type == 9 {
            match Name::from_bytes(bytes) {
                Ok(host) => Ok(Record::Mr { name, class, ttl, host }),
                Err(e) => Err(e),
            }
        } else {
            Err(DnsError::FormatError)
        }
    }
}

/// Reads the rdata of a record whose type code is at least 10.
#[verifier::rlimit(100)]
#[verifier::spinoff_prover]
fn read_rdata_high(
    bytes: &mut Bytes,
    name: Name,
    class: Class,
    r_type: u16,
    ttl: u32,
    rd_len: u16,
) -> (r: Result<Record, DnsError>)
    requires
        r_type >= 10,
        old(bytes).wf(),
        wf_name(name@),
    ensures
        final(bytes).buf@ == old(bytes).buf@,
        final(bytes).occs() == old(bytes).occs(),
        final(bytes).wf(),
        match r {
            Ok(rec) => spec_decode_rdata(
                old(bytes).buf@,
                name@,
                class,
                r_type,
                ttl,
                rd_len as int,
                old(bytes).pos as int,
            ) == Some((rec@, final(bytes).pos as int)) && rec.wf(),
            Err(_) => spec_decode_rdata(
                old(bytes).buf@,
                name@,
                class,
                r_type,
                ttl,
                rd_len as int,
                old(bytes).pos as int,
            ) is None,
        },
{
    {
        let ghost buf0 = bytes.buf@;
        let ghost q0 = bytes.pos as int;
        if r_type == 10 {
            match bytes.read_exact(rd_len as usize) {
                Some(data) => Ok(Record::Null { name, class, ttl, data }),
                None => Err(DnsError::FormatError),
            }
        } else if r_type == 11 {
            if rd_len < 5 {
                return Err(DnsError::FormatError);
            }
            if bytes.buf.len() - bytes.pos() < rd_len as usize {
                return Err(DnsError::FormatError);
            }
            let addr = bytes.read_u32().unwrap();
            let protocol = bytes.read().unwrap();
            let data = bytes.read_exact(rd_len as usize - 5).unwrap();
            proof {
                assert(data@ =~= buf0.subrange(q0 + 5, q0 + rd_len as int));
            }
            Ok(Record::Wks { name, class, ttl, addr, protocol, data })
        } else if r_type == 12 {
            match Name::from_bytes(bytes) {
                Ok(host) => Ok(Record::Ptr { name, class, ttl, host }),
                Err(e) => Err(e),
            }
        } else if r_type == 13 {
            let len1 = match bytes.read() {
                Some(v) => v,
                None => {
                    return Err(DnsError::FormatError);
                },
            };
            let cpu = match bytes.read_exact(len1 as usize) {
                Some(v) => v,
                None => {
                    return Err(DnsError::FormatError);
                },
            };
            let len2 = match bytes.read() {
                Some(v) => v,
                None => {
                    return Err(DnsError::FormatError);
                },
            };
            let os = match bytes.read_exact(len2 as usize) {
                Some(v) => v,
                None => {
                    return Err(DnsError::FormatError);
                },
            };
            Ok(Record::Hinfo { name, class, ttl, cpu, os })
        } else if r_type == 14 {
            let r_mailbox = match Name::from_bytes(bytes) {
                Ok(n) => n,
                Err(e) => {
                    return Err(e);
                },
            };
            let e_mailbox = match Name::from_bytes(bytes) {
                Ok(n) => n,
                Err(e) => {
                    return Err(e);
                },
            };
            Ok(Record::Minfo { name, class, ttl, r_mailbox, e_mailbox })
        } else if r_type == 15 {
            let priority = match bytes.read_u16() {
                Some(v) => v,
                None => {
                    return Err(DnsError::FormatError);
                },
            };
            match Name::from_bytes(bytes) {
                Ok(host) => Ok(Record::Mx { name, class, ttl, priority, host }),
                Err(e) => Err(e),
            }
        } else if r_type == 16 {
            let content = match read_txt_content(bytes, rd_len) {
                Ok(v) => v,
                Err(e) => {
                    return Err(e);
                },
            };
            if content.len() > 65279 {
                return Err(DnsError::FormatError);
            }
            Ok(Record::Txt { name, class, ttl, content })
        } else if r_type == 28 {
            match bytes.read_exact(16) {
                Some(addr) => Ok(Record::Aaaa { name, class, ttl, addr }),
                None => Err(DnsError::FormatError),
            }
        } else {
            Err(DnsError::FormatError)
        }
    }
}

/// Reads TXT character-strings until `rd_len` octets are consumed and
/// concatenates their contents.
fn read_txt_content(bytes: &mut Bytes, rd_len: u16) -> (r: Result<Vec<u8>, DnsError>)
    requires
        old(bytes).wf(),
    ensures
        final(bytes).buf@ == old(bytes).buf@,
        final(bytes).occs() == old(bytes).occs(),
        final(bytes).wf(),
        match r {
            Ok(v) => spec_txt_parse(old(bytes).buf@, old(bytes).pos as int, rd_len as int)
                == Some((v@, final(bytes).pos as int)),
            Err(_) => spec_txt_parse(old(bytes).buf@, old(bytes).pos as int, rd_len as int)
                is None,
        },
{
    let ghost buf0 = bytes.buf@;
    let ghost start = bytes.pos as int;
    let mut content: Vec<u8> = Vec::new();
    let mut read: usize = 0;
    proof {
        assert(Seq::<u8>::empty() + spec_txt_parse(buf0, start, rd_len as int)->Some_0.0
            =~= spec_txt_parse(buf0, start, rd_len as int)->Some_0.0);
    }
    while read < rd_len as usize
        invariant
            bytes.wf(),
            buf0 == old(bytes).buf@,
            start == old(bytes).pos as int,
            bytes.buf@ == buf0,
            bytes.occs() == old(bytes).occs(),
            read <= rd_len as usize + 256,
            ({
                let whole = spec_txt_parse(buf0, start, rd_len as int);
                let rest = spec_txt_parse(buf0, bytes.pos as int, rd_len as int - read as int);
                match rest {
                    None => whole is None,
                    Some(d) => whole matches Some(w) && w.0 == content@ + d.0 && w.1 == d.1,
                }
            }),
        decreases
                (if read >= rd_len as usize {
                    0int
                } else {
                    rd_len as int - read as int
                }),
    {
        let ghost pos_i = bytes.pos as int;
        let len = match bytes.read() {
            Some(v) => v,
            None => {
                return Err(DnsError::FormatError);
            },
        };
        let mut chunk = match bytes.read_exact(len as usize) {
            Some(v) => v,
            None => {
                proof {
                    assert(spec_txt_parse(buf0, pos_i, rd_len as int - read as int) is None);
                }
                return Err(DnsError::FormatError);
            },
        };
        content.append(&mut chunk);
        read = read + len as usize + 1;
    }
    proof {
        assert(spec_txt_parse(buf0, bytes.pos as int, rd_len as int - read as int) == Some((
            Seq::<u8>::empty(),
            bytes.pos as int,
        )));
        assert(content@ + Seq::<u8>::empty() =~= content@);
    }
    Ok(content)
}

/// Writes TXT content as character-strings: 255-octet chunks, each behind
/// its length octet.
fn write_txt_chunks(bytes: &mut Bytes, content: &Vec<u8>)
    requires
        old(bytes).at_end(),
    ensures
        final(bytes).at_end(),
        final(bytes).buf@ == old(bytes).buf@ + txt_chunks(content@),
        final(bytes).occs() == old(bytes).occs(),
{
    let n = content.len();
    let mut off: usize = 0;
    proof {
        assert(content@.skip(0) =~= content@);
    }
    while off < n
        invariant
            n == content@.len(),
            off <= n,
            bytes.at_end(),
            bytes.occs() == old(bytes).occs(),
            txt_chunks(content@) == bytes.buf@.skip(old(bytes).buf@.len() as int) + txt_chunks(
                content@.skip(off as int),
            ),
            old(bytes).buf@.len() <= bytes.buf@.len(),
            bytes.buf@.take(old(bytes).buf@.len() as int) == old(bytes).buf@,
        decreases n - off,
    {
        let ghost pre_buf = bytes.buf@;
        let ghost rest = content@.skip(off as int);
        let chunk = if n - off > 255 {
            255
        } else {
            n - off
        };
        bytes.write(chunk as u8);
        bytes.write_all(slice_subrange(content.as_slice(), off, off + chunk));
        proof {
            let written = seq![chunk as u8] + content@.subrange(off as int, off + chunk);
            assert(bytes.buf@ =~= pre_buf + written);
            if rest.len() <= 255 {
                assert(txt_chunks(rest) == seq![rest.len() as u8] + rest);
                assert(content@.subrange(off as int, off + chunk) =~= rest);
                assert(content@.skip(off + chunk) =~= rest.skip(chunk as int));
                assert(txt_chunks(content@.skip(off + chunk)) == Seq::<u8>::empty());
                assert(written =~= txt_chunks(rest));
            } else {
                assert(txt_chunks(rest) == (seq![255u8] + rest.take(255)) + txt_chunks(
                    rest.skip(255),
                ));
                assert(content@.subrange(off as int, off + chunk) =~= rest.take(255));
                assert(content@.skip(off + chunk) =~= rest.skip(255));
                assert(written =~= seq![255u8] + rest.take(255));
            }
            assert(bytes.buf@.skip(old(bytes).buf@.len() as int) =~= pre_buf.skip(
                old(bytes).buf@.len() as int,
            ) + written);
            assert(bytes.buf@.take(old(bytes).buf@.len() as int) =~= old(bytes).buf@);
        }
        off = off + chunk;
    }
    proof {
        assert(content@.skip(n as int) =~= Seq::<u8>::empty());
        assert(bytes.buf@ =~= old(bytes).buf@ + txt_chunks(content@));
    }
}

} // verus!
