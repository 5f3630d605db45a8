//! Answer records and the query kinds they answer.

use trust_dns_proto::error::ProtoError;
use trust_dns_proto::rr::Name;
use vstd::prelude::*;

verus! {

/// What a query asks for. Only the two address kinds are ever answered; every
/// other kind keeps its wire number so that two of them never share a key.
#[derive(Clone, Copy, Debug, PartialEq, Eq, Hash, Structural)]
pub enum RecordType {
    /// An IPv4 address.
    A,
    /// An IPv6 address.
    AAAA,
    /// Any other record type, by its number.
    Other(u16),
}

impl RecordType {
    /// True for the two kinds that ask for an address.
    pub open spec fn is_address(self) -> bool {
        self is A || self is AAAA
    }

    /// Tells whether the query asks for an address.
    pub fn asks_address(&self) -> (yes: bool)
        ensures
            yes == self.is_address(),
    {
        match self {
            RecordType::A => true,
            RecordType::AAAA => true,
            RecordType::Other(_) => false,
        }
    }
}

/// An IP address as a number: the four octets of IPv4 or the sixteen of IPv6,
/// most significant first.
#[derive(Clone, Copy, Debug, PartialEq, Eq, Hash, Structural)]
pub enum IpAddress {
    V4(u32),
    V6(u128),
}

impl IpAddress {
    /// The record type that carries an address of this family.
    pub open spec fn family(self) -> RecordType {
        match self {
            IpAddress::V4(_) => RecordType::A,
            IpAddress::V6(_) => RecordType::AAAA,
        }
    }

    /// The record type that carries an address of this family.
    pub fn record_type(&self) -> (rt: RecordType)
        ensures
            rt == self.family(),
    {
        match self {
            IpAddress::V4(_) => RecordType::A,
            IpAddress::V6(_) => RecordType::AAAA,
        }
    }
}

/// The payload of an answer record.
#[derive(Debug, PartialEq, Eq)]
pub enum RecordData {
    /// An address; the record type follows from the family.
    Address(IpAddress),
    /// Any other payload, carried through untouched: the record type's number
    /// and the record data as it goes on the wire.
    Raw { rtype: u16, rdata: Vec<u8> },
}

/// `RecordData` as a mathematical value.
pub ghost enum RecordDataView {
    Address(IpAddress),
    Raw { rtype: u16, rdata: Seq<u8> },
}

impl View for RecordData {
    type V = RecordDataView;

    open spec fn view(&self) -> RecordDataView {
        match *self {
            RecordData::Address(ip) => RecordDataView::Address(ip),
            RecordData::Raw { rtype, rdata } => RecordDataView::Raw { rtype, rdata: rdata@ },
        }
    }
}

impl Clone for RecordData {
    fn clone(&self) -> (copy: Self)
        ensures
            copy@ == self@,
    {
        match self {
            RecordData::Address(ip) => RecordData::Address(*ip),
            RecordData::Raw { rtype, rdata } => RecordData::Raw {
                rtype: *rtype,
                rdata: rdata.clone(),
            },
        }
    }
}

/// One answer record: the name it is for, its class, how long it may be
/// kept, and its payload.
#[derive(Debug, PartialEq, Eq)]
pub struct ResolvedRecord {
    pub name: String,
    /// The number of the record's class; 1 is the Internet.
    pub class: u16,
    /// Seconds the record stays valid.
    pub ttl: u32,
    pub data: RecordData,
}

/// `ResolvedRecord` as a mathematical value.
pub ghost struct RecordView {
    pub name: Seq<char>,
    pub class: u16,
    pub ttl: u32,
    pub data: RecordDataView,
}

impl View for ResolvedRecord {
    type V = RecordView;

    open spec fn view(&self) -> RecordView {
        RecordView { name: self.name@, class: self.class, ttl: self.ttl, data: self.data@ }
    }
}

impl Clone for ResolvedRecord {
    fn clone(&self) -> (copy: Self)
        ensures
            copy@ == self@,
    {
        ResolvedRecord {
            name: self.name.clone(),
            class: self.class,
            ttl: self.ttl,
            data: self.data.clone(),
        }
    }
}

/// The views of a run of records, in order.
pub open spec fn views(records: Seq<ResolvedRecord>) -> Seq<RecordView> {
    records.map_values(|r: ResolvedRecord| r@)
}

/// Copies a run of records.
pub fn clone_records(records: &[ResolvedRecord]) -> (copy: Vec<ResolvedRecord>)
    ensures
        views(copy@) == views(records@),
{
    let mut copy: Vec<ResolvedRecord> = Vec::new();
    let mut i: usize = 0;
    while i < records.len()
        invariant
            i <= records.len(),
            copy.len() == i,
            forall|j: int| 0 <= j < i ==> copy[j]@ == records[j]@,
        decreases records.len() - i,
    {
        copy.push(records[i].clone());
        i += 1;
    }
    copy
}

/// Seconds a record made from a local entry stays valid.
pub const LOCAL_TTL: u32 = 3600;

/// The number of the Internet class, which every local record is of.
pub const CLASS_IN: u16 = 1;

/// Whether `Name::from_utf8` of trust-dns-proto accepts the text as a domain
/// name. The parser reads labels, escapes and internationalised names; its
/// verdict depends on the text alone.
pub uninterp spec fn parses_as_name(name: Seq<char>) -> bool;

/// Why no record could be made.
#[derive(Clone, Copy, Debug, PartialEq, Eq, Structural)]
pub enum RecordError {
    /// The name is not one that can go on the wire.
    InvalidName,
}

/// The error of trust-dns-proto. It is only handed on, never looked into.
#[verifier::external_type_specification]
#[verifier::external_body]
pub struct ExProtoError(ProtoError);

/// Runs `trust_dns_proto::rr::Name::from_utf8` on the text and drops the
/// parsed name: the contract claims only that the call succeeds exactly on the
/// texts that `parses_as_name` holds of.
#[verifier::external_body]
fn parse_name(name: &str) -> (parsed: Result<(), ProtoError>)
    ensures
        parsed.is_ok() == parses_as_name(name@),
{
    match Name::from_utf8(name) {
        Ok(_) => Ok(()),
        Err(e) => Err(e),
    }
}

/// The record that answers for `name` with the address `ip`.
pub open spec fn local_record(ip: IpAddress, name: Seq<char>) -> RecordView {
    RecordView { name, class: CLASS_IN, ttl: LOCAL_TTL, data: RecordDataView::Address(ip) }
}

/// The record for a local entry whose name has been judged: made when the
/// name was accepted as a domain name, refused otherwise.
pub fn record_for(ip: IpAddress, name: &str, accepted: bool) -> (made: Result<
    ResolvedRecord,
    RecordError,
>)
    ensures
        made.is_ok() == accepted,
        made matches Ok(record) ==> record@ == local_record(ip, name@),
        made matches Err(e) ==> e == RecordError::InvalidName,
{
    if accepted {
        Ok(
            ResolvedRecord {
                name: name.to_owned(),
                class: CLASS_IN,
                ttl: LOCAL_TTL,
                data: RecordData::Address(ip),
            },
        )
    } else {
        Err(RecordError::InvalidName)
    }
}

/// Makes the answer record for a local entry: the entry's name, its address
/// and the fixed lifetime. Fails exactly when the name is no domain name.
pub fn addr_to_record(ip: IpAddress, name: &str) -> (made: Result<ResolvedRecord, RecordError>)
    ensures
        made.is_ok() == parses_as_name(name@),
        made matches Ok(record) ==> record@ == local_record(ip, name@),
        made matches Err(e) ==> e == RecordError::InvalidName,
{
    record_for(ip, name, parse_name(name).is_ok())
}

} // verus!
