//! Raw neighbor-cache records, as the operating system reports them, and
//! the rules that turn one whole enumeration of them into a snapshot.

use vstd::prelude::*;
use crate::arp::{with_row, IpAddr, Table, TableRow};
use crate::mac::{lemma_mac_of, mac_of, MacAddr};

verus! {

/// The destination of a record, tagged by address family.
#[derive(Debug, Clone)]
pub enum NeighborAddress {
    Inet([u8; 4]),
    Inet6([u8; 16]),
    /// A family other than IPv4 or IPv6, with its raw bytes.
    Other(Vec<u8>),
}

/// One attribute of a raw neighbor record.
#[derive(Debug, Clone)]
pub enum NeighborAttribute {
    Destination(NeighborAddress),
    /// The link-layer address as reported; valid only with six bytes.
    LinkLayerAddress(Vec<u8>),
    /// Any attribute that plays no part in a row.
    Other,
}

/// One raw record of the neighbor cache.
#[derive(Debug, Clone)]
pub struct NeighborRecord {
    pub attributes: Vec<NeighborAttribute>,
}

/// The address-family tag of a fixed-layout table row.
#[derive(Debug, Clone, Copy, PartialEq, Eq)]
pub enum AddressFamily {
    Inet,
    Inet6,
    Unspecified,
}

/// One fixed-layout row of an operating-system address table: the family
/// tag says which of the two address fields holds the destination; the
/// physical address is valid up to its stated length.
#[derive(Debug, Clone, Copy)]
pub struct IpNetRow {
    pub family: AddressFamily,
    pub ipv4: [u8; 4],
    pub ipv6: [u8; 16],
    pub physical_address: [u8; 32],
    pub physical_address_length: u32,
}

/// Why no snapshot could be read.
#[derive(Debug, Clone, Copy, PartialEq, Eq)]
pub enum TableError {
    /// The query channel could not be opened or failed mid-enumeration.
    NeighborTableUnavailable,
}

/// The row that the attributes `attrs` give, read in order from a state in
/// which `ip` and `mac` were found so far. Reading stops once both are
/// found; a link-layer address of a length other than six rejects the record.
pub open spec fn row_from(
    attrs: Seq<NeighborAttribute>,
    ip: Option<IpAddr>,
    mac: Option<MacAddr>,
) -> Option<TableRow>
    decreases attrs.len(),
{
    if ip is Some && mac is Some {
        Some(TableRow { ip: ip->0, mac: mac->0 })
    } else if attrs.len() == 0 {
        None
    } else {
        let rest = attrs.drop_first();
        match attrs[0] {
            NeighborAttribute::Destination(NeighborAddress::Inet(a)) => row_from(
                rest,
                Some(IpAddr::V4(a)),
                mac,
            ),
            NeighborAttribute::Destination(NeighborAddress::Inet6(a)) => row_from(
                rest,
                Some(IpAddr::V6(a)),
                mac,
            ),
            NeighborAttribute::LinkLayerAddress(raw) => if raw@.len() == 6 {
                row_from(rest, ip, Some(mac_of(raw@)))
            } else {
                None
            },
            _ => row_from(rest, ip, mac),
        }
    }
}

/// The row that a record gives, if any.
pub open spec fn record_row(rec: NeighborRecord) -> Option<TableRow> {
    row_from(rec.attributes@, None, None)
}

/// The rows that the successful items of an enumeration give, in order,
/// identical rows held once.
pub open spec fn rows_of(items: Seq<Result<NeighborRecord, TableError>>) -> Seq<TableRow>
    decreases items.len(),
{
    if items.len() == 0 {
        Seq::empty()
    } else {
        let rest = rows_of(items.drop_last());
        match items.last() {
            Ok(rec) => match record_row(rec) {
                Some(row) => with_row(rest, row),
                None => rest,
            },
            Err(_) => rest,
        }
    }
}

/// Whether the enumeration failed at some point.
pub open spec fn enumeration_failed(items: Seq<Result<NeighborRecord, TableError>>) -> bool {
    exists|i: int| 0 <= i < items.len() && (#[trigger] items[i]) is Err
}

/// A record whose every link-layer address attribute is malformed (in
/// particular one with none at all) gives no row.
pub proof fn lemma_no_valid_link_layer(attrs: Seq<NeighborAttribute>, ip: Option<IpAddr>)
    requires
        forall|i: int|
            0 <= i < attrs.len() ==> match #[trigger] attrs[i] {
                NeighborAttribute::LinkLayerAddress(raw) => raw@.len() != 6,
                _ => true,
            },
    ensures
        row_from(attrs, ip, None) is None,
    decreases attrs.len(),
{
    if attrs.len() > 0 {
        let rest = attrs.drop_first();
        assert forall|i: int| 0 <= i < rest.len() implies match #[trigger] rest[i] {
            NeighborAttribute::LinkLayerAddress(raw) => raw@.len() != 6,
            _ => true,
        } by {
            assert(rest[i] == attrs[i + 1]);
        }
        match attrs[0] {
            NeighborAttribute::Destination(NeighborAddress::Inet(a)) => {
                lemma_no_valid_link_layer(rest, Some(IpAddr::V4(a)));
            },
            NeighborAttribute::Destination(NeighborAddress::Inet6(a)) => {
                lemma_no_valid_link_layer(rest, Some(IpAddr::V6(a)));
            },
            NeighborAttribute::LinkLayerAddress(raw) => {},
            _ => {
                lemma_no_valid_link_layer(rest, ip);
            },
        }
    }
}

/// A record that gives no row is skipped: the enumeration goes on past it,
/// and the snapshot is what it would be without it.
pub proof fn lemma_dropped_record(
    before: Seq<Result<NeighborRecord, TableError>>,
    rec: NeighborRecord,
    after: Seq<Result<NeighborRecord, TableError>>,
)
    requires
        record_row(rec) is None,
    ensures
        rows_of(before.push(Ok(rec)) + after) == rows_of(before + after),
        enumeration_failed(before.push(Ok(rec)) + after) == enumeration_failed(before + after),
    decreases after.len(),
{
    if after.len() == 0 {
        assert(before.push(Ok(rec)) + after =~= before.push(Ok(rec)));
        assert(before + after =~= before);
        assert(before.push(Ok(rec)).drop_last() =~= before);
    } else {
        let init = after.drop_last();
        lemma_dropped_record(before, rec, init);
        assert((before.push(Ok(rec)) + after).drop_last() =~= before.push(Ok(rec)) + init);
        assert((before + after).drop_last() =~= before + init);
        assert((before.push(Ok(rec)) + after).last() == after.last());
        assert((before + after).last() == after.last());
    }
    let with = before.push(Ok(rec)) + after;
    let without = before + after;
    assert(with.len() == without.len() + 1);
    if enumeration_failed(with) {
        let i = choose|i: int| 0 <= i < with.len() && (#[trigger] with[i]) is Err;
        if i < before.len() {
            assert(without[i] == with[i]);
        } else {
            assert(without[i - 1] == with[i]);
        }
    }
    if enumeration_failed(without) {
        let i = choose|i: int| 0 <= i < without.len() && (#[trigger] without[i]) is Err;
        if i < before.len() {
            assert(without[i] == with[i]);
        } else {
            assert(without[i] == with[i + 1]);
        }
    }
}

/// A failure of the channel after any number of records fails the whole
/// enumeration.
pub proof fn lemma_failure_after_records(
    items: Seq<Result<NeighborRecord, TableError>>,
    e: TableError,
)
    ensures
        enumeration_failed(items.push(Err(e))),
{
    assert(items.push(Err(e))[items.len() as int] is Err);
}

/// The row that a fixed-layout row gives: present when the family is IPv4
/// or IPv6 and the physical address is six bytes long.
pub open spec fn ip_net_row(r: IpNetRow) -> Option<TableRow> {
    if r.physical_address_length != 6 {
        None
    } else {
        match r.family {
            AddressFamily::Inet => Some(
                TableRow { ip: IpAddr::V4(r.ipv4), mac: mac_of(r.physical_address@.take(6)) },
            ),
            AddressFamily::Inet6 => Some(
                TableRow { ip: IpAddr::V6(r.ipv6), mac: mac_of(r.physical_address@.take(6)) },
            ),
            AddressFamily::Unspecified => None,
        }
    }
}

/// The rows that fixed-layout rows give, in order, identical rows held once.
pub open spec fn rows_of_ip_net(rows: Seq<IpNetRow>) -> Seq<TableRow>
    decreases rows.len(),
{
    if rows.len() == 0 {
        Seq::empty()
    } else {
        let rest = rows_of_ip_net(rows.drop_last());
        match ip_net_row(rows.last()) {
            Some(row) => with_row(rest, row),
            None => rest,
        }
    }
}

impl TableRow {
    /// The row of a fixed-layout row; `None` for an unspecified family or a
    /// physical address that is not six bytes long.
    pub fn from_ip_net_row(r: &IpNetRow) -> (res: Option<TableRow>)
        ensures
            res == ip_net_row(*r),
    {
        if r.physical_address_length != 6 {
            return None;
        }
        let p = &r.physical_address;
        let mac = MacAddr([p[0], p[1], p[2], p[3], p[4], p[5]]);
        proof {
            assert(mac.0@ =~= r.physical_address@.take(6));
            lemma_mac_of(r.physical_address@.take(6), mac);
        }
        match r.family {
            AddressFamily::Inet => Some(TableRow { ip: IpAddr::V4(r.ipv4), mac }),
            AddressFamily::Inet6 => Some(TableRow { ip: IpAddr::V6(r.ipv6), mac }),
            AddressFamily::Unspecified => None,
        }
    }

    /// The row of a raw record: its destination and its link-layer address;
    /// `None` when either is missing or the link-layer address is malformed.
    pub fn from_record(rec: &NeighborRecord) -> (r: Option<TableRow>)
        ensures
            r == record_row(*rec),
    {
        let attrs = &rec.attributes;
        let mut ip: Option<IpAddr> = None;
        let mut mac: Option<MacAddr> = None;
        let mut i: usize = 0;
        assert(attrs@.subrange(0, attrs@.len() as int) =~= attrs@);
        while i < attrs.len()
            invariant
                0 <= i <= attrs@.len(),
                attrs@ == rec.attributes@,
                !(ip is Some && mac is Some),
                row_from(attrs@, None, None) == row_from(
                    attrs@.subrange(i as int, attrs@.len() as int),
                    ip,
                    mac,
                ),
            decreases attrs@.len() - i,
        {
            let ghost old_ip = ip;
            let ghost old_mac = mac;
            let ghost tail = attrs@.subrange(i as int, attrs@.len() as int);
            let ghost next = attrs@.subrange(i + 1, attrs@.len() as int);
            assert(tail.drop_first() =~= next);
            assert(tail[0] == attrs@[i as int]);
            match &attrs[i] {
                NeighborAttribute::Destination(NeighborAddress::Inet(a)) => {
                    ip = Some(IpAddr::V4(*a));
                },
                NeighborAttribute::Destination(NeighborAddress::Inet6(a)) => {
                    ip = Some(IpAddr::V6(*a));
                },
                NeighborAttribute::LinkLayerAddress(raw) => {
                    match MacAddr::from_bytes(raw.as_slice()) {
                        Ok(m) => {
                            proof {
                                lemma_mac_of(raw@, m);
                            }
                            mac = Some(m);
                        },
                        Err(_) => {
                            assert(row_from(tail, ip, mac) is None);
                            return None;
                        },
                    }
                },
                _ => {},
            }
            assert(row_from(tail, old_ip, old_mac) == row_from(next, ip, mac));
            i = i + 1;
            if let (Some(found_ip), Some(found_mac)) = (ip, mac) {
                return Some(TableRow { ip: found_ip, mac: found_mac });
            }
        }
        None
    }
}

impl Table {
    /// The snapshot of one whole enumeration. Records that give no row are
    /// skipped; any failure of the channel fails the whole snapshot.
    pub fn from_enumeration(items: &Vec<Result<NeighborRecord, TableError>>) -> (r: Result<
        Table,
        TableError,
    >)
        ensures
            r is Err <==> enumeration_failed(items@),
            r matches Err(e) ==> e == TableError::NeighborTableUnavailable,
            r matches Ok(t) ==> t.wf() && t@ == rows_of(items@),
    {
        let mut table = Table::new();
        let mut i: usize = 0;
        while i < items.len()
            invariant
                0 <= i <= items@.len(),
                table.wf(),
                table@ == rows_of(items@.take(i as int)),
                !enumeration_failed(items@.take(i as int)),
            decreases items@.len() - i,
        {
            assert(items@.take(i + 1).drop_last() =~= items@.take(i as int));
            match &items[i] {
                Ok(rec) => {
                    if let Some(row) = TableRow::from_record(rec) {
                        table.insert(row);
                    }
                },
                Err(_) => {
                    assert(items@[i as int] is Err);
                    return Err(TableError::NeighborTableUnavailable);
                },
            }
            assert(!enumeration_failed(items@.take(i + 1))) by {
                if enumeration_failed(items@.take(i + 1)) {
                    let j = choose|j: int| 0 <= j < i + 1 && (#[trigger] items@.take(i + 1)[j]) is Err;
                    if j < i {
                        assert(items@.take(i as int)[j] is Err);
                    }
                }
            }
            i = i + 1;
        }
        assert(items@.take(i as int) =~= items@);
        Ok(table)
    }

    /// The snapshot of a whole fixed-layout table; rows that give no entry
    /// are skipped.
    pub fn from_ip_net_rows(rows: &Vec<IpNetRow>) -> (t: Table)
        ensures
            t.wf(),
            t@ == rows_of_ip_net(rows@),
    {
        let mut table = Table::new();
        let mut i: usize = 0;
        while i < rows.len()
            invariant
                0 <= i <= rows@.len(),
                table.wf(),
                table@ == rows_of_ip_net(rows@.take(i as int)),
            decreases rows@.len() - i,
        {
            assert(rows@.take(i + 1).drop_last() =~= rows@.take(i as int));
            if let Some(row) = TableRow::from_ip_net_row(&rows[i]) {
                table.insert(row);
            }
            i = i + 1;
        }
        assert(rows@.take(i as int) =~= rows@);
        table
    }
}

} // verus!
