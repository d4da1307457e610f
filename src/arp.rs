//! Neighbor-table snapshots: rows pairing a network address with a
//! link-layer address, the queries over them, and the rules that turn the
//! records of an operating-system enumeration into a snapshot.

use vstd::prelude::*;
use crate::mac::{bytes_equal, lemma_mac_of, mac_of, MacAddr};

verus! {

/// A network address: IPv4 (four bytes) or IPv6 (sixteen bytes).
#[derive(Debug, Clone, Copy, Eq, Hash)]
pub enum IpAddr {
    V4([u8; 4]),
    V6([u8; 16]),
}

impl PartialEq for IpAddr {
    fn eq(&self, o: &IpAddr) -> (r: bool) {
        match (self, o) {
            (IpAddr::V4(a), IpAddr::V4(b)) => bytes_equal(a, b),
            (IpAddr::V6(a), IpAddr::V6(b)) => bytes_equal(a, b),
            _ => false,
        }
    }
}

impl vstd::std_specs::cmp::PartialEqSpecImpl for IpAddr {
    open spec fn obeys_eq_spec() -> bool {
        true
    }

    open spec fn eq_spec(&self, o: &IpAddr) -> bool {
        *self == *o
    }
}

/// One entry of a neighbor table.
#[derive(Debug, Clone, Copy, Eq, Hash)]
pub struct TableRow {
    pub ip: IpAddr,
    pub mac: MacAddr,
}

impl PartialEq for TableRow {
    fn eq(&self, o: &TableRow) -> (r: bool) {
        self.ip == o.ip && self.mac == o.mac
    }
}

impl vstd::std_specs::cmp::PartialEqSpecImpl for TableRow {
    open spec fn obeys_eq_spec() -> bool {
        true
    }

    open spec fn eq_spec(&self, o: &TableRow) -> bool {
        *self == *o
    }
}

/// A point-in-time snapshot of the neighbor table: a set of rows, each
/// pair of network and link-layer address held once.
#[derive(Debug, Clone)]
pub struct Table {
    rows: Vec<TableRow>,
}

/// The rows `rows` with `row` added, unless an identical row is there.
pub open spec fn with_row(rows: Seq<TableRow>, row: TableRow) -> Seq<TableRow> {
    if rows.contains(row) {
        rows
    } else {
        rows.push(row)
    }
}

/// The link-layer addresses paired with `ip` in `rows`, in row order.
pub open spec fn macs_of(rows: Seq<TableRow>, ip: IpAddr) -> Seq<MacAddr>
    decreases rows.len(),
{
    if rows.len() == 0 {
        Seq::empty()
    } else {
        let rest = macs_of(rows.drop_last(), ip);
        if rows.last().ip == ip {
            rest.push(rows.last().mac)
        } else {
            rest
        }
    }
}

/// The network addresses paired with `mac` in `rows`, in row order.
pub open spec fn ips_of(rows: Seq<TableRow>, mac: MacAddr) -> Seq<IpAddr>
    decreases rows.len(),
{
    if rows.len() == 0 {
        Seq::empty()
    } else {
        let rest = ips_of(rows.drop_last(), mac);
        if rows.last().mac == mac {
            rest.push(rows.last().ip)
        } else {
            rest
        }
    }
}

/// An empty snapshot answers every query with an empty sequence.
pub proof fn lemma_empty_queries(ip: IpAddr, mac: MacAddr)
    ensures
        macs_of(Seq::empty(), ip) == Seq::<MacAddr>::empty(),
        ips_of(Seq::empty(), mac) == Seq::<IpAddr>::empty(),
{
}

/// A link-layer address is among those paired with `ip` exactly when the
/// row `(ip, mac)` is in the snapshot: every pairing is reported.
pub proof fn lemma_macs_complete(rows: Seq<TableRow>, ip: IpAddr, mac: MacAddr)
    ensures
        macs_of(rows, ip).contains(mac) <==> rows.contains(TableRow { ip, mac }),
    decreases rows.len(),
{
    if rows.len() > 0 {
        let init = rows.drop_last();
        lemma_macs_complete(init, ip, mac);
        assert(rows =~= init.push(rows.last()));
        if rows.contains(TableRow { ip, mac }) {
            let k = choose|k: int| 0 <= k < rows.len() && rows[k] == TableRow { ip, mac };
            if k < rows.len() - 1 {
                assert(init[k] == rows[k]);
            }
        }
        if init.contains(TableRow { ip, mac }) {
            let k = choose|k: int| 0 <= k < init.len() && init[k] == TableRow { ip, mac };
            assert(rows[k] == init[k]);
        }
        let rest = macs_of(init, ip);
        if rest.contains(mac) {
            let k = choose|k: int| 0 <= k < rest.len() && rest[k] == mac;
            assert(rest.push(rows.last().mac)[k] == mac);
        }
        if rows.last().ip == ip {
            assert(rest.push(rows.last().mac)[rest.len() as int] == rows.last().mac);
        }
    }
}

/// A network address is among those paired with `mac` exactly when the
/// row `(ip, mac)` is in the snapshot: every pairing is reported.
pub proof fn lemma_ips_complete(rows: Seq<TableRow>, ip: IpAddr, mac: MacAddr)
    ensures
        ips_of(rows, mac).contains(ip) <==> rows.contains(TableRow { ip, mac }),
    decreases rows.len(),
{
    if rows.len() > 0 {
        let init = rows.drop_last();
        lemma_ips_complete(init, ip, mac);
        assert(rows =~= init.push(rows.last()));
        if rows.contains(TableRow { ip, mac }) {
            let k = choose|k: int| 0 <= k < rows.len() && rows[k] == TableRow { ip, mac };
            if k < rows.len() - 1 {
                assert(init[k] == rows[k]);
            }
        }
        if init.contains(TableRow { ip, mac }) {
            let k = choose|k: int| 0 <= k < init.len() && init[k] == TableRow { ip, mac };
            assert(rows[k] == init[k]);
        }
        let rest = ips_of(init, mac);
        if rest.contains(ip) {
            let k = choose|k: int| 0 <= k < rest.len() && rest[k] == ip;
            assert(rest.push(rows.last().ip)[k] == ip);
        }
        if rows.last().mac == mac {
            assert(rest.push(rows.last().ip)[rest.len() as int] == rows.last().ip);
        }
    }
}

/// Adding a row that is already held changes nothing: adding the same row
/// twice is adding it once, and an empty snapshot then holds one row.
pub proof fn lemma_insert_idempotent(rows: Seq<TableRow>, row: TableRow)
    ensures
        with_row(with_row(rows, row), row) == with_row(rows, row),
        with_row(rows, row).contains(row),
        with_row(with_row(Seq::empty(), row), row).len() == 1,
{
    if !rows.contains(row) {
        assert(rows.push(row)[rows.len() as int] == row);
    }
    assert(Seq::<TableRow>::empty().push(row)[0] == row);
}

impl View for Table {
    type V = Seq<TableRow>;

    closed spec fn view(&self) -> Seq<TableRow> {
        self.rows@
    }
}

impl Table {
    /// Each row is held once.
    pub open spec fn wf(&self) -> bool {
        self@.no_duplicates()
    }

    /// The set of rows of the snapshot.
    pub open spec fn entries(&self) -> Set<TableRow> {
        self@.to_set()
    }

    /// An empty snapshot.
    pub fn new() -> (r: Table)
        ensures
            r.wf(),
            r@ == Seq::<TableRow>::empty(),
    {
        Table { rows: Vec::new() }
    }

    /// Number of rows.
    pub fn len(&self) -> (r: usize)
        ensures
            r == self@.len(),
    {
        self.rows.len()
    }

    /// The rows, in the order they were first added.
    pub fn rows(&self) -> (r: &Vec<TableRow>)
        ensures
            r@ == self@,
    {
        &self.rows
    }

    /// Whether the snapshot holds `row`.
    pub fn contains(&self, row: &TableRow) -> (r: bool)
        ensures
            r == self@.contains(*row),
    {
        let mut i: usize = 0;
        while i < self.rows.len()
            invariant
                0 <= i <= self@.len(),
                self@ == self.rows@,
                forall|j: int| 0 <= j < i ==> self@[j] != *row,
            decreases self@.len() - i,
        {
            if self.rows[i] == *row {
                return true;
            }
            i = i + 1;
        }
        false
    }

    /// Adds `row` unless an identical row is held; says whether it was added.
    pub fn insert(&mut self, row: TableRow) -> (added: bool)
        requires
            old(self).wf(),
        ensures
            final(self).wf(),
            final(self)@ == with_row(old(self)@, row),
            added == !old(self)@.contains(row),
    {
        if self.contains(&row) {
            false
        } else {
            self.rows.push(row);
            true
        }
    }

    /// The link-layer addresses paired with `ip`; empty when there are none.
    pub fn macs_from_ip(&self, ip: IpAddr) -> (r: Vec<MacAddr>)
        ensures
            r@ == macs_of(self@, ip),
    {
        let mut out: Vec<MacAddr> = Vec::new();
        let mut i: usize = 0;
        while i < self.rows.len()
            invariant
                0 <= i <= self@.len(),
                self@ == self.rows@,
                out@ == macs_of(self@.take(i as int), ip),
            decreases self@.len() - i,
        {
            let row = self.rows[i];
            assert(self@.take(i + 1).drop_last() =~= self@.take(i as int));
            if row.ip == ip {
                out.push(row.mac);
            }
            i = i + 1;
        }
        assert(self@.take(i as int) =~= self@);
        out
    }

    /// The network addresses paired with `mac`; empty when there are none.
    pub fn ips_from_mac(&self, mac: MacAddr) -> (r: Vec<IpAddr>)
        ensures
            r@ == ips_of(self@, mac),
    {
        let mut out: Vec<IpAddr> = Vec::new();
        let mut i: usize = 0;
        while i < self.rows.len()
            invariant
                0 <= i <= self@.len(),
                self@ == self.rows@,
                out@ == ips_of(self@.take(i as int), mac),
            decreases self@.len() - i,
        {
            let row = self.rows[i];
            assert(self@.take(i + 1).drop_last() =~= self@.take(i as int));
            if row.mac == mac {
                out.push(row.ip);
            }
            i = i + 1;
        }
        assert(self@.take(i as int) =~= self@);
        out
    }
}

} // verus!
