use wolapp::arp::{IpAddr, Table, TableRow};
use wolapp::mac::MacAddr;
use wolapp::neighbor::{
    AddressFamily, IpNetRow, NeighborAddress, NeighborAttribute, NeighborRecord, TableError,
};

fn ip(a: u8, b: u8, c: u8, d: u8) -> IpAddr {
    IpAddr::V4([a, b, c, d])
}

fn mac(s: &str) -> MacAddr {
    MacAddr::parse(s).unwrap()
}

fn record(attributes: Vec<NeighborAttribute>) -> NeighborRecord {
    NeighborRecord { attributes }
}

#[test]
fn empty_table_answers_empty() {
    let t = Table::new();
    assert_eq!(t.len(), 0);
    assert!(t.macs_from_ip(ip(10, 0, 0, 5)).is_empty());
    assert!(t.macs_from_ip(IpAddr::V6([0; 16])).is_empty());
    assert!(t.ips_from_mac(mac("aa:bb:cc:dd:ee:ff")).is_empty());
}

#[test]
fn one_ip_many_macs() {
    let mut t = Table::new();
    t.insert(TableRow { ip: ip(10, 0, 0, 5), mac: mac("aa:bb:cc:dd:ee:ff") });
    t.insert(TableRow { ip: ip(10, 0, 0, 5), mac: mac("11:22:33:44:55:66") });
    t.insert(TableRow { ip: ip(10, 0, 0, 6), mac: mac("77:77:77:77:77:77") });
    let macs = t.macs_from_ip(ip(10, 0, 0, 5));
    assert_eq!(macs.len(), 2);
    assert!(macs.contains(&mac("aa:bb:cc:dd:ee:ff")));
    assert!(macs.contains(&mac("11:22:33:44:55:66")));
    assert!(t.macs_from_ip(ip(10, 0, 0, 7)).is_empty());
}

#[test]
fn one_mac_many_ips() {
    let m = mac("aa:bb:cc:dd:ee:ff");
    let mut v6 = [0u8; 16];
    v6[0] = 0xfe;
    v6[1] = 0x80;
    v6[15] = 1;
    let mut t = Table::new();
    t.insert(TableRow { ip: ip(10, 0, 0, 5), mac: m });
    t.insert(TableRow { ip: IpAddr::V6(v6), mac: m });
    let ips = t.ips_from_mac(m);
    assert_eq!(ips, vec![ip(10, 0, 0, 5), IpAddr::V6(v6)]);
    assert!(t.ips_from_mac(mac("00:00:00:00:00:01")).is_empty());
}

#[test]
fn identical_rows_collapse() {
    let row = TableRow { ip: ip(10, 0, 0, 5), mac: mac("aa:bb:cc:dd:ee:ff") };
    let mut t = Table::new();
    assert!(t.insert(row));
    assert!(!t.insert(row));
    assert_eq!(t.len(), 1);
    assert!(t.contains(&row));
    assert_eq!(t.rows(), &vec![row]);
}

#[test]
fn record_with_both_attributes_gives_row() {
    let r = record(vec![
        NeighborAttribute::Other,
        NeighborAttribute::Destination(NeighborAddress::Inet([192, 168, 1, 2])),
        NeighborAttribute::LinkLayerAddress(vec![1, 2, 3, 4, 5, 6]),
    ]);
    assert_eq!(
        TableRow::from_record(&r),
        Some(TableRow { ip: ip(192, 168, 1, 2), mac: MacAddr([1, 2, 3, 4, 5, 6]) })
    );
}

#[test]
fn record_with_ipv6_destination_gives_row() {
    let mut v6 = [0u8; 16];
    v6[15] = 1;
    let r = record(vec![
        NeighborAttribute::LinkLayerAddress(vec![1, 2, 3, 4, 5, 6]),
        NeighborAttribute::Destination(NeighborAddress::Inet6(v6)),
    ]);
    assert_eq!(
        TableRow::from_record(&r),
        Some(TableRow { ip: IpAddr::V6(v6), mac: MacAddr([1, 2, 3, 4, 5, 6]) })
    );
}

#[test]
fn records_without_valid_link_layer_are_dropped() {
    let no_mac = record(vec![NeighborAttribute::Destination(NeighborAddress::Inet([10, 0, 0, 1]))]);
    let short_mac = record(vec![
        NeighborAttribute::Destination(NeighborAddress::Inet([10, 0, 0, 2])),
        NeighborAttribute::LinkLayerAddress(vec![1, 2, 3, 4, 5]),
    ]);
    let long_mac = record(vec![
        NeighborAttribute::Destination(NeighborAddress::Inet([10, 0, 0, 3])),
        NeighborAttribute::LinkLayerAddress(vec![1, 2, 3, 4, 5, 6, 7]),
    ]);
    let other_family = record(vec![
        NeighborAttribute::Destination(NeighborAddress::Other(vec![1, 2])),
        NeighborAttribute::LinkLayerAddress(vec![1, 2, 3, 4, 5, 6]),
    ]);
    let good = record(vec![
        NeighborAttribute::Destination(NeighborAddress::Inet([10, 0, 0, 4])),
        NeighborAttribute::LinkLayerAddress(vec![9, 9, 9, 9, 9, 9]),
    ]);
    assert_eq!(TableRow::from_record(&no_mac), None);
    assert_eq!(TableRow::from_record(&short_mac), None);
    assert_eq!(TableRow::from_record(&long_mac), None);
    assert_eq!(TableRow::from_record(&other_family), None);
    let items = vec![Ok(no_mac), Ok(short_mac), Ok(long_mac), Ok(other_family), Ok(good)];
    let t = Table::from_enumeration(&items).unwrap();
    assert_eq!(t.len(), 1);
    assert_eq!(t.macs_from_ip(ip(10, 0, 0, 4)), vec![MacAddr([9, 9, 9, 9, 9, 9])]);
}

#[test]
fn enumeration_deduplicates() {
    let rec = || {
        Ok(record(vec![
            NeighborAttribute::Destination(NeighborAddress::Inet([10, 0, 0, 5])),
            NeighborAttribute::LinkLayerAddress(vec![0xaa, 0xbb, 0xcc, 0xdd, 0xee, 0xff]),
        ]))
    };
    let t = Table::from_enumeration(&vec![rec(), rec()]).unwrap();
    assert_eq!(t.len(), 1);
}

#[test]
fn failure_after_records_discards_them() {
    let good = record(vec![
        NeighborAttribute::Destination(NeighborAddress::Inet([10, 0, 0, 4])),
        NeighborAttribute::LinkLayerAddress(vec![9, 9, 9, 9, 9, 9]),
    ]);
    let items = vec![Ok(good.clone()), Ok(good), Err(TableError::NeighborTableUnavailable)];
    assert_eq!(
        Table::from_enumeration(&items).unwrap_err(),
        TableError::NeighborTableUnavailable
    );
    assert_eq!(Table::from_enumeration(&vec![]).unwrap().len(), 0);
}

fn net_row(family: AddressFamily, len: u32) -> IpNetRow {
    let mut physical_address = [0u8; 32];
    physical_address[..8].copy_from_slice(&[1, 2, 3, 4, 5, 6, 7, 8]);
    IpNetRow {
        family,
        ipv4: [172, 16, 0, 1],
        ipv6: [0xfe; 16],
        physical_address,
        physical_address_length: len,
    }
}

#[test]
fn fixed_layout_rows() {
    let m = MacAddr([1, 2, 3, 4, 5, 6]);
    assert_eq!(
        TableRow::from_ip_net_row(&net_row(AddressFamily::Inet, 6)),
        Some(TableRow { ip: ip(172, 16, 0, 1), mac: m })
    );
    assert_eq!(
        TableRow::from_ip_net_row(&net_row(AddressFamily::Inet6, 6)),
        Some(TableRow { ip: IpAddr::V6([0xfe; 16]), mac: m })
    );
    assert_eq!(TableRow::from_ip_net_row(&net_row(AddressFamily::Unspecified, 6)), None);
    assert_eq!(TableRow::from_ip_net_row(&net_row(AddressFamily::Inet, 8)), None);
    assert_eq!(TableRow::from_ip_net_row(&net_row(AddressFamily::Inet, 0)), None);
    let rows = vec![
        net_row(AddressFamily::Inet, 6),
        net_row(AddressFamily::Inet, 6),
        net_row(AddressFamily::Inet6, 6),
        net_row(AddressFamily::Unspecified, 6),
        net_row(AddressFamily::Inet, 4),
    ];
    let t = Table::from_ip_net_rows(&rows);
    assert_eq!(t.len(), 2);
    assert_eq!(t.ips_from_mac(m), vec![ip(172, 16, 0, 1), IpAddr::V6([0xfe; 16])]);
}
