use portscan::error::ScanError;
use portscan::range::{PortRange, MAX_PORT, MIN_PORT};

#[test]
fn range_keeps_its_bounds() {
    let range = PortRange::new(20, 25).unwrap();
    assert_eq!(range.start(), 20);
    assert_eq!(range.end(), 25);
    assert_eq!(range.len(), 6);
}

#[test]
fn range_of_one_port() {
    let range = PortRange::new(443, 443).unwrap();
    assert_eq!(range.len(), 1);
    assert_eq!(range.ports(), vec![443]);
}

#[test]
fn range_that_starts_after_its_end_is_invalid() {
    assert_eq!(PortRange::new(100, 1).err(), Some(ScanError::InvalidRange));
}

#[test]
fn range_with_a_zero_bound_is_invalid() {
    assert_eq!(PortRange::new(0, 10).err(), Some(ScanError::InvalidRange));
    assert_eq!(PortRange::new(0, 0).err(), Some(ScanError::InvalidRange));
    assert_eq!(PortRange::new(5, 0).err(), Some(ScanError::InvalidRange));
}

#[test]
fn full_range_holds_every_port() {
    let range = PortRange::full();
    assert_eq!(range.start(), MIN_PORT);
    assert_eq!(range.end(), MAX_PORT);
    assert_eq!(range.start(), 1);
    assert_eq!(range.end(), 65535);
    assert_eq!(range.len(), 65535);
    let ports = range.ports();
    assert_eq!(ports.len(), 65535);
    assert_eq!(ports[0], 1);
    assert_eq!(ports[65534], 65535);
}

#[test]
fn default_range_is_the_full_range() {
    let range = PortRange::default();
    assert_eq!(range.start(), 1);
    assert_eq!(range.end(), 65535);
}

#[test]
fn ports_ascend_without_gaps() {
    let range = PortRange::new(1, 10).unwrap();
    assert_eq!(range.ports(), vec![1, 2, 3, 4, 5, 6, 7, 8, 9, 10]);
}

#[test]
fn ports_can_be_listed_again() {
    let range = PortRange::new(7, 9).unwrap();
    let first = range.ports();
    let second = range.ports();
    assert_eq!(first, vec![7, 8, 9]);
    assert_eq!(first, second);
}

#[test]
fn get_counts_from_the_first_port() {
    let range = PortRange::new(8000, 8002).unwrap();
    assert_eq!(range.get(0), Some(8000));
    assert_eq!(range.get(2), Some(8002));
    assert_eq!(range.get(3), None);
    assert_eq!(range.port_at(1), 8001);
}

#[test]
fn get_reaches_the_highest_port() {
    let range = PortRange::full();
    assert_eq!(range.get(65534), Some(65535));
    assert_eq!(range.get(65535), None);
    assert_eq!(range.get(usize::MAX), None);
}

#[test]
fn contains_respects_both_bounds() {
    let range = PortRange::new(10, 20).unwrap();
    assert!(!range.contains(9));
    assert!(range.contains(10));
    assert!(range.contains(20));
    assert!(!range.contains(21));
    assert!(!range.contains(0));
}

#[test]
fn invalid_range_is_a_configuration_error() {
    assert!(ScanError::InvalidRange.is_configuration_error());
    assert!(ScanError::InvalidTimeout.is_configuration_error());
    assert!(ScanError::InvalidConcurrencyLimit.is_configuration_error());
    assert!(!ScanError::IncompleteScan.is_configuration_error());
}
