use lboot::config::Entry;
use lboot::error::LbootError;
use lboot::image::{device_prefix_len, kernel_path, load_options_size};
use lboot::wide::BoxedCStr16;

#[test]
fn kernel_path_missing_is_wrong_entry() {
    let e = Entry::default();
    assert_eq!(kernel_path(&e).unwrap_err(), LbootError::WrongEntry);
}

#[test]
fn kernel_path_present() {
    let e = Entry {
        name: None,
        vmlinux: Some(BoxedCStr16::new(vec![0x5C, 0x6B, 0])),
        param: None,
    };
    assert_eq!(kernel_path(&e).unwrap().text(), &[0x5Cu16, 0x6B]);
}

#[test]
fn device_prefix_stops_at_file_node() {
    // ACPI, PCI, hard drive, file path, end.
    let nodes = [(0x02u8, 0x01u8), (0x01, 0x01), (0x04, 0x01), (0x04, 0x04), (0x7F, 0xFF)];
    assert_eq!(device_prefix_len(&nodes), 3);
}

#[test]
fn device_prefix_without_file_node_keeps_all() {
    let nodes = [(0x02u8, 0x01u8), (0x04, 0x01), (0x7F, 0xFF)];
    assert_eq!(device_prefix_len(&nodes), 3);
    assert_eq!(device_prefix_len(&[]), 0);
}

#[test]
fn load_options_size_counts_bytes_with_terminator() {
    let p = BoxedCStr16::new(vec![0x71, 0x75, 0x69, 0x65, 0x74, 0]);
    assert_eq!(load_options_size(&p), Some(12));
    let empty = BoxedCStr16::new(vec![0]);
    assert_eq!(load_options_size(&empty), Some(2));
}
