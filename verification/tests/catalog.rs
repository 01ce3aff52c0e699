use udever::device::catalog;
use udever::device::RawDeviceEntry;
use udever::errors::EnumerationError;

fn entry(
    id_vendor: Option<&str>,
    id_product: Option<&str>,
    manufacturer: &str,
    product: &str,
    node: &str,
) -> RawDeviceEntry {
    RawDeviceEntry {
        id_vendor: id_vendor.map(|s| s.to_string()),
        id_product: id_product.map(|s| s.to_string()),
        product: product.to_string(),
        manufacturer: manufacturer.to_string(),
        node_name: node.to_string(),
    }
}

#[test]
fn one_device_yields_one_descriptor() {
    let entries = vec![entry(
        Some("046d"),
        Some("c52b"),
        "Logitech",
        "USB Receiver",
        "1-2",
    )];
    let devices = catalog(&entries).unwrap();
    assert_eq!(devices.len(), 1);
    assert_eq!(devices[0].vendor_id, "046d");
    assert_eq!(devices[0].product_id, "c52b");
    assert_eq!(devices[0].display_name, "Logitech USB Receiver");
    assert_eq!(devices[0].bus_location, "1-2");
}

#[test]
fn attributes_are_trimmed_as_read() {
    let entries = vec![entry(
        Some("046d\n"),
        Some(" c52b \n"),
        " Logitech \n",
        "USB Receiver\n",
        "1-2",
    )];
    let devices = catalog(&entries).unwrap();
    assert_eq!(devices[0].vendor_id, "046d");
    assert_eq!(devices[0].product_id, "c52b");
    assert_eq!(devices[0].display_name, "Logitech USB Receiver");
}

#[test]
fn entries_missing_an_id_are_excluded() {
    let entries = vec![
        entry(None, Some("c52b"), "NoVendor", "X", "1-1"),
        entry(Some("046d"), None, "NoProduct", "Y", "1-2"),
        entry(Some("046d"), Some("c52b"), "Both", "Z", "1-3"),
    ];
    let devices = catalog(&entries).unwrap();
    assert_eq!(devices.len(), 1);
    assert_eq!(devices[0].bus_location, "1-3");
}

#[test]
fn only_partial_entries_mean_no_devices() {
    let entries = vec![
        entry(None, Some("c52b"), "A", "A", "1-1"),
        entry(Some("046d"), None, "B", "B", "1-2"),
    ];
    assert_eq!(catalog(&entries).unwrap_err(), EnumerationError::NoDevices);
}

#[test]
fn root_hubs_are_excluded_even_with_product_id() {
    let entries = vec![
        entry(Some("1d6b"), Some("0002"), "Linux Foundation", "2.0 root hub", "usb1"),
        entry(Some("1d6b\n"), Some("0003"), "Linux Foundation", "3.0 root hub", "usb2"),
        entry(Some("046d"), Some("c52b"), "Logitech", "USB Receiver", "1-2"),
    ];
    let devices = catalog(&entries).unwrap();
    assert_eq!(devices.len(), 1);
    assert_eq!(devices[0].vendor_id, "046d");
}

#[test]
fn empty_tree_fails_enumeration() {
    let entries: Vec<RawDeviceEntry> = Vec::new();
    assert_eq!(catalog(&entries).unwrap_err(), EnumerationError::NoDevices);
}

#[test]
fn blank_attributes_give_empty_display_name() {
    let entries = vec![entry(Some("046d"), Some("c52b"), "  \n", "", "1-2")];
    let devices = catalog(&entries).unwrap();
    assert_eq!(devices[0].display_name, "");
}

#[test]
fn catalog_sorts_by_display_name_stably() {
    let entries = vec![
        entry(Some("1111"), Some("0001"), "Zebra", "", "3-1"),
        entry(Some("2222"), Some("0002"), "Acme", "Hub", "3-2"),
        entry(Some("3333"), Some("0003"), "Acme", "Hub", "3-3"),
    ];
    let devices = catalog(&entries).unwrap();
    assert_eq!(devices.len(), 3);
    assert_eq!(devices[0].display_name, "Acme Hub");
    assert_eq!(devices[0].bus_location, "3-2");
    assert_eq!(devices[1].display_name, "Acme Hub");
    assert_eq!(devices[1].bus_location, "3-3");
    assert_eq!(devices[2].display_name, "Zebra");
}

#[test]
fn sort_is_case_sensitive_lexicographic() {
    let entries = vec![
        entry(Some("1111"), Some("0001"), "alpha", "", "4-1"),
        entry(Some("2222"), Some("0002"), "Beta", "", "4-2"),
    ];
    let devices = catalog(&entries).unwrap();
    // 'B' (0x42) sorts before 'a' (0x61)
    assert_eq!(devices[0].display_name, "Beta");
    assert_eq!(devices[1].display_name, "alpha");
}
