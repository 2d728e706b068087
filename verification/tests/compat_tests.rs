use compat_scan::compat::{compatdata_path, scan_compatdata_dirs, CompatData};

fn ids(entries: &[CompatData]) -> Vec<u32> {
    entries.iter().map(|e| e.app_id).collect()
}

#[test]
fn scanner_keeps_numeric_names_and_drops_zero_and_noise() {
    let names = vec![b"0".to_vec(), b"440".to_vec(), b"abc".to_vec()];
    let entries = scan_compatdata_dirs(b"/lib", &names);
    assert_eq!(ids(&entries), vec![440]);
    assert_eq!(entries[0].path, b"/lib/steamapps/compatdata/440".to_vec());
}

#[test]
fn scanner_keeps_each_numeric_name_once_in_order() {
    let names = vec![b"570".to_vec(), b"440".to_vec(), b"570".to_vec()];
    let entries = scan_compatdata_dirs(b"/lib", &names);
    assert_eq!(ids(&entries), vec![570, 440, 570]);
}

#[test]
fn reserved_zero_name_is_literal() {
    // Only the exact name `0` is reserved: `00` parses to 0 and is kept.
    let names = vec![b"00".to_vec(), b"0".to_vec()];
    let entries = scan_compatdata_dirs(b"/lib", &names);
    assert_eq!(ids(&entries), vec![0]);
}

#[test]
fn scanner_respects_u32_range() {
    let names = vec![b"4294967295".to_vec(), b"4294967296".to_vec(), b"+3".to_vec()];
    let entries = scan_compatdata_dirs(b"/lib", &names);
    assert_eq!(ids(&entries), vec![u32::MAX]);
}

#[test]
fn empty_listing_yields_no_entries() {
    let entries = scan_compatdata_dirs(b"/lib", &Vec::new());
    assert!(entries.is_empty());
}

#[test]
fn compatdata_path_appends_the_fixed_relative_path() {
    assert_eq!(
        compatdata_path(b"/home/u/.steam"),
        b"/home/u/.steam/steamapps/compatdata/".to_vec()
    );
}
