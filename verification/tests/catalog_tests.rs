use compat_scan::catalog::{
    catalog_url, fetch_app_info_from_body, fetch_app_info_from_response, is_proton_version,
    proton_version_name,
};

#[test]
fn known_runtime_table_entries() {
    assert_eq!(
        proton_version_name(1493710),
        Some("Proton Experimental".to_owned())
    );
    assert_eq!(proton_version_name(2805730), Some("Proton 9.0".to_owned()));
    assert_eq!(proton_version_name(440), None);
    assert!(is_proton_version(1493710));
    assert!(is_proton_version(2805730));
    assert!(!is_proton_version(440));
}

#[test]
fn known_runtime_lookup_needs_no_response() {
    // The table answers even when no response body is available at all.
    let r = fetch_app_info_from_response(1493710, None);
    assert_eq!(r, Some((true, "Proton Experimental".to_owned())));
    let r = fetch_app_info_from_response(2805730, None);
    assert_eq!(r, Some((true, "Proton 9.0".to_owned())));
}

#[test]
fn unsuccessful_entry_reports_unknown_application() {
    let body = "{\"12345\":{\"success\":false}}";
    let r = fetch_app_info_from_body(12345, body);
    assert_eq!(r, Some((false, "Unknown Application".to_owned())));
}

#[test]
fn successful_entry_reports_its_name() {
    let body = "{\"99\":{\"success\":true,\"data\":{\"name\":\"Half-Life\"}}}";
    let r = fetch_app_info_from_body(99, body);
    assert_eq!(r, Some((true, "Half-Life".to_owned())));
}

#[test]
fn successful_entry_without_name_reports_unknown() {
    let body = "{\"99\":{\"success\":true,\"data\":{}}}";
    let r = fetch_app_info_from_body(99, body);
    assert_eq!(r, Some((true, "Unknown".to_owned())));
}

#[test]
fn success_of_wrong_type_counts_as_failure() {
    let body = "{\"99\":{\"success\":\"yes\"}}";
    let r = fetch_app_info_from_body(99, body);
    assert_eq!(r, Some((false, "Unknown Application".to_owned())));
}

#[test]
fn missing_key_yields_no_data() {
    let body = "{\"12345\":{\"success\":false}}";
    assert_eq!(fetch_app_info_from_body(99, body), None);
}

#[test]
fn malformed_body_yields_no_data() {
    assert_eq!(fetch_app_info_from_body(99, "not json"), None);
    assert_eq!(fetch_app_info_from_body(99, ""), None);
}

#[test]
fn failed_request_yields_no_data_for_unknown_ids() {
    assert_eq!(fetch_app_info_from_response(440, None), None);
}

#[test]
fn url_is_the_detail_endpoint_with_the_id() {
    assert_eq!(
        catalog_url(440),
        b"https://store.steampowered.com/api/appdetails?appids=440".to_vec()
    );
    assert_eq!(
        catalog_url(0),
        b"https://store.steampowered.com/api/appdetails?appids=0".to_vec()
    );
    assert_eq!(
        catalog_url(u32::MAX),
        b"https://store.steampowered.com/api/appdetails?appids=4294967295".to_vec()
    );
}
