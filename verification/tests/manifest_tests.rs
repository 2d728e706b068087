use compat_scan::manifest::{
    extract_library_paths, manifest_path, parse_installed_apps, select_library_paths,
};

fn sorted(mut v: Vec<u32>) -> Vec<u32> {
    v.sort();
    v
}

#[test]
fn apps_section_yields_declared_ids() {
    let text = b"\"apps\"\n{\n\"440\"\n\"570\"\n}";
    assert_eq!(sorted(parse_installed_apps(text)), vec![440, 570]);
}

#[test]
fn missing_apps_section_yields_empty_set() {
    let text = b"\"libraryfolders\"\n{\n\t\"0\"\n\t{\n\t\t\"path\"\t\t\"/mnt/games\"\n\t}\n}";
    assert_eq!(parse_installed_apps(text), Vec::<u32>::new());
}

#[test]
fn lines_outside_apps_section_are_ignored() {
    let text = b"\"570\"\n\"apps\"\n{\n\t\"440\"\t\t\"123\"\n}\n\"730\"\n";
    assert_eq!(parse_installed_apps(text), vec![440]);
}

#[test]
fn non_numeric_keys_are_skipped() {
    let text = b"\"apps\"\n{\n\"abc\"\n\"440\"\n\"\"\n}";
    assert_eq!(parse_installed_apps(text), vec![440]);
}

#[test]
fn duplicate_ids_are_reported_once() {
    let text = b"\"apps\"\n{\n\"440\"\n\"440\"\n\"570\"\n}";
    assert_eq!(sorted(parse_installed_apps(text)), vec![440, 570]);
}

#[test]
fn identifiers_above_u32_range_are_skipped() {
    let text = b"\"apps\"\n{\n\"4294967295\"\n\"4294967296\"\n}";
    assert_eq!(parse_installed_apps(text), vec![u32::MAX]);
}

#[test]
fn declared_paths_are_collected_at_record_boundaries() {
    let text = b"\"libraryfolders\"\n{\n\t\"0\"\n\t{\n\t\t\"path\"\t\t\"/home/u/.steam\"\n\t}\n\t\"1\"\n\t{\n\t\t\"path\"\t\t\"/mnt/games\"\n\t}\n}";
    let paths = extract_library_paths(text);
    assert_eq!(paths, vec![b"/home/u/.steam".to_vec(), b"/mnt/games".to_vec()]);
}

#[test]
fn path_line_without_value_keeps_previous_candidate() {
    let text = b"\"path\"\n}\n";
    let paths = extract_library_paths(text);
    assert_eq!(paths, Vec::<Vec<u8>>::new());
}

#[test]
fn selection_drops_missing_paths_and_the_root() {
    let cands = vec![b"/a".to_vec(), b"/missing".to_vec(), b"/root".to_vec()];
    let exist = vec![true, false, true];
    let kept = select_library_paths(cands, &exist, b"/root");
    assert_eq!(kept, vec![b"/a".to_vec()]);
}

#[test]
fn selection_keeps_declaration_order() {
    let cands = vec![b"/b".to_vec(), b"/a".to_vec()];
    let exist = vec![true, true];
    let kept = select_library_paths(cands, &exist, b"/root");
    assert_eq!(kept, vec![b"/b".to_vec(), b"/a".to_vec()]);
}

#[test]
fn manifest_path_appends_the_fixed_relative_path() {
    assert_eq!(
        manifest_path(b"/home/u/.steam"),
        b"/home/u/.steam/steamapps/libraryfolders.vdf".to_vec()
    );
}
