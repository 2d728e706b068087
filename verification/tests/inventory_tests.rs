use compat_scan::compat::scan_compatdata_dirs;
use compat_scan::inventory::{all_installed_apps, insert_app_id, known_runtimes_present};
use compat_scan::manifest::{
    contains_app_id, extract_library_paths, parse_installed_apps, select_library_paths,
    SteamLibrary,
};

fn sorted(mut v: Vec<u32>) -> Vec<u32> {
    v.sort();
    v
}

#[test]
fn union_of_installed_sets_has_no_duplicates() {
    let libs = vec![
        SteamLibrary { path: b"/a".to_vec(), installed_apps: vec![440, 570] },
        SteamLibrary { path: b"/b".to_vec(), installed_apps: vec![570, 730] },
    ];
    assert_eq!(sorted(all_installed_apps(&libs)), vec![440, 570, 730]);
}

#[test]
fn union_of_no_libraries_is_empty() {
    assert_eq!(all_installed_apps(&Vec::new()), Vec::<u32>::new());
}

#[test]
fn known_runtimes_present_lists_each_once() {
    let names = vec![
        b"440".to_vec(),
        b"1493710".to_vec(),
        b"2805730".to_vec(),
        b"1493710".to_vec(),
    ];
    let entries = scan_compatdata_dirs(b"/lib", &names);
    assert_eq!(known_runtimes_present(&entries), vec![1493710, 2805730]);
}

#[test]
fn insert_app_id_is_idempotent() {
    let mut ids = vec![440];
    insert_app_id(&mut ids, 570);
    insert_app_id(&mut ids, 570);
    assert_eq!(ids, vec![440, 570]);
    assert!(contains_app_id(&ids, 440));
    assert!(!contains_app_id(&ids, 730));
}

#[test]
fn end_to_end_discovery_and_scan() {
    // A root whose manifest declares one extra library path that does not
    // exist; its compatdata listing holds `0`, `440` and `abc`. The
    // processed entries are exactly `440`.
    let root: &[u8] = b"/steam";
    let manifest = b"\"libraryfolders\"\n{\n\t\"0\"\n\t{\n\t\t\"path\"\t\t\"/steam\"\n\t}\n\t\"1\"\n\t{\n\t\t\"path\"\t\t\"/mnt/gone\"\n\t}\n\t\"apps\"\n\t{\n\t\t\"440\"\n\t}\n}";

    let root_apps = parse_installed_apps(manifest);
    assert_eq!(root_apps, vec![440]);

    let cands = extract_library_paths(manifest);
    assert_eq!(cands, vec![b"/steam".to_vec(), b"/mnt/gone".to_vec()]);

    // `/steam` equals the root; `/mnt/gone` does not exist on disk.
    let exist = vec![true, false];
    let extra = select_library_paths(cands, &exist, root);
    assert_eq!(extra, Vec::<Vec<u8>>::new());

    let libraries = vec![SteamLibrary { path: root.to_vec(), installed_apps: root_apps }];

    let names = vec![b"0".to_vec(), b"440".to_vec(), b"abc".to_vec()];
    let entries = scan_compatdata_dirs(&libraries[0].path, &names);
    let processed: Vec<u32> = entries.iter().map(|e| e.app_id).collect();
    assert_eq!(processed, vec![440]);

    let installed = all_installed_apps(&libraries);
    assert!(contains_app_id(&installed, 440));
    assert!(!contains_app_id(&installed, 570));
}
