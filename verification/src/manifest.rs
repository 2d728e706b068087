//! The library-folders manifest: a line-oriented, brace-delimited text of
//! quoted key/value pairs. One pass over its lines extracts the set of
//! installed application identifiers from the `"apps"` section; another
//! extracts the additional library paths declared under `"path"` keys.

use vstd::prelude::*;

use crate::text::{
    split_on, split_bytes, trim_spec, trim_bytes, starts_with_spec, starts_with_bytes, bytes_eq,
    parse_u32_spec, parse_u32_bytes, field_spec,
};

verus! {

/// The line that opens the installed-apps section: `"apps"` with its quotes.
pub open spec fn apps_marker() -> Seq<u8> {
    seq![34u8, 97u8, 112u8, 112u8, 115u8, 34u8]
}

/// A closing brace on a line of its own.
pub open spec fn close_brace() -> Seq<u8> {
    seq![125u8]
}

/// The start of a library-folder path line: `"path"` with its quotes.
pub open spec fn path_marker() -> Seq<u8> {
    seq![34u8, 112u8, 97u8, 116u8, 104u8, 34u8]
}

/// One library root with the applications installed under it.
pub struct SteamLibrary {
    pub path: Vec<u8>,
    pub installed_apps: Vec<u32>,
}

/// The path of a library's manifest relative to its root:
/// `/steamapps/libraryfolders.vdf`.
pub open spec fn manifest_rel() -> Seq<u8> {
    seq![47u8, 115u8, 116u8, 101u8, 97u8, 109u8, 97u8, 112u8, 112u8, 115u8, 47u8, 108u8, 105u8,
        98u8, 114u8, 97u8, 114u8, 121u8, 102u8, 111u8, 108u8, 100u8, 101u8, 114u8, 115u8, 46u8,
        118u8, 100u8, 102u8]
}

/// Builds `<root>/steamapps/libraryfolders.vdf` for a library root.
pub fn manifest_path(root: &[u8]) -> (r: Vec<u8>)
    ensures
        r@ == root@ + manifest_rel(),
{
    let rel: [u8; 29] = [47, 115, 116, 101, 97, 109, 97, 112, 112, 115, 47, 108, 105, 98, 114, 97,
        114, 121, 102, 111, 108, 100, 101, 114, 115, 46, 118, 100, 102];
    let mut r = vstd::slice::slice_to_vec(root);
    r.extend_from_slice(rel.as_slice());
    proof {
        assert(rel@ =~= manifest_rel());
        assert(r@ =~= root@ + manifest_rel());
    }
    r
}

/// One parser step for the installed-apps scan: `st` is the flag for being
/// inside the `"apps"` section, with the identifiers collected so far.
pub open spec fn apps_step(st: (bool, Set<u32>), line: Seq<u8>) -> (bool, Set<u32>) {
    let t = trim_spec(line);
    if t == apps_marker() {
        (true, st.1)
    } else if st.0 && t == close_brace() {
        (false, st.1)
    } else if st.0 && t.len() > 0 && t[0] == 34 {
        match field_spec(t, 34, 1) {
            Some(f) => match parse_u32_spec(f) {
                Some(id) => (true, st.1.insert(id)),
                None => st,
            },
            None => st,
        }
    } else {
        st
    }
}

/// The parser state after the first `i` lines.
pub open spec fn apps_fold(lines: Seq<Seq<u8>>, i: int) -> (bool, Set<u32>)
    decreases i,
{
    if i <= 0 {
        (false, Set::<u32>::empty())
    } else {
        apps_step(apps_fold(lines, i - 1), lines[i - 1])
    }
}

/// The set of installed application identifiers a manifest text declares.
pub open spec fn installed_apps_spec(text: Seq<u8>) -> Set<u32> {
    apps_fold(split_on(text, 10), split_on(text, 10).len() as int).1
}

fn apps_marker_bytes() -> (r: Vec<u8>)
    ensures
        r@ == apps_marker(),
{
    let mut v: Vec<u8> = Vec::new();
    v.push(34);
    v.push(97);
    v.push(112);
    v.push(112);
    v.push(115);
    v.push(34);
    proof {
        assert(v@ =~= apps_marker());
    }
    v
}

/// Membership in a list of identifiers.
pub fn contains_app_id(ids: &Vec<u32>, id: u32) -> (r: bool)
    ensures
        r == ids@.contains(id),
{
    let mut i: usize = 0;
    while i < ids.len()
        invariant
            i <= ids@.len(),
            forall|k: int| 0 <= k < i ==> ids@[k] != id,
        decreases ids@.len() - i,
    {
        if ids[i] == id {
            return true;
        }
        i = i + 1;
    }
    false
}

/// Reads the set of installed application identifiers out of a manifest
/// text: inside the `"apps"` section, every quoted key that is a decimal
/// number. The result lists each identifier once, in first-seen order.
pub fn parse_installed_apps(content: &[u8]) -> (r: Vec<u32>)
    ensures
        forall|id: u32| r@.contains(id) <==> installed_apps_spec(content@).contains(id),
        forall|p: int, q: int| 0 <= p < q < r@.len() ==> r@[p] != r@[q],
{
    let lines = split_bytes(content, 10);
    let ghost lv = lines@.map_values(|l: Vec<u8>| l@);
    let apps_m = apps_marker_bytes();
    let mut ids: Vec<u32> = Vec::new();
    let mut in_apps: bool = false;
    let mut i: usize = 0;
    while i < lines.len()
        invariant
            i <= lines@.len(),
            lv == lines@.map_values(|l: Vec<u8>| l@),
            lv == split_on(content@, 10),
            apps_m@ == apps_marker(),
            in_apps == apps_fold(lv, i as int).0,
            forall|id: u32| ids@.contains(id) <==> apps_fold(lv, i as int).1.contains(id),
            forall|p: int, q: int| 0 <= p < q < ids@.len() ==> ids@[p] != ids@[q],
        decreases lines@.len() - i,
    {
        let t: &[u8] = trim_bytes(lines[i].as_slice());
        proof {
            assert(lv[i as int] == lines@[i as int]@);
        }
        if bytes_eq(t, apps_m.as_slice()) {
            in_apps = true;
        } else if in_apps && t.len() == 1 && t[0] == 125 {
            proof {
                assert(t@ =~= close_brace());
            }
            in_apps = false;
        } else if in_apps && t.len() > 0 && t[0] == 34 {
            proof {
                assert(t@ != close_brace());
            }
            let fields = split_bytes(t, 34);
            if fields.len() >= 2 {
                proof {
                    assert(fields@.map_values(|f: Vec<u8>| f@)[1] == fields@[1]@);
                }
                match parse_u32_bytes(fields[1].as_slice()) {
                    Some(id) => {
                        if !contains_app_id(&ids, id) {
                            let ghost prev = ids@;
                            ids.push(id);
                            proof {
                                assert forall|x: u32| #[trigger] ids@.contains(x) <==> (
                                prev.contains(x) || x == id) by {
                                    if prev.contains(x) {
                                        let k = choose|k: int|
                                            0 <= k < prev.len() && prev[k] == x;
                                        assert(ids@[k] == x);
                                    }
                                    if x == id {
                                        assert(ids@[prev.len() as int] == x);
                                    }
                                    if ids@.contains(x) {
                                        let k = choose|k: int|
                                            0 <= k < ids@.len() && ids@[k] == x;
                                        if k < prev.len() {
                                            assert(prev[k] == x);
                                        }
                                    }
                                }
                            }
                        }
                    },
                    None => {},
                }
            }
        } else {
            proof {
                if in_apps && trim_spec(lv[i as int]) == close_brace() {
                    assert(t@.len() == 1 && t@[0] == 125);
                }
            }
        }
        i = i + 1;
    }
    ids
}

proof fn lemma_apps_fold_no_marker(lines: Seq<Seq<u8>>, i: int)
    requires
        0 <= i <= lines.len(),
        forall|k: int| 0 <= k < lines.len() ==> trim_spec(#[trigger] lines[k]) != apps_marker(),
    ensures
        apps_fold(lines, i).0 == false,
        apps_fold(lines, i).1 =~= Set::<u32>::empty(),
    decreases i,
{
    if i > 0 {
        lemma_apps_fold_no_marker(lines, i - 1);
    }
}

/// A manifest text with no `"apps"` section declares no installed
/// applications: if no line trims to the section marker, the extracted
/// set is empty.
pub proof fn lemma_no_apps_section_empty(text: Seq<u8>)
    requires
        forall|k: int|
            0 <= k < split_on(text, 10).len() ==> trim_spec(
                #[trigger] split_on(text, 10)[k],
            ) != apps_marker(),
    ensures
        installed_apps_spec(text) =~= Set::<u32>::empty(),
{
    let lines = split_on(text, 10);
    lemma_apps_fold_no_marker(lines, lines.len() as int);
}

/// One parser step for the library-folders scan: `st` is the path most
/// recently declared in the record in progress, with the paths already
/// collected at their records' closing braces.
pub open spec fn folders_step(st: (Option<Seq<u8>>, Seq<Seq<u8>>), line: Seq<u8>) -> (
    Option<Seq<u8>>,
    Seq<Seq<u8>>,
) {
    let t = trim_spec(line);
    if starts_with_spec(t, path_marker()) {
        match field_spec(t, 34, 3) {
            Some(p) => (Some(p), st.1),
            None => st,
        }
    } else if t == close_brace() && st.0 is Some {
        (None, st.1.push(st.0.unwrap()))
    } else {
        st
    }
}

/// The folder-scan state after the first `i` lines.
pub open spec fn folders_fold(lines: Seq<Seq<u8>>, i: int) -> (Option<Seq<u8>>, Seq<Seq<u8>>)
    decreases i,
{
    if i <= 0 {
        (Option::<Seq<u8>>::None, Seq::<Seq<u8>>::empty())
    } else {
        folders_step(folders_fold(lines, i - 1), lines[i - 1])
    }
}

/// The additional library paths a manifest text declares, in order.
pub open spec fn declared_paths_spec(text: Seq<u8>) -> Seq<Seq<u8>> {
    folders_fold(split_on(text, 10), split_on(text, 10).len() as int).1
}

fn path_marker_bytes() -> (r: Vec<u8>)
    ensures
        r@ == path_marker(),
{
    let mut v: Vec<u8> = Vec::new();
    v.push(34);
    v.push(112);
    v.push(97);
    v.push(116);
    v.push(104);
    v.push(34);
    proof {
        assert(v@ =~= path_marker());
    }
    v
}

/// Reads the additional library paths a manifest text declares: the value
/// of each `"path"` key, collected when its record's closing brace is
/// reached.
pub fn extract_library_paths(content: &[u8]) -> (r: Vec<Vec<u8>>)
    ensures
        r@.map_values(|p: Vec<u8>| p@) == declared_paths_spec(content@),
{
    let lines = split_bytes(content, 10);
    let ghost lv = lines@.map_values(|l: Vec<u8>| l@);
    let path_m = path_marker_bytes();
    let mut out: Vec<Vec<u8>> = Vec::new();
    let mut cur: Option<Vec<u8>> = None;
    let mut i: usize = 0;
    while i < lines.len()
        invariant
            i <= lines@.len(),
            lv == lines@.map_values(|l: Vec<u8>| l@),
            lv == split_on(content@, 10),
            path_m@ == path_marker(),
            match cur {
                Some(ref v) => folders_fold(lv, i as int).0 == Some(v@),
                None => folders_fold(lv, i as int).0 is None,
            },
            out@.map_values(|p: Vec<u8>| p@) == folders_fold(lv, i as int).1,
        decreases lines@.len() - i,
    {
        let t: &[u8] = trim_bytes(lines[i].as_slice());
        proof {
            assert(lv[i as int] == lines@[i as int]@);
        }
        if starts_with_bytes(t, path_m.as_slice()) {
            let mut fields = split_bytes(t, 34);
            if fields.len() >= 4 {
                proof {
                    assert(fields@.map_values(|f: Vec<u8>| f@)[3] == fields@[3]@);
                }
                let p = fields.remove(3);
                cur = Some(p);
            }
        } else if t.len() == 1 && t[0] == 125 {
            proof {
                assert(t@ =~= close_brace());
            }
            match cur {
                Some(p) => {
                    let ghost prev = out@;
                    out.push(p);
                    cur = None;
                    proof {
                        assert(out@.map_values(|q: Vec<u8>| q@) =~= prev.map_values(
                            |q: Vec<u8>| q@,
                        ).push(out@.last()@));
                    }
                },
                None => {},
            }
        } else {
            proof {
                let tt = trim_spec(lv[i as int]);
                if tt == close_brace() {
                    assert(tt.len() == 1 && tt[0] == 125);
                }
            }
        }
        i = i + 1;
    }
    out
}

/// The candidates kept by discovery, among the declared paths: those that
/// exist on disk and differ from the root, in declaration order.
pub open spec fn selected_upto(
    cands: Seq<Seq<u8>>,
    exist: Seq<bool>,
    root: Seq<u8>,
    i: int,
) -> Seq<Seq<u8>>
    decreases i,
{
    if i <= 0 {
        Seq::<Seq<u8>>::empty()
    } else {
        let prev = selected_upto(cands, exist, root, i - 1);
        if exist[i - 1] && cands[i - 1] != root {
            prev.push(cands[i - 1])
        } else {
            prev
        }
    }
}

pub open spec fn selected_paths_spec(cands: Seq<Seq<u8>>, exist: Seq<bool>, root: Seq<u8>) -> Seq<
    Seq<u8>,
> {
    selected_upto(cands, exist, root, cands.len() as int)
}

/// Keeps the declared paths accepted as additional libraries: `exist[k]`
/// says whether `cands[k]` exists on disk, and a path equal to the root is
/// dropped.
pub fn select_library_paths(cands: Vec<Vec<u8>>, exist: &Vec<bool>, root: &[u8]) -> (r: Vec<
    Vec<u8>,
>)
    requires
        cands@.len() == exist@.len(),
    ensures
        r@.map_values(|p: Vec<u8>| p@) == selected_paths_spec(
            cands@.map_values(|p: Vec<u8>| p@),
            exist@,
            root@,
        ),
{
    let ghost cv = cands@.map_values(|p: Vec<u8>| p@);
    let total: usize = cands.len();
    let mut r: Vec<Vec<u8>> = Vec::new();
    let mut i: usize = 0;
    let mut rest = cands;
    proof {
        assert(rest@.map_values(|p: Vec<u8>| p@) =~= cv.skip(0));
    }
    while rest.len() > 0
        invariant
            total == cv.len(),
            i + rest@.len() == cv.len() == exist@.len(),
            rest@.map_values(|p: Vec<u8>| p@) =~= cv.skip(i as int),
            r@.map_values(|p: Vec<u8>| p@) == selected_upto(cv, exist@, root@, i as int),
        decreases rest@.len(),
    {
        let ghost prev_rest = rest@;
        let cand = rest.remove(0);
        proof {
            assert(prev_rest.map_values(|p: Vec<u8>| p@)[0] == cand@);
            assert(cand@ == cv[i as int]);
            assert(rest@.map_values(|p: Vec<u8>| p@) =~= prev_rest.map_values(
                |p: Vec<u8>| p@,
            ).drop_first());
            assert(rest@.map_values(|p: Vec<u8>| p@) =~= cv.skip(i as int + 1));
        }
        if exist[i] && !bytes_eq(cand.as_slice(), root) {
            let ghost prev = r@;
            r.push(cand);
            proof {
                assert(r@.map_values(|p: Vec<u8>| p@) =~= prev.map_values(|p: Vec<u8>| p@).push(
                    r@.last()@,
                ));
            }
        }
        i = i + 1;
    }
    proof {
        assert(cv.skip(cv.len() as int) =~= Seq::<Seq<u8>>::empty());
    }
    r
}

proof fn lemma_selected_upto_sound(cands: Seq<Seq<u8>>, exist: Seq<bool>, root: Seq<u8>, i: int)
    requires
        0 <= i <= cands.len(),
        cands.len() == exist.len(),
    ensures
        forall|j: int|
            0 <= j < selected_upto(cands, exist, root, i).len() ==> (#[trigger] selected_upto(
                cands,
                exist,
                root,
                i,
            )[j]) != root && exists|k: int|
                0 <= k < i && cands[k] == selected_upto(cands, exist, root, i)[j] && exist[k],
        forall|k: int|
            0 <= k < i && exist[k] && cands[k] != root ==> #[trigger] selected_upto(
                cands,
                exist,
                root,
                i,
            ).contains(cands[k]),
    decreases i,
{
    if i > 0 {
        lemma_selected_upto_sound(cands, exist, root, i - 1);
        let prev = selected_upto(cands, exist, root, i - 1);
        let sel = selected_upto(cands, exist, root, i);
        assert forall|k: int|
            0 <= k < i && exist[k] && cands[k] != root implies #[trigger] sel.contains(
            cands[k],
        ) by {
            if k < i - 1 {
                assert(prev.contains(cands[k]));
                let j = choose|j: int| 0 <= j < prev.len() && prev[j] == cands[k];
                assert(sel[j] == cands[k]);
            } else {
                assert(sel[sel.len() - 1] == cands[k]);
            }
        }
    }
}

/// What discovery keeps is sound and complete: every selected path exists
/// on disk, came from the declared candidates, and differs from the root;
/// and every declared path that exists and differs from the root is
/// selected. A declared path that does not exist, or that equals the
/// root, is excluded.
pub proof fn lemma_selected_paths_correct(cands: Seq<Seq<u8>>, exist: Seq<bool>, root: Seq<u8>)
    requires
        cands.len() == exist.len(),
    ensures
        forall|j: int|
            0 <= j < selected_paths_spec(cands, exist, root).len() ==> (
            #[trigger] selected_paths_spec(cands, exist, root)[j]) != root && exists|k: int|
                0 <= k < cands.len() && cands[k] == selected_paths_spec(cands, exist, root)[j]
                    && exist[k],
        forall|k: int|
            0 <= k < cands.len() && exist[k] && cands[k] != root ==> #[trigger] selected_paths_spec(
                cands,
                exist,
                root,
            ).contains(cands[k]),
{
    lemma_selected_upto_sound(cands, exist, root, cands.len() as int);
}

} // verus!
