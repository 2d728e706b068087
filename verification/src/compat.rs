//! The compatibility-data scanner: each immediate subdirectory of a
//! library's `steamapps/compatdata/` is named by the decimal identifier
//! of the application it belongs to. The name `0` is reserved and never
//! yields an entry, and a name that is not a decimal number is skipped.

use vstd::prelude::*;

use crate::text::{parse_u32_spec, parse_u32_bytes};

verus! {

/// One discovered compatibility-data directory.
pub struct CompatData {
    pub path: Vec<u8>,
    pub app_id: u32,
}

/// The reserved directory name `0`.
pub open spec fn zero_name() -> Seq<u8> {
    seq![48u8]
}

/// The path of a library's compatibility-data area relative to its root:
/// `/steamapps/compatdata/`.
pub open spec fn compatdata_rel() -> Seq<u8> {
    seq![47u8, 115u8, 116u8, 101u8, 97u8, 109u8, 97u8, 112u8, 112u8, 115u8, 47u8, 99u8, 111u8,
        109u8, 112u8, 97u8, 116u8, 100u8, 97u8, 116u8, 97u8, 47u8]
}

/// The full path of the compatibility-data directory named `name` under
/// the library root `root`.
pub open spec fn compat_path(root: Seq<u8>, name: Seq<u8>) -> Seq<u8> {
    root + compatdata_rel() + name
}

/// The entries the scanner keeps out of the first `i` directory names:
/// decimal names other than `0`, each with its full path and identifier.
pub open spec fn compat_entries_upto(root: Seq<u8>, names: Seq<Seq<u8>>, i: int) -> Seq<
    (Seq<u8>, u32),
>
    decreases i,
{
    if i <= 0 {
        Seq::<(Seq<u8>, u32)>::empty()
    } else {
        let prev = compat_entries_upto(root, names, i - 1);
        let name = names[i - 1];
        match parse_u32_spec(name) {
            Some(id) => if name != zero_name() {
                prev.push((compat_path(root, name), id))
            } else {
                prev
            },
            None => prev,
        }
    }
}

/// Every entry the scanner keeps, in directory order.
pub open spec fn compat_entries_spec(root: Seq<u8>, names: Seq<Seq<u8>>) -> Seq<(Seq<u8>, u32)> {
    compat_entries_upto(root, names, names.len() as int)
}

/// Builds `<root>/steamapps/compatdata/` for a library root.
pub fn compatdata_path(root: &[u8]) -> (r: Vec<u8>)
    ensures
        r@ == root@ + compatdata_rel(),
{
    let rel: [u8; 22] = [47, 115, 116, 101, 97, 109, 97, 112, 112, 115, 47, 99, 111, 109, 112, 97,
        116, 100, 97, 116, 97, 47];
    let mut r = vstd::slice::slice_to_vec(root);
    r.extend_from_slice(rel.as_slice());
    proof {
        assert(rel@ =~= compatdata_rel());
        assert(r@ =~= root@ + compatdata_rel());
    }
    r
}

/// Scans the directory names found under a library root's
/// compatibility-data area: keeps every name that is a decimal identifier
/// other than the reserved `0`, with its full path.
pub fn scan_compatdata_dirs(root: &[u8], names: &Vec<Vec<u8>>) -> (r: Vec<CompatData>)
    ensures
        r@.map_values(|e: CompatData| (e.path@, e.app_id)) == compat_entries_spec(
            root@,
            names@.map_values(|n: Vec<u8>| n@),
        ),
{
    let ghost nv = names@.map_values(|n: Vec<u8>| n@);
    let mut r: Vec<CompatData> = Vec::new();
    let mut i: usize = 0;
    proof {
        assert(r@.map_values(|e: CompatData| (e.path@, e.app_id)) =~= compat_entries_upto(
            root@,
            nv,
            0,
        ));
    }
    while i < names.len()
        invariant
            i <= names@.len(),
            nv == names@.map_values(|n: Vec<u8>| n@),
            r@.map_values(|e: CompatData| (e.path@, e.app_id)) == compat_entries_upto(
                root@,
                nv,
                i as int,
            ),
        decreases names@.len() - i,
    {
        let name: &Vec<u8> = &names[i];
        proof {
            assert(nv[i as int] == names@[i as int]@);
        }
        match parse_u32_bytes(name.as_slice()) {
            Some(id) => {
                let is_zero = name.len() == 1 && name[0] == 48;
                proof {
                    if is_zero {
                        assert(name@ =~= zero_name());
                    }
                }
                if !is_zero {
                    let mut path = compatdata_path(root);
                    path.extend_from_slice(name.as_slice());
                    let ghost prev = r@;
                    r.push(CompatData { path, app_id: id });
                    proof {
                        assert(r@.map_values(|e: CompatData| (e.path@, e.app_id)) =~= prev
                            .map_values(|e: CompatData| (e.path@, e.app_id)).push(
                            (r@.last().path@, r@.last().app_id),
                        ));
                        assert(r@.last().path@ =~= compat_path(root@, name@));
                    }
                }
            },
            None => {},
        }
        i = i + 1;
    }
    r
}

/// What the scanner does with one directory name: a decimal name other
/// than `0` yields exactly one entry carrying its identifier; the
/// reserved `0` and a non-numeric name yield none.
pub proof fn lemma_scan_single_name(root: Seq<u8>, name: Seq<u8>)
    ensures
        parse_u32_spec(name) is Some && name != zero_name() ==> compat_entries_spec(
            root,
            seq![name],
        ) =~= seq![(compat_path(root, name), parse_u32_spec(name).unwrap())],
        parse_u32_spec(name) is None || name == zero_name() ==> compat_entries_spec(
            root,
            seq![name],
        ) =~= Seq::<(Seq<u8>, u32)>::empty(),
{
    assert(compat_entries_upto(root, seq![name], 0) =~= Seq::<(Seq<u8>, u32)>::empty());
}

} // verus!
