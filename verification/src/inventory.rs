//! Reconciliation of the discovered state: the union of the libraries'
//! installed-application sets, and the known runtimes present among the
//! scanned compatibility entries.

use vstd::prelude::*;

use crate::catalog::is_known_runtime;
use crate::catalog::is_proton_version;
use crate::compat::CompatData;
use crate::manifest::SteamLibrary;
use crate::manifest::contains_app_id;

verus! {

/// Appends `id` to a duplicate-free list unless it is already there.
pub fn insert_app_id(ids: &mut Vec<u32>, id: u32)
    requires
        forall|p: int, q: int| 0 <= p < q < old(ids)@.len() ==> old(ids)@[p] != old(ids)@[q],
    ensures
        forall|x: u32| final(ids)@.contains(x) <==> (old(ids)@.contains(x) || x == id),
        forall|p: int, q: int| 0 <= p < q < final(ids)@.len() ==> final(ids)@[p] != final(ids)@[q],
{
    if !contains_app_id(ids, id) {
        let ghost prev = ids@;
        ids.push(id);
        proof {
            assert forall|x: u32| #[trigger] ids@.contains(x) <==> (prev.contains(x) || x
                == id) by {
                if prev.contains(x) {
                    let k = choose|k: int| 0 <= k < prev.len() && prev[k] == x;
                    assert(ids@[k] == x);
                }
                if x == id {
                    assert(ids@[prev.len() as int] == x);
                }
                if ids@.contains(x) {
                    let k = choose|k: int| 0 <= k < ids@.len() && ids@[k] == x;
                    if k < prev.len() {
                        assert(prev[k] == x);
                    }
                }
            }
            assert forall|p: int, q: int| 0 <= p < q < ids@.len() implies ids@[p] != ids@[q] by {
                if q == ids@.len() - 1 {
                    assert(!prev.contains(id));
                    assert(prev[p] == ids@[p]);
                }
            }
        }
    }
}

/// Whether any of the libraries has `id` installed.
pub open spec fn installed_in_any(libs: Seq<SteamLibrary>, id: u32) -> bool {
    exists|j: int| 0 <= j < libs.len() && libs[j].installed_apps@.contains(id)
}

/// The union of the libraries' installed-application sets, without
/// duplicates.
pub fn all_installed_apps(libs: &Vec<SteamLibrary>) -> (r: Vec<u32>)
    ensures
        forall|id: u32| r@.contains(id) <==> installed_in_any(libs@, id),
        forall|p: int, q: int| 0 <= p < q < r@.len() ==> r@[p] != r@[q],
{
    let mut r: Vec<u32> = Vec::new();
    let mut i: usize = 0;
    while i < libs.len()
        invariant
            i <= libs@.len(),
            forall|id: u32|
                r@.contains(id) <==> installed_in_any(#[trigger] libs@.take(i as int), id),
            forall|p: int, q: int| 0 <= p < q < r@.len() ==> r@[p] != r@[q],
        decreases libs@.len() - i,
    {
        let apps: &Vec<u32> = &libs[i].installed_apps;
        let mut k: usize = 0;
        while k < apps.len()
            invariant
                i < libs@.len(),
                k <= apps@.len(),
                apps@ == libs@[i as int].installed_apps@,
                forall|id: u32|
                    r@.contains(id) <==> (installed_in_any(#[trigger] libs@.take(i as int), id)
                        || apps@.take(k as int).contains(id)),
                forall|p: int, q: int| 0 <= p < q < r@.len() ==> r@[p] != r@[q],
            decreases apps@.len() - k,
        {
            let ghost prev = r@;
            insert_app_id(&mut r, apps[k]);
            proof {
                assert(apps@.take(k as int + 1).drop_last() =~= apps@.take(k as int));
                assert forall|id: u32|
                    r@.contains(id) <==> (installed_in_any(libs@.take(i as int), id) || apps@.take(
                        k as int + 1,
                    ).contains(id)) by {
                    let part = apps@.take(k as int + 1);
                    if part.contains(id) {
                        let j = choose|j: int| 0 <= j < part.len() && part[j] == id;
                        if j < k {
                            assert(apps@.take(k as int)[j] == id);
                        } else {
                            assert(id == apps@[k as int]);
                        }
                    }
                    if apps@.take(k as int).contains(id) {
                        let j = choose|j: int|
                            0 <= j < apps@.take(k as int).len() && apps@.take(k as int)[j] == id;
                        assert(part[j] == id);
                    }
                    if id == apps@[k as int] {
                        assert(part[k as int] == id);
                    }
                }
            }
            k = k + 1;
        }
        proof {
            assert(apps@.take(apps@.len() as int) =~= apps@);
            assert forall|id: u32|
                r@.contains(id) <==> installed_in_any(#[trigger] libs@.take(i as int + 1), id) by {
                let upto = libs@.take(i as int + 1);
                if installed_in_any(upto, id) {
                    let j = choose|j: int|
                        0 <= j < upto.len() && upto[j].installed_apps@.contains(id);
                    if j < i {
                        assert(libs@.take(i as int)[j].installed_apps@.contains(id));
                    } else {
                        assert(upto[j].installed_apps@ == apps@);
                    }
                }
                if installed_in_any(libs@.take(i as int), id) {
                    let j = choose|j: int|
                        0 <= j < i && libs@.take(i as int)[j].installed_apps@.contains(id);
                    assert(upto[j].installed_apps@.contains(id));
                }
                if apps@.contains(id) {
                    assert(upto[i as int].installed_apps@.contains(id));
                }
            }
        }
        i = i + 1;
    }
    proof {
        assert(libs@.take(libs@.len() as int) =~= libs@);
    }
    r
}

/// The distinct known-runtime identifiers among the scanned entries, in
/// first-seen order.
pub fn known_runtimes_present(entries: &Vec<CompatData>) -> (r: Vec<u32>)
    ensures
        forall|id: u32|
            #[trigger] r@.contains(id) <==> (is_known_runtime(id) && exists|j: int|
                0 <= j < entries@.len() && (#[trigger] entries@[j].app_id) == id),
        forall|p: int, q: int| 0 <= p < q < r@.len() ==> r@[p] != r@[q],
{
    let mut r: Vec<u32> = Vec::new();
    let mut i: usize = 0;
    while i < entries.len()
        invariant
            i <= entries@.len(),
            forall|id: u32|
                #[trigger] r@.contains(id) <==> (is_known_runtime(id) && exists|j: int|
                    0 <= j < i && (#[trigger] entries@[j].app_id) == id),
            forall|p: int, q: int| 0 <= p < q < r@.len() ==> r@[p] != r@[q],
        decreases entries@.len() - i,
    {
        let ghost prev = r@;
        let id = entries[i].app_id;
        let proton = is_proton_version(id);
        if proton {
            insert_app_id(&mut r, id);
        }
        proof {
            assert forall|x: u32| #[trigger] r@.contains(x) implies (is_known_runtime(x)
                && exists|j: int| 0 <= j < i + 1 && (#[trigger] entries@[j].app_id) == x) by {
                if prev.contains(x) {
                    assert(is_known_runtime(x) && exists|j: int|
                        0 <= j < i && (#[trigger] entries@[j].app_id) == x);
                    let j = choose|j: int| 0 <= j < i && (#[trigger] entries@[j].app_id) == x;
                    assert(0 <= j < i + 1 && entries@[j].app_id == x);
                } else {
                    assert(x == id && proton);
                    assert(entries@[i as int].app_id == x);
                }
            }
            assert forall|x: u32|
                (is_known_runtime(x) && exists|j: int|
                    0 <= j < i + 1 && (#[trigger] entries@[j].app_id) == x) implies #[trigger] r@
                .contains(x) by {
                let j = choose|j: int| 0 <= j < i + 1 && (#[trigger] entries@[j].app_id) == x;
                if j < i {
                    assert(prev.contains(x));
                } else {
                    assert(x == id);
                }
            }
        }
        i = i + 1;
    }
    r
}

} // verus!
