//! The report does not depend on the order of its inputs: devices and
//! warnings matter only as sets.
use vstd::prelude::*;

use crate::collect::{some_vendor, some_vendor_in, spec_infer_virtualization};
use crate::detection::{is_report_of, spec_cpu_ids};
use crate::matching::{
    all_found, collected, found, graphics_vendors, hardware_matches, matching_indices, profile_devices,
    profile_selected, profile_table, selected_ids, spec_matching_ids, HardwareIdModel,
    ProfileModel,
};
use crate::normalize::{kept_devices, rejection_warnings, spec_normalize_device};
use crate::order::{
    lemma_bus_sorted_equal, lemma_filter_from, lemma_filter_push, lemma_sorted_same_set_equal,
    lemma_text_order, lemma_warning_order, on_bus, text_less, texts, warning_less,
};
use crate::{warning_models, DetectionReport, DmiModel, EvidenceModel, PciModel, WarningModel};

verus! {

/// No two devices share a bus address.
pub open spec fn distinct_buses(s: Seq<PciModel>) -> bool {
    forall|i: int, j: int|
        0 <= i < s.len() && 0 <= j < s.len() && i != j ==> #[trigger] s[i].bus_id
            != #[trigger] s[j].bus_id
}

// ---------------------------------------------------------------------------
// Normalisation depends on the devices as a set
// ---------------------------------------------------------------------------

proof fn lemma_kept_contains(s: Seq<PciModel>, n: PciModel)
    ensures
        kept_devices(s).contains(n) <==> exists|i: int|
            0 <= i < s.len() && #[trigger] spec_normalize_device(s[i]) == Ok::<PciModel, WarningModel>(n),
    decreases s.len(),
{
    if s.len() > 0 {
        let t = s.drop_last();
        lemma_kept_contains(t, n);
        let k = kept_devices(s);
        let k0 = kept_devices(t);
        if k.contains(n) {
            let p = choose|p: int| 0 <= p < k.len() && k[p] == n;
            if p < k0.len() {
                assert(k0[p] == n);
                let i = choose|i: int|
                    0 <= i < t.len() && #[trigger] spec_normalize_device(t[i]) == Ok::<PciModel, WarningModel>(n);
                assert(s[i] == t[i]);
            } else {
                assert(s[s.len() - 1] == s.last());
            }
        }
        if exists|i: int|
            0 <= i < s.len() && #[trigger] spec_normalize_device(s[i]) == Ok::<PciModel, WarningModel>(n) {
            let i = choose|i: int|
                0 <= i < s.len() && #[trigger] spec_normalize_device(s[i]) == Ok::<PciModel, WarningModel>(n);
            if i < s.len() - 1 {
                assert(t[i] == s[i]);
                let p = choose|p: int| 0 <= p < k0.len() && k0[p] == n;
                assert(k[p] == n);
            } else {
                assert(k[k.len() - 1] == n);
            }
        }
    }
}

proof fn lemma_rejection_contains(s: Seq<PciModel>, w: WarningModel)
    ensures
        rejection_warnings(s).contains(w) <==> exists|i: int|
            0 <= i < s.len() && #[trigger] spec_normalize_device(s[i]) == Err::<PciModel, WarningModel>(w),
    decreases s.len(),
{
    if s.len() > 0 {
        let t = s.drop_last();
        lemma_rejection_contains(t, w);
        let k = rejection_warnings(s);
        let k0 = rejection_warnings(t);
        if k.contains(w) {
            let p = choose|p: int| 0 <= p < k.len() && k[p] == w;
            if p < k0.len() {
                assert(k0[p] == w);
                let i = choose|i: int|
                    0 <= i < t.len() && #[trigger] spec_normalize_device(t[i]) == Err::<PciModel, WarningModel>(w);
                assert(s[i] == t[i]);
            } else {
                assert(s[s.len() - 1] == s.last());
            }
        }
        if exists|i: int|
            0 <= i < s.len() && #[trigger] spec_normalize_device(s[i]) == Err::<PciModel, WarningModel>(w) {
            let i = choose|i: int|
                0 <= i < s.len() && #[trigger] spec_normalize_device(s[i]) == Err::<PciModel, WarningModel>(w);
            if i < s.len() - 1 {
                assert(t[i] == s[i]);
                let p = choose|p: int| 0 <= p < k0.len() && k0[p] == w;
                assert(k[p] == w);
            } else {
                assert(k[k.len() - 1] == w);
            }
        }
    }
}

/// A kept device keeps its bus address.
proof fn lemma_normalize_keeps_bus(d: PciModel)
    ensures
        spec_normalize_device(d) matches Ok(n) ==> n.bus_id == d.bus_id,
{
}

/// With distinct bus addresses, the kept devices on bus `k` are the normal
/// form of the one device on `k`, if it is kept.
proof fn lemma_kept_on_bus(s: Seq<PciModel>, k: Seq<char>)
    requires
        distinct_buses(s),
    ensures
        forall|i: int|
            0 <= i < s.len() && #[trigger] s[i].bus_id == k ==> kept_devices(s).filter(on_bus(k))
                == match spec_normalize_device(s[i]) {
                Ok(n) => seq![n],
                Err(_) => Seq::<PciModel>::empty(),
            },
        (forall|i: int| 0 <= i < s.len() ==> #[trigger] s[i].bus_id != k) ==> kept_devices(s).filter(
            on_bus(k),
        ) == Seq::<PciModel>::empty(),
    decreases s.len(),
{
    reveal_with_fuel(Seq::<_>::filter, 1);
    if s.len() == 0 {
        assert(kept_devices(s) =~= Seq::<PciModel>::empty());
    } else {
        let t = s.drop_last();
        let x = s.last();
        assert(s[s.len() - 1] == x);
        assert forall|i: int, j: int|
            0 <= i < t.len() && 0 <= j < t.len() && i != j implies #[trigger] t[i].bus_id
                != #[trigger] t[j].bus_id by {
            assert(s[i] == t[i] && s[j] == t[j]);
        }
        lemma_kept_on_bus(t, k);
        lemma_normalize_keeps_bus(x);
        let k0 = kept_devices(t);
        match spec_normalize_device(x) {
            Ok(n) => {
                lemma_filter_push(k0, n, on_bus(k));
            },
            Err(_) => {},
        }
        if x.bus_id == k {
            assert forall|i: int| 0 <= i < t.len() implies #[trigger] t[i].bus_id != k by {
                assert(s[i] == t[i]);
            }
            assert(k0.filter(on_bus(k)) == Seq::<PciModel>::empty());
            match spec_normalize_device(x) {
                Ok(n) => {
                    assert(Seq::<PciModel>::empty().push(n) =~= seq![n]);
                },
                Err(_) => {},
            }
        } else {
            assert forall|i: int| 0 <= i < s.len() && #[trigger] s[i].bus_id == k implies kept_devices(
                s,
            ).filter(on_bus(k)) == match spec_normalize_device(s[i]) {
                Ok(n) => seq![n],
                Err(_) => Seq::<PciModel>::empty(),
            } by {
                assert(t[i] == s[i]);
            }
            if forall|i: int| 0 <= i < s.len() ==> #[trigger] s[i].bus_id != k {
                assert forall|i: int| 0 <= i < t.len() implies #[trigger] t[i].bus_id != k by {
                    assert(s[i] == t[i]);
                }
            }
        }
    }
}

proof fn lemma_kept_per_bus_same(s1: Seq<PciModel>, s2: Seq<PciModel>, k: Seq<char>)
    requires
        distinct_buses(s1),
        distinct_buses(s2),
        s1.to_set() == s2.to_set(),
    ensures
        kept_devices(s1).filter(on_bus(k)) == kept_devices(s2).filter(on_bus(k)),
{
    lemma_kept_on_bus(s1, k);
    lemma_kept_on_bus(s2, k);
    if exists|i: int| 0 <= i < s1.len() && #[trigger] s1[i].bus_id == k {
        let i = choose|i: int| 0 <= i < s1.len() && #[trigger] s1[i].bus_id == k;
        assert(s1.to_set().contains(s1[i]));
        let j = choose|j: int| 0 <= j < s2.len() && s2[j] == s1[i];
        assert(s2[j].bus_id == k);
    } else if exists|j: int| 0 <= j < s2.len() && #[trigger] s2[j].bus_id == k {
        let j = choose|j: int| 0 <= j < s2.len() && #[trigger] s2[j].bus_id == k;
        assert(s2.to_set().contains(s2[j]));
        let i = choose|i: int| 0 <= i < s1.len() && s1[i] == s2[j];
        assert(s1[i].bus_id == k);
    }
}

/// The devices of a report are the kept devices, as a set.
proof fn lemma_report_devices_set(ev: EvidenceModel, ws: Seq<WarningModel>, r: DetectionReport)
    requires
        is_report_of(ev, ws, r),
    ensures
        r.evidence@.pci.to_set() == kept_devices(ev.pci).to_set(),
{
    broadcast use vstd::seq_lib::group_filter_ensures;

    let a = r.evidence@.pci;
    let kept = kept_devices(ev.pci);
    assert forall|d: PciModel| a.to_set().contains(d) <==> kept.to_set().contains(d) by {
        let k = d.bus_id;
        assert(a.filter(on_bus(k)) == kept.filter(on_bus(k)));
        lemma_filter_from(kept, on_bus(k));
        lemma_filter_from(a, on_bus(k));
        if a.contains(d) {
            let i = choose|i: int| 0 <= i < a.len() && a[i] == d;
            a.lemma_filter_contains(on_bus(k), i);
            let p = choose|p: int| 0 <= p < kept.filter(on_bus(k)).len() && kept.filter(on_bus(k))[p] == d;
            assert(kept.contains(kept.filter(on_bus(k))[p]));
        }
        if kept.contains(d) {
            let i = choose|i: int| 0 <= i < kept.len() && kept[i] == d;
            kept.lemma_filter_contains(on_bus(k), i);
            let p = choose|p: int| 0 <= p < a.filter(on_bus(k)).len() && a.filter(on_bus(k))[p] == d;
            assert(a.contains(a.filter(on_bus(k))[p]));
        }
    }
    assert(a.to_set() =~= kept.to_set());
}

// ---------------------------------------------------------------------------
// Inference and matching depend on the devices as a set
// ---------------------------------------------------------------------------

proof fn lemma_infer_set(dmi: DmiModel, a: Seq<PciModel>, b: Seq<PciModel>)
    requires
        a.to_set() == b.to_set(),
    ensures
        spec_infer_virtualization(dmi, a) == spec_infer_virtualization(dmi, b),
{
    assert forall|v: Seq<char>| some_vendor(a, v) <==> some_vendor(b, v) by {
        if some_vendor(a, v) {
            let i = choose|i: int| 0 <= i < a.len() && crate::text::eq_ignore_case(#[trigger] a[i].vendor_id, v);
            assert(b.to_set().contains(a[i]));
            let j = choose|j: int| 0 <= j < b.len() && b[j] == a[i];
        }
        if some_vendor(b, v) {
            let i = choose|i: int| 0 <= i < b.len() && crate::text::eq_ignore_case(#[trigger] b[i].vendor_id, v);
            assert(a.to_set().contains(b[i]));
            let j = choose|j: int| 0 <= j < a.len() && a[j] == b[i];
        }
    }
    assert forall|vs: Seq<Seq<char>>| some_vendor_in(a, vs) <==> some_vendor_in(b, vs) by {
        if some_vendor_in(a, vs) {
            let i = choose|i: int| 0 <= i < a.len() && vs.contains(crate::text::lower(#[trigger] a[i].vendor_id));
            assert(b.to_set().contains(a[i]));
            let j = choose|j: int| 0 <= j < b.len() && b[j] == a[i];
        }
        if some_vendor_in(b, vs) {
            let i = choose|i: int| 0 <= i < b.len() && vs.contains(crate::text::lower(#[trigger] b[i].vendor_id));
            assert(a.to_set().contains(b[i]));
            let j = choose|j: int| 0 <= j < a.len() && a[j] == b[i];
        }
    }
}

proof fn lemma_matching_indices_nonempty(devs: Seq<PciModel>, h: HardwareIdModel, n: nat, i: int)
    requires
        0 <= i < n <= devs.len(),
        hardware_matches(h, devs[i]),
    ensures
        matching_indices(devs, h, n).len() > 0,
    decreases n,
{
    if i < n - 1 {
        lemma_matching_indices_nonempty(devs, h, (n - 1) as nat, i);
    }
}

proof fn lemma_collected_nonempty(devs: Seq<PciModel>, hws: Seq<HardwareIdModel>)
    requires
        hws.len() > 0,
        all_found(devs, hws),
    ensures
        collected(devs, hws).len() > 0,
{
    let h = hws[hws.len() - 1];
    assert(found(devs, h));
    let i = choose|i: int| 0 <= i < devs.len() && hardware_matches(h, #[trigger] devs[i]);
    lemma_matching_indices_nonempty(devs, h, devs.len(), i);
}

proof fn lemma_collected_empty(devs: Seq<PciModel>, hws: Seq<HardwareIdModel>)
    requires
        hws.len() == 0,
    ensures
        collected(devs, hws).len() == 0,
{
}

/// A profile has devices exactly when it has hardware IDs and each of them matches a device.
pub(crate) proof fn lemma_profile_devices_nonempty(devs: Seq<PciModel>, p: ProfileModel)
    ensures
        profile_devices(devs, p).len() > 0 <==> p.hardware_ids.len() > 0 && all_found(
            devs,
            p.hardware_ids,
        ),
{
    if p.hardware_ids.len() > 0 && all_found(devs, p.hardware_ids) {
        lemma_collected_nonempty(devs, p.hardware_ids);
    }
    if p.hardware_ids.len() == 0 {
        lemma_collected_empty(devs, p.hardware_ids);
    }
}

proof fn lemma_all_found_set(a: Seq<PciModel>, b: Seq<PciModel>, hws: Seq<HardwareIdModel>)
    requires
        a.to_set() == b.to_set(),
    ensures
        all_found(a, hws) <==> all_found(b, hws),
{
    lemma_all_found_transfer(a, b, hws);
    lemma_all_found_transfer(b, a, hws);
}

proof fn lemma_all_found_transfer(a: Seq<PciModel>, b: Seq<PciModel>, hws: Seq<HardwareIdModel>)
    requires
        a.to_set() == b.to_set(),
    ensures
        all_found(a, hws) ==> all_found(b, hws),
{
    if all_found(a, hws) && !all_found(b, hws) {
        let j = choose|j: int| 0 <= j < hws.len() && !found(b, #[trigger] hws[j]);
        assert(found(a, hws[j]));
        let i = choose|i: int| 0 <= i < a.len() && hardware_matches(hws[j], #[trigger] a[i]);
        assert(a.to_set().contains(a[i]));
        let m = choose|m: int| 0 <= m < b.len() && b[m] == a[i];
        assert(hardware_matches(hws[j], b[m]));
    }
}

proof fn lemma_selected_same(ps: Seq<ProfileModel>, e1: EvidenceModel, e2: EvidenceModel)
    requires
        forall|j: int| 0 <= j < ps.len() ==> profile_selected(#[trigger] ps[j], e1) == profile_selected(ps[j], e2),
    ensures
        selected_ids(ps, e1) == selected_ids(ps, e2),
    decreases ps.len(),
{
    if ps.len() > 0 {
        assert forall|j: int| 0 <= j < ps.drop_last().len() implies profile_selected(
            #[trigger] ps.drop_last()[j],
            e1,
        ) == profile_selected(ps.drop_last()[j], e2) by {
            assert(ps.drop_last()[j] == ps[j]);
        }
        lemma_selected_same(ps.drop_last(), e1, e2);
        assert(ps[ps.len() - 1] == ps.last());
    }
}

proof fn lemma_matching_set(e1: EvidenceModel, e2: EvidenceModel)
    requires
        e1.pci.to_set() == e2.pci.to_set(),
        e1.virtualization == e2.virtualization,
    ensures
        spec_matching_ids(e1) == spec_matching_ids(e2),
{
    let table = profile_table();
    assert forall|j: int| 0 <= j < table.len() implies profile_selected(#[trigger] table[j], e1)
        == profile_selected(table[j], e2) by {
        lemma_profile_devices_nonempty(e1.pci, table[j]);
        lemma_profile_devices_nonempty(e2.pci, table[j]);
        lemma_all_found_set(e1.pci, e2.pci, table[j].hardware_ids);
    }
    lemma_selected_same(table, e1, e2);
    assert forall|v: Seq<char>| graphics_vendors(e1.pci).contains(v) <==> graphics_vendors(
        e2.pci,
    ).contains(v) by {
        let a = e1.pci;
        let b = e2.pci;
        if graphics_vendors(a).contains(v) {
            let i = choose|i: int|
                0 <= i < a.len() && crate::matching::is_graphics_class(#[trigger] a[i].class_id)
                    && a[i].vendor_id == v;
            assert(b.to_set().contains(a[i]));
            let m = choose|m: int| 0 <= m < b.len() && b[m] == a[i];
            assert(crate::matching::is_graphics_class(b[m].class_id));
        }
        if graphics_vendors(b).contains(v) {
            let i = choose|i: int|
                0 <= i < b.len() && crate::matching::is_graphics_class(#[trigger] b[i].class_id)
                    && b[i].vendor_id == v;
            assert(a.to_set().contains(b[i]));
            let m = choose|m: int| 0 <= m < a.len() && a[m] == b[i];
            assert(crate::matching::is_graphics_class(a[m].class_id));
        }
    }
    assert(graphics_vendors(e1.pci) =~= graphics_vendors(e2.pci));
}

// ---------------------------------------------------------------------------
// The law
// ---------------------------------------------------------------------------

/// A report does not depend on the order of its inputs. Two reports whose
/// evidence holds the same devices and whose warnings are the same, each
/// taken as a set (in particular, when one list is a permutation of the
/// other), with the same DMI, CPU and given virtualization evidence, have
/// the same profile IDs, warnings and virtualization environment; and when
/// no two devices of either share a bus address, the same devices too.
pub proof fn law_report_ignores_input_order(
    ev1: EvidenceModel,
    ws1: Seq<WarningModel>,
    r1: DetectionReport,
    ev2: EvidenceModel,
    ws2: Seq<WarningModel>,
    r2: DetectionReport,
)
    requires
        is_report_of(ev1, ws1, r1),
        is_report_of(ev2, ws2, r2),
        ev1.pci.to_set() == ev2.pci.to_set(),
        ws1.to_set() == ws2.to_set(),
        ev1.dmi == ev2.dmi,
        ev1.cpu == ev2.cpu,
        ev1.virtualization == ev2.virtualization,
    ensures
        texts(r1.profile_ids@) == texts(r2.profile_ids@),
        warning_models(r1.warnings@) == warning_models(r2.warnings@),
        r1.evidence@.virtualization == r2.evidence@.virtualization,
        distinct_buses(ev1.pci) && distinct_buses(ev2.pci) ==> r1.evidence@.pci
            == r2.evidence@.pci,
{
    let out1 = r1.evidence@;
    let out2 = r2.evidence@;
    let k1 = kept_devices(ev1.pci);
    let k2 = kept_devices(ev2.pci);
    assert forall|n: PciModel| k1.to_set().contains(n) <==> k2.to_set().contains(n) by {
        lemma_kept_contains(ev1.pci, n);
        lemma_kept_contains(ev2.pci, n);
        if k1.contains(n) {
            let i = choose|i: int|
                0 <= i < ev1.pci.len() && #[trigger] spec_normalize_device(ev1.pci[i]) == Ok::<PciModel, WarningModel>(n);
            assert(ev2.pci.to_set().contains(ev1.pci[i]));
            let j = choose|j: int| 0 <= j < ev2.pci.len() && ev2.pci[j] == ev1.pci[i];
            assert(spec_normalize_device(ev2.pci[j]) == Ok::<PciModel, WarningModel>(n));
        }
        if k2.contains(n) {
            let i = choose|i: int|
                0 <= i < ev2.pci.len() && #[trigger] spec_normalize_device(ev2.pci[i]) == Ok::<PciModel, WarningModel>(n);
            assert(ev1.pci.to_set().contains(ev2.pci[i]));
            let j = choose|j: int| 0 <= j < ev1.pci.len() && ev1.pci[j] == ev2.pci[i];
            assert(spec_normalize_device(ev1.pci[j]) == Ok::<PciModel, WarningModel>(n));
        }
    }
    assert(k1.to_set() =~= k2.to_set());
    lemma_report_devices_set(ev1, ws1, r1);
    lemma_report_devices_set(ev2, ws2, r2);
    assert(out1.pci.to_set() == out2.pci.to_set());
    lemma_infer_set(ev1.dmi, out1.pci, out2.pci);
    assert(out1.virtualization == out2.virtualization);
    lemma_matching_set(out1, out2);
    lemma_text_order();
    lemma_sorted_same_set_equal(texts(r1.profile_ids@), texts(r2.profile_ids@), text_less());

    let all1 = ws1 + rejection_warnings(ev1.pci);
    let all2 = ws2 + rejection_warnings(ev2.pci);
    assert forall|w: WarningModel| all1.to_set().contains(w) <==> all2.to_set().contains(w) by {
        lemma_rejection_contains(ev1.pci, w);
        lemma_rejection_contains(ev2.pci, w);
        let r1w = rejection_warnings(ev1.pci);
        let r2w = rejection_warnings(ev2.pci);
        if r1w.contains(w) {
            let i = choose|i: int|
                0 <= i < ev1.pci.len() && #[trigger] spec_normalize_device(ev1.pci[i]) == Err::<PciModel, WarningModel>(w);
            assert(ev2.pci.to_set().contains(ev1.pci[i]));
            let j = choose|j: int| 0 <= j < ev2.pci.len() && ev2.pci[j] == ev1.pci[i];
            assert(spec_normalize_device(ev2.pci[j]) == Err::<PciModel, WarningModel>(w));
        }
        if r2w.contains(w) {
            let i = choose|i: int|
                0 <= i < ev2.pci.len() && #[trigger] spec_normalize_device(ev2.pci[i]) == Err::<PciModel, WarningModel>(w);
            assert(ev1.pci.to_set().contains(ev2.pci[i]));
            let j = choose|j: int| 0 <= j < ev1.pci.len() && ev1.pci[j] == ev2.pci[i];
            assert(spec_normalize_device(ev1.pci[j]) == Err::<PciModel, WarningModel>(w));
        }
        lemma_concat_contains(ws1, r1w, w);
        lemma_concat_contains(ws2, r2w, w);
        assert(ws1.to_set().contains(w) == ws2.to_set().contains(w));
        assert(ws1.to_set().contains(w) == ws1.contains(w));
        assert(ws2.to_set().contains(w) == ws2.contains(w));
        assert(r1w.contains(w) == r2w.contains(w));
        assert(all1.to_set().contains(w) == all1.contains(w));
        assert(all2.to_set().contains(w) == all2.contains(w));
    }
    assert(all1.to_set() =~= all2.to_set());
    lemma_warning_order();
    lemma_sorted_same_set_equal(warning_models(r1.warnings@), warning_models(r2.warnings@), warning_less());

    if distinct_buses(ev1.pci) && distinct_buses(ev2.pci) {
        assert forall|k: Seq<char>| #[trigger] out1.pci.filter(on_bus(k)) == out2.pci.filter(on_bus(k)) by {
            lemma_kept_per_bus_same(ev1.pci, ev2.pci, k);
        }
        lemma_bus_sorted_equal(out1.pci, out2.pci);
    }
}

pub(crate) proof fn lemma_concat_contains<T>(a: Seq<T>, b: Seq<T>, x: T)
    ensures
        (a + b).contains(x) <==> a.contains(x) || b.contains(x),
{
    if (a + b).contains(x) {
        let i = choose|i: int| 0 <= i < (a + b).len() && (a + b)[i] == x;
        if i >= a.len() {
            assert(b[i - a.len()] == x);
        }
    }
    if a.contains(x) {
        let i = choose|i: int| 0 <= i < a.len() && a[i] == x;
        assert((a + b)[i] == x);
    }
    if b.contains(x) {
        let i = choose|i: int| 0 <= i < b.len() && b[i] == x;
        assert((a + b)[i + a.len()] == x);
    }
}

} // verus!
