//! Laws of the detector that span its functions.
use vstd::prelude::*;

use crate::detection::{is_report_of, spec_cpu_ids};
use crate::matching::{
    graphics_vendors, is_graphics_class, profile_table, selected_ids, spec_matching_ids,
    spec_vm_profile_id, ProfileModel,
};
use crate::collect::{
    entry_warnings, missing_cpu_field, spec_collect, spec_collect_cpu, spec_collect_pci, spec_infer_virtualization,
    spec_pci_entry, spec_read_optional, PciEntry, Readings,
};
use crate::normalize::{kept_devices, rejection_warnings, spec_normalize_device, spec_normalize_hex, strip_0x};
use crate::order::{
    lemma_bus_sorted_equal, lemma_filter_from, lemma_sorted_same_set_equal, lemma_text_order,
    lemma_warning_order, on_bus, text_less, texts, warning_less,
};
use crate::profile_laws::is_display_class;
use crate::text::{
    all_hex, is_hex_digit, is_ws, lemma_lower_idempotent, lemma_trim_end_at, lemma_trim_fixed,
    lemma_trim_start_at, lower, trim,
};
use crate::{warning_models, CpuModel, DetectionReport, DmiModel, EvidenceModel, PciModel, WarningModel};
use vstd::set::{axiom_set_choose_len, axiom_set_contains_len, axiom_set_remove_len};
use vstd::set_lib::lemma_set_subset_finite;

verus! {

/// The profile IDs that the detector can emit.
pub open spec fn stable_profile_ids() -> Set<Seq<char>> {
    set![
        "cpu.amd"@,
        "cpu.intel"@,
        "graphics.amd"@,
        "graphics.intel"@,
        "graphics.nvidia"@,
        "graphics.hybrid"@,
        "vm.hyperv"@,
        "vm.qemu"@,
        "vm.virtualbox"@,
        "vm.vmware"@,
        "vm.xen"@,
    ]
}

proof fn lemma_selected_ids_from(ps: Seq<ProfileModel>, ev: EvidenceModel)
    ensures
        forall|i: int|
            0 <= i < selected_ids(ps, ev).len() ==> exists|j: int|
                0 <= j < ps.len() && #[trigger] selected_ids(ps, ev)[i] == ps[j].id,
    decreases ps.len(),
{
    if ps.len() > 0 {
        lemma_selected_ids_from(ps.drop_last(), ev);
        let s = selected_ids(ps, ev);
        let before = selected_ids(ps.drop_last(), ev);
        assert forall|i: int| 0 <= i < s.len() implies exists|j: int|
            0 <= j < ps.len() && #[trigger] s[i] == ps[j].id by {
            if i < before.len() {
                let j = choose|j: int| 0 <= j < ps.drop_last().len() && before[i] == ps.drop_last()[j].id;
                assert(ps[j] == ps.drop_last()[j]);
            } else {
                assert(s[i] == ps[ps.len() - 1].id);
            }
        }
    }
}

/// Every profile ID in a report is one of the stable IDs: `cpu.amd`,
/// `cpu.intel`, `graphics.amd`, `graphics.intel`, `graphics.nvidia`,
/// `graphics.hybrid`, `vm.hyperv`, `vm.qemu`, `vm.virtualbox`, `vm.vmware`, `vm.xen`.
pub proof fn law_profile_ids_are_stable(ev: EvidenceModel, ws: Seq<WarningModel>, r: DetectionReport)
    requires
        is_report_of(ev, ws, r),
    ensures
        forall|i: int|
            0 <= i < r.profile_ids@.len() ==> stable_profile_ids().contains(
                #[trigger] texts(r.profile_ids@)[i],
            ),
{
    let out = r.evidence@;
    let all = spec_matching_ids(out) + spec_cpu_ids(ev.cpu);
    let table = profile_table();
    lemma_selected_ids_from(table, out);
    assert forall|i: int| 0 <= i < r.profile_ids@.len() implies stable_profile_ids().contains(
        #[trigger] texts(r.profile_ids@)[i],
    ) by {
        let x = texts(r.profile_ids@)[i];
        assert(texts(r.profile_ids@).to_set().contains(x));
        assert(all.to_set().contains(x));
        let k = choose|k: int| 0 <= k < all.len() && all[k] == x;
        let sel = selected_ids(table, out);
        if k < sel.len() {
            let j = choose|j: int| 0 <= j < table.len() && sel[k] == table[j].id;
            assert(all[k] == sel[k]);
        }
    }
}

/// `graphics.hybrid` is none of the table's profile IDs and no
/// virtualization profile.
proof fn lemma_hybrid_id_is_distinct(ev: EvidenceModel)
    ensures
        !selected_ids(profile_table(), ev).contains("graphics.hybrid"@),
        forall|v: Seq<char>| spec_vm_profile_id(v) != Some("graphics.hybrid"@),
{
    reveal_strlit("graphics.hybrid");
    reveal_strlit("graphics.amd");
    reveal_strlit("graphics.intel");
    reveal_strlit("graphics.nvidia");
    reveal_strlit("vm.qemu");
    reveal_strlit("vm.virtualbox");
    reveal_strlit("vm.vmware");
    reveal_strlit("vm.hyperv");
    reveal_strlit("vm.xen");
    assert("graphics.hybrid"@[9] != "graphics.nvidia"@[9]);
    assert("graphics.hybrid"@[0] != "vm.qemu"@[0]);
    assert("graphics.hybrid"@[0] != "vm.virtualbox"@[0]);
    assert("graphics.hybrid"@[0] != "vm.vmware"@[0]);
    assert("graphics.hybrid"@[0] != "vm.hyperv"@[0]);
    assert("graphics.hybrid"@[0] != "vm.xen"@[0]);
    let table = profile_table();
    lemma_selected_ids_from(table, ev);
    let sel = selected_ids(table, ev);
    if sel.contains("graphics.hybrid"@) {
        let k = choose|k: int| 0 <= k < sel.len() && sel[k] == "graphics.hybrid"@;
        let j = choose|j: int| 0 <= j < table.len() && sel[k] == table[j].id;
    }
}

/// Some two display controllers (class 0300, 0302 or 0380) have different
/// vendor IDs.
pub open spec fn two_graphics_vendors(pci: Seq<PciModel>) -> bool {
    exists|i: int, j: int|
        0 <= i < pci.len() && 0 <= j < pci.len() && is_display_class(#[trigger] pci[i].class_id)
            && is_display_class(#[trigger] pci[j].class_id) && pci[i].vendor_id != pci[j].vendor_id
}

proof fn lemma_graphics_vendors_finite(pci: Seq<PciModel>)
    ensures
        graphics_vendors(pci).finite(),
{
    let all = pci.map_values(|d: PciModel| d.vendor_id).to_set();
    assert forall|v: Seq<char>| graphics_vendors(pci).contains(v) implies all.contains(v) by {
        let i = choose|i: int|
            0 <= i < pci.len() && is_graphics_class(#[trigger] pci[i].class_id) && pci[i].vendor_id == v;
        assert(pci.map_values(|d: PciModel| d.vendor_id)[i] == v);
    }
    pci.map_values(|d: PciModel| d.vendor_id).lemma_cardinality_of_set();
    lemma_set_subset_finite(all, graphics_vendors(pci));
}

/// A finite set has more than one element exactly when it holds two different ones.
proof fn lemma_more_than_one<A>(s: Set<A>)
    requires
        s.finite(),
    ensures
        s.len() > 1 <==> exists|a: A, b: A| s.contains(a) && s.contains(b) && a != b,
{
    broadcast use vstd::set::group_set_axioms;

    if s.len() > 1 {
        let a = s.choose();
        axiom_set_remove_len(s, a);
        let t = s.remove(a);
        axiom_set_choose_len(t);
        let b = t.choose();
        assert(s.contains(a) && s.contains(b) && a != b);
    }
    if exists|a: A, b: A| s.contains(a) && s.contains(b) && a != b {
        let (a, b) = choose|a: A, b: A| s.contains(a) && s.contains(b) && a != b;
        axiom_set_remove_len(s, a);
        axiom_set_contains_len(s.remove(a), b);
    }
}

/// `graphics.hybrid` is matched exactly when display controllers of two
/// different vendors are present.
pub proof fn law_hybrid_iff_two_graphics_vendors(ev: EvidenceModel)
    ensures
        spec_matching_ids(ev).contains("graphics.hybrid"@) <==> two_graphics_vendors(ev.pci),
{
    lemma_hybrid_id_is_distinct(ev);
    lemma_graphics_vendors_finite(ev.pci);
    lemma_more_than_one(graphics_vendors(ev.pci));
    let s = graphics_vendors(ev.pci);
    let m = spec_matching_ids(ev);
    let sel = selected_ids(profile_table(), ev);
    if two_graphics_vendors(ev.pci) {
        let (i, j) = choose|i: int, j: int|
            0 <= i < ev.pci.len() && 0 <= j < ev.pci.len() && is_display_class(
                #[trigger] ev.pci[i].class_id,
            ) && is_display_class(#[trigger] ev.pci[j].class_id) && ev.pci[i].vendor_id
                != ev.pci[j].vendor_id;
        assert(s.contains(ev.pci[i].vendor_id) && s.contains(ev.pci[j].vendor_id));
        assert(m[m.len() - 1] == "graphics.hybrid"@);
    }
    if m.contains("graphics.hybrid"@) {
        let k = choose|k: int| 0 <= k < m.len() && m[k] == "graphics.hybrid"@;
        if k < sel.len() {
            assert(sel[k] == "graphics.hybrid"@);
        }
        if s.len() <= 1 {
            match ev.virtualization {
                Some(v) => {
                    if k >= sel.len() {
                        assert(spec_vm_profile_id(v) == Some(m[k]));
                    }
                },
                None => {},
            }
        } else {
            let (a, b) = choose|a: Seq<char>, b: Seq<char>| s.contains(a) && s.contains(b) && a != b;
            let i = choose|i: int|
                0 <= i < ev.pci.len() && is_graphics_class(#[trigger] ev.pci[i].class_id)
                    && ev.pci[i].vendor_id == a;
            let j = choose|j: int|
                0 <= j < ev.pci.len() && is_graphics_class(#[trigger] ev.pci[j].class_id)
                    && ev.pci[j].vendor_id == b;
        }
    }
}


// ---------------------------------------------------------------------------
// Normal form of devices
// ---------------------------------------------------------------------------

/// Lower-case hexadecimal digits only.
pub open spec fn is_lower_hex(s: Seq<char>) -> bool {
    forall|i: int| 0 <= i < s.len() ==> ('0' <= #[trigger] s[i] <= '9') || ('a' <= s[i] <= 'f')
}

/// A device in normal form: class (class and subclass bytes), vendor and
/// device are four lower-case hex digits, and the bus address is not blank.
pub open spec fn is_normal_device(d: PciModel) -> bool {
    &&& d.class_id.len() == 4 && is_lower_hex(d.class_id)
    &&& d.vendor_id.len() == 4 && is_lower_hex(d.vendor_id)
    &&& d.device_id.len() == 4 && is_lower_hex(d.device_id)
    &&& trim(d.bus_id).len() > 0
}

proof fn lemma_normalized_hex_is_normal(raw: Seq<char>, class_id: bool)
    ensures
        spec_normalize_hex(raw, class_id) matches Some(v) ==> v.len() == 4 && is_lower_hex(v),
{
    let v = strip_0x(trim(raw));
    if spec_normalize_hex(raw, class_id) is Some {
        assert forall|i: int| 0 <= i < lower(v).len() implies ('0' <= #[trigger] lower(v)[i] <= '9')
            || ('a' <= lower(v)[i] <= 'f') by {
            assert(is_hex_digit(v[i]));
        }
    }
}

proof fn lemma_lower_fixed(s: Seq<char>)
    requires
        forall|i: int| 0 <= i < s.len() ==> !('A' <= #[trigger] s[i] <= 'Z'),
    ensures
        lower(s) == s,
{
    assert(lower(s) =~= s);
}

proof fn lemma_normal_hex_fixed(v: Seq<char>, class_id: bool)
    requires
        v.len() == 4,
        is_lower_hex(v),
    ensures
        spec_normalize_hex(v, class_id) == Some(v),
{
    assert(!is_ws(v[0]) && !is_ws(v.last()));
    lemma_trim_fixed(v);
    assert(v[1] != 'x');
    assert forall|i: int| 0 <= i < v.len() implies is_hex_digit(#[trigger] v[i]) by {}
    lemma_lower_fixed(v);
    assert(v.take(4) =~= v);
}

/// Normalising an identifier that is already in normal form gives it back:
/// `normalize_hex` maps its own output to itself.
pub proof fn law_normalize_hex_idempotent(raw: Seq<char>, class_id: bool)
    ensures
        spec_normalize_hex(raw, class_id) matches Some(v) ==> spec_normalize_hex(v, class_id)
            == Some(v),
{
    lemma_normalized_hex_is_normal(raw, class_id);
    if let Some(v) = spec_normalize_hex(raw, class_id) {
        lemma_normal_hex_fixed(v, class_id);
    }
}

/// `pre + core + post` trims to `core` when `pre` and `post` are white
/// space and `core` neither starts nor ends with it.
proof fn lemma_trim_around(pre: Seq<char>, core: Seq<char>, post: Seq<char>)
    requires
        forall|k: int| 0 <= k < pre.len() ==> is_ws(#[trigger] pre[k]),
        forall|k: int| 0 <= k < post.len() ==> is_ws(#[trigger] post[k]),
        core.len() > 0,
        !is_ws(core[0]),
        !is_ws(core.last()),
    ensures
        trim(pre + core + post) == core,
{
    let s = pre + core + post;
    assert forall|k: int| 0 <= k < pre.len() implies is_ws(#[trigger] s[k]) by {
        assert(s[k] == pre[k]);
    }
    assert(s[pre.len() as int] == core[0]);
    lemma_trim_start_at(s, pre.len() as int);
    let t = s.skip(pre.len() as int);
    assert(t =~= core + post);
    assert forall|k: int| core.len() <= k < t.len() implies is_ws(#[trigger] t[k]) by {
        assert(t[k] == post[k - core.len()]);
    }
    assert(t[core.len() - 1] == core.last());
    lemma_trim_end_at(t, core.len() as int);
    assert(t.take(core.len() as int) =~= core);
}

/// A well-formed identifier is accepted: hexadecimal digits of the expected
/// length (four; for a class identifier four or six), in either case, with
/// or without a leading `0x` and with any white space around, normalise to
/// their first four digits in lower case.
pub proof fn law_well_formed_hex_accepted(
    pre: Seq<char>,
    prefixed: bool,
    digits: Seq<char>,
    post: Seq<char>,
    class_id: bool,
)
    requires
        forall|k: int| 0 <= k < pre.len() ==> is_ws(#[trigger] pre[k]),
        forall|k: int| 0 <= k < post.len() ==> is_ws(#[trigger] post[k]),
        digits.len() == 4 || (class_id && digits.len() == 6),
        all_hex(digits),
    ensures
        spec_normalize_hex(
            pre + (if prefixed {
                "0x"@
            } else {
                Seq::<char>::empty()
            }) + digits + post,
            class_id,
        ) == Some(lower(digits.take(4))),
{
    reveal_strlit("0x");
    let p = if prefixed {
        "0x"@
    } else {
        Seq::<char>::empty()
    };
    let core = p + digits;
    assert(is_hex_digit(digits[0]) && is_hex_digit(digits[1]) && is_hex_digit(digits.last()));
    assert(core.last() == digits.last());
    assert(!is_ws(core[0])) by {
        if prefixed {
            assert(core[0] == '0');
        } else {
            assert(core[0] == digits[0]);
        }
    }
    assert(pre + p + digits + post =~= pre + core + post);
    lemma_trim_around(pre, core, post);
    if prefixed {
        assert(core[0] == '0' && core[1] == 'x');
        assert(core.skip(2) =~= digits);
    } else {
        assert(core =~= digits);
        assert(digits[1] != 'x');
    }
    assert(strip_0x(core) == digits);
    assert(lower(digits).take(4) =~= lower(digits.take(4)));
    if !class_id {
        assert(digits.take(4) =~= digits);
    }
}

proof fn lemma_normal_device_fixed(d: PciModel)
    requires
        is_normal_device(d),
    ensures
        spec_normalize_device(d) == Ok::<PciModel, WarningModel>(d),
{
    lemma_normal_hex_fixed(d.class_id, true);
    lemma_normal_hex_fixed(d.vendor_id, false);
    lemma_normal_hex_fixed(d.device_id, false);
}

proof fn lemma_kept_are_normal(s: Seq<PciModel>)
    ensures
        forall|i: int| 0 <= i < kept_devices(s).len() ==> is_normal_device(#[trigger] kept_devices(s)[i]),
    decreases s.len(),
{
    if s.len() > 0 {
        lemma_kept_are_normal(s.drop_last());
        let d = s.last();
        lemma_normalized_hex_is_normal(d.class_id, true);
        lemma_normalized_hex_is_normal(d.vendor_id, false);
        lemma_normalized_hex_is_normal(d.device_id, false);
        let k = kept_devices(s);
        let k0 = kept_devices(s.drop_last());
        assert forall|i: int| 0 <= i < k.len() implies is_normal_device(#[trigger] k[i]) by {
            if i < k0.len() {
                assert(k[i] == k0[i]);
            }
        }
    }
}

proof fn lemma_normal_devices_kept(s: Seq<PciModel>)
    requires
        forall|i: int| 0 <= i < s.len() ==> is_normal_device(#[trigger] s[i]),
    ensures
        kept_devices(s) == s,
        rejection_warnings(s) == Seq::<WarningModel>::empty(),
    decreases s.len(),
{
    if s.len() > 0 {
        assert forall|i: int| 0 <= i < s.drop_last().len() implies is_normal_device(
            #[trigger] s.drop_last()[i],
        ) by {
            assert(s.drop_last()[i] == s[i]);
        }
        lemma_normal_devices_kept(s.drop_last());
        assert(is_normal_device(s[s.len() - 1]));
        lemma_normal_device_fixed(s.last());
        assert(s.drop_last().push(s.last()) =~= s);
    }
}

/// Malformed evidence is ignored with a warning: every device is either
/// kept or dropped with exactly one warning.
pub proof fn law_each_device_kept_or_warned(s: Seq<PciModel>)
    ensures
        kept_devices(s).len() + rejection_warnings(s).len() == s.len(),
    decreases s.len(),
{
    if s.len() > 0 {
        law_each_device_kept_or_warned(s.drop_last());
    }
}

/// Every device of a report is in normal form.
pub proof fn law_report_devices_are_normal(ev: EvidenceModel, ws: Seq<WarningModel>, r: DetectionReport)
    requires
        is_report_of(ev, ws, r),
    ensures
        forall|i: int|
            0 <= i < r.evidence@.pci.len() ==> is_normal_device(#[trigger] r.evidence@.pci[i]),
{
    let a = r.evidence@.pci;
    let kept = kept_devices(ev.pci);
    lemma_kept_are_normal(ev.pci);
    assert forall|i: int| 0 <= i < a.len() implies is_normal_device(#[trigger] a[i]) by {
        let k = a[i].bus_id;
        a.lemma_filter_contains(on_bus(k), i);
        assert(a.filter(on_bus(k)) == kept.filter(on_bus(k)));
        lemma_filter_from(kept, on_bus(k));
        let p = choose|p: int| 0 <= p < kept.filter(on_bus(k)).len() && kept.filter(on_bus(k))[p] == a[i];
        assert(kept.contains(kept.filter(on_bus(k))[p]));
        let j = choose|j: int| 0 <= j < kept.len() && kept[j] == a[i];
    }
}

/// A device of `s` that normalises is kept.
proof fn lemma_kept_contains(s: Seq<PciModel>, i: int)
    requires
        0 <= i < s.len(),
        spec_normalize_device(s[i]) is Ok,
    ensures
        kept_devices(s).contains(spec_normalize_device(s[i])->Ok_0),
    decreases s.len(),
{
    let t = s.drop_last();
    if i < t.len() {
        assert(s[i] == t[i]);
        lemma_kept_contains(t, i);
        let k = choose|k: int|
            0 <= k < kept_devices(t).len() && kept_devices(t)[k] == spec_normalize_device(t[i])->Ok_0;
        assert(kept_devices(s)[k] == kept_devices(t)[k]);
    } else {
        assert(s[i] == s.last());
        assert(kept_devices(s).last() == spec_normalize_device(s[i])->Ok_0);
    }
}

/// A device already in normal form (four lower-case hex digits for class,
/// vendor and device, a bus address that is not blank) is in the report
/// unchanged, bus address included.
pub proof fn law_normal_device_is_reported(
    ev: EvidenceModel,
    ws: Seq<WarningModel>,
    r: DetectionReport,
    i: int,
)
    requires
        is_report_of(ev, ws, r),
        0 <= i < ev.pci.len(),
        is_normal_device(ev.pci[i]),
    ensures
        r.evidence@.pci.contains(ev.pci[i]),
{
    let d = ev.pci[i];
    let a = r.evidence@.pci;
    let kept = kept_devices(ev.pci);
    lemma_normal_device_fixed(d);
    lemma_kept_contains(ev.pci, i);
    let k = d.bus_id;
    let j = choose|j: int| 0 <= j < kept.len() && kept[j] == d;
    kept.lemma_filter_contains(on_bus(k), j);
    assert(a.filter(on_bus(k)) == kept.filter(on_bus(k)));
    lemma_filter_from(a, on_bus(k));
    let p = choose|p: int| 0 <= p < kept.filter(on_bus(k)).len() && kept.filter(on_bus(k))[p] == d;
    assert(a.contains(a.filter(on_bus(k))[p]));
}

// ---------------------------------------------------------------------------
// Determinism and idempotence
// ---------------------------------------------------------------------------

/// A report is determined by what it is made from: two reports of the same
/// evidence and warnings hold the same evidence, profile IDs and warnings,
/// in the same order.
pub proof fn law_report_is_deterministic(
    ev: EvidenceModel,
    ws: Seq<WarningModel>,
    r1: DetectionReport,
    r2: DetectionReport,
)
    requires
        is_report_of(ev, ws, r1),
        is_report_of(ev, ws, r2),
    ensures
        r1.evidence@ == r2.evidence@,
        texts(r1.profile_ids@) == texts(r2.profile_ids@),
        warning_models(r1.warnings@) == warning_models(r2.warnings@),
{
    let a = r1.evidence@.pci;
    let b = r2.evidence@.pci;
    let kept = kept_devices(ev.pci);
    assert forall|k: Seq<char>| #[trigger] a.filter(on_bus(k)) == b.filter(on_bus(k)) by {
        assert(a.filter(on_bus(k)) == kept.filter(on_bus(k)));
        assert(b.filter(on_bus(k)) == kept.filter(on_bus(k)));
    }
    lemma_bus_sorted_equal(a, b);
    assert(r1.evidence@ == r2.evidence@);
    lemma_text_order();
    lemma_sorted_same_set_equal(texts(r1.profile_ids@), texts(r2.profile_ids@), text_less());
    lemma_warning_order();
    lemma_sorted_same_set_equal(
        warning_models(r1.warnings@),
        warning_models(r2.warnings@),
        warning_less(),
    );
}

/// The environments that inference yields are already in lower case.
proof fn lemma_inferred_is_lower(dmi: DmiModel, pci: Seq<PciModel>)
    ensures
        spec_infer_virtualization(dmi, pci) matches Some(x) ==> lower(x) == x,
{
    reveal_strlit("vmware");
    reveal_strlit("oracle");
    reveal_strlit("kvm");
    reveal_strlit("microsoft");
    reveal_strlit("xen");
    match spec_infer_virtualization(dmi, pci) {
        Some(x) => {
            lemma_lower_fixed(x);
        },
        None => {},
    }
}

/// Detection is idempotent: detecting again on a report's own evidence and
/// warnings gives back the same evidence, profile IDs and warnings.
pub proof fn law_detect_is_idempotent(
    ev: EvidenceModel,
    ws: Seq<WarningModel>,
    r1: DetectionReport,
    r2: DetectionReport,
)
    requires
        is_report_of(ev, ws, r1),
        is_report_of(r1.evidence@, warning_models(r1.warnings@), r2),
    ensures
        r2.evidence@ == r1.evidence@,
        texts(r2.profile_ids@) == texts(r1.profile_ids@),
        warning_models(r2.warnings@) == warning_models(r1.warnings@),
{
    let out1 = r1.evidence@;
    let a = out1.pci;
    law_report_devices_are_normal(ev, ws, r1);
    lemma_normal_devices_kept(a);
    let b = r2.evidence@.pci;
    lemma_bus_sorted_equal(b, a);
    match ev.virtualization {
        Some(v) => {
            lemma_lower_idempotent(v);
        },
        None => {
            lemma_inferred_is_lower(ev.dmi, a);
        },
    }
    assert(r2.evidence@ == out1);
    lemma_text_order();
    lemma_sorted_same_set_equal(texts(r2.profile_ids@), texts(r1.profile_ids@), text_less());
    lemma_warning_order();
    assert(warning_models(r1.warnings@) + Seq::<WarningModel>::empty() =~= warning_models(
        r1.warnings@,
    ));
    lemma_sorted_same_set_equal(
        warning_models(r2.warnings@),
        warning_models(r1.warnings@),
        warning_less(),
    );
}


// ---------------------------------------------------------------------------
// Missing evidence
// ---------------------------------------------------------------------------

/// Some warning comes from `source`.
pub open spec fn warned(ws: Seq<WarningModel>, source: Seq<char>) -> bool {
    exists|i: int| 0 <= i < ws.len() && #[trigger] ws[i].source == source
}

proof fn lemma_entry_warnings_from_pci(entries: Seq<PciEntry>)
    ensures
        forall|i: int|
            0 <= i < entry_warnings(entries).len() ==> (#[trigger] entry_warnings(entries)[i]).source.len()
                > 0 && entry_warnings(entries)[i].source[0] == 'p',
    decreases entries.len(),
{
    reveal_strlit("pci");
    reveal_strlit("pci.");
    if entries.len() > 0 {
        lemma_entry_warnings_from_pci(entries.drop_last());
        let w = entry_warnings(entries);
        let w0 = entry_warnings(entries.drop_last());
        assert forall|i: int| 0 <= i < w.len() implies (#[trigger] w[i]).source.len() > 0
            && w[i].source[0] == 'p' by {
            if i < w0.len() {
                assert(w[i] == w0[i]);
            } else {
                match spec_pci_entry(entries.last()) {
                    Ok(_) => {},
                    Err(x) => {
                        assert(w[i] == x);
                    },
                }
            }
        }
    }
}

proof fn lemma_warned_concat(a: Seq<WarningModel>, b: Seq<WarningModel>, source: Seq<char>)
    ensures
        warned(a + b, source) <==> warned(a, source) || warned(b, source),
{
    if warned(a + b, source) {
        let i = choose|i: int| 0 <= i < (a + b).len() && #[trigger] (a + b)[i].source == source;
        if i >= a.len() {
            assert(b[i - a.len()] == (a + b)[i]);
        }
    }
    if warned(a, source) {
        let i = choose|i: int| 0 <= i < a.len() && #[trigger] a[i].source == source;
        assert((a + b)[i] == a[i]);
    }
    if warned(b, source) {
        let i = choose|i: int| 0 <= i < b.len() && #[trigger] b[i].source == source;
        assert((a + b)[i + a.len()] == b[i]);
    }
}

/// Missing evidence is represented by `None` or an empty array and a
/// structured warning: an unreadable PCI directory gives no devices and a
/// `pci` warning; each DMI field is `None` exactly when there is a warning
/// from its source; an unreadable `/proc/cpuinfo` gives no CPU evidence;
/// some CPU field is `None` exactly when there is a `cpu` warning.
pub proof fn law_missing_evidence_is_warned(r: Readings)
    ensures
        r.pci is Err ==> spec_collect(r).0.pci.len() == 0 && warned(spec_collect(r).1, "pci"@),
        spec_collect(r).0.dmi.system_vendor is None <==> warned(
            spec_collect(r).1,
            "dmi.system_vendor"@,
        ),
        spec_collect(r).0.dmi.product_name is None <==> warned(
            spec_collect(r).1,
            "dmi.product_name"@,
        ),
        spec_collect(r).0.dmi.chassis_type is None <==> warned(
            spec_collect(r).1,
            "dmi.chassis_type"@,
        ),
        r.cpuinfo is Err ==> spec_collect(r).0.cpu == (CpuModel {
            vendor: None,
            family: None,
            model: None,
        }),
        spec_collect(r).0.cpu.vendor is None || spec_collect(r).0.cpu.family is None
            || spec_collect(r).0.cpu.model is None <==> warned(spec_collect(r).1, "cpu"@),
{
    reveal_strlit("pci");
    reveal_strlit("cpu");
    reveal_strlit("virtualization");
    reveal_strlit("dmi.system_vendor");
    reveal_strlit("dmi.product_name");
    reveal_strlit("dmi.chassis_type");
    let (ev, ws) = spec_collect(r);
    let w_pci = spec_collect_pci(r.pci).1;
    let w_vendor = spec_read_optional(r.sys_vendor, "dmi.system_vendor"@).1;
    let w_product = spec_read_optional(r.product_name, "dmi.product_name"@).1;
    let w_chassis = spec_read_optional(r.chassis_type, "dmi.chassis_type"@).1;
    let w_cpu = spec_collect_cpu(r.cpuinfo).1;
    let w_virt = ws.skip((w_pci.len() + w_vendor.len() + w_product.len() + w_chassis.len() + w_cpu.len()) as int);
    assert(ws =~= w_pci + w_vendor + w_product + w_chassis + w_cpu + w_virt);
    let sources = seq!["dmi.system_vendor"@, "dmi.product_name"@, "dmi.chassis_type"@];
    assert("dmi.system_vendor"@[4] != "dmi.product_name"@[4]);
    assert("dmi.system_vendor"@[4] != "dmi.chassis_type"@[4]);
    assert("dmi.product_name"@[4] != "dmi.chassis_type"@[4]);
    match r.pci {
        Ok(entries) => {
            lemma_entry_warnings_from_pci(entries@);
        },
        Err(_) => {},
    }
    assert forall|k: int| 0 <= k < 3 implies !warned(w_pci, #[trigger] sources[k]) by {
        if warned(w_pci, sources[k]) {
            let i = choose|i: int| 0 <= i < w_pci.len() && #[trigger] w_pci[i].source == sources[k];
            assert(sources[k][0] == 'd');
        }
    }
    assert forall|k: int| 0 <= k < 3 implies !warned(w_cpu, #[trigger] sources[k]) by {
        if warned(w_cpu, sources[k]) {
            let i = choose|i: int| 0 <= i < w_cpu.len() && #[trigger] w_cpu[i].source == sources[k];
            assert(w_cpu[i].source == "cpu"@);
            assert(sources[k][0] == 'd');
        }
    }
    assert forall|k: int| 0 <= k < 3 implies !warned(w_virt, #[trigger] sources[k]) by {
        if warned(w_virt, sources[k]) {
            let i = choose|i: int| 0 <= i < w_virt.len() && #[trigger] w_virt[i].source == sources[k];
            assert(w_virt[i].source == "virtualization"@);
        }
    }
    assert(!warned(w_vendor, sources[1]) && !warned(w_vendor, sources[2])) by {
        if warned(w_vendor, sources[1]) || warned(w_vendor, sources[2]) {
            assert(w_vendor[0].source == sources[0]);
        }
    }
    assert(!warned(w_product, sources[0]) && !warned(w_product, sources[2])) by {
        if warned(w_product, sources[0]) || warned(w_product, sources[2]) {
            assert(w_product[0].source == sources[1]);
        }
    }
    assert(!warned(w_chassis, sources[0]) && !warned(w_chassis, sources[1])) by {
        if warned(w_chassis, sources[0]) || warned(w_chassis, sources[1]) {
            assert(w_chassis[0].source == sources[2]);
        }
    }
    assert(warned(w_vendor, sources[0]) <==> ev.dmi.system_vendor is None) by {
        if ev.dmi.system_vendor is None {
            assert(w_vendor[0].source == sources[0]);
        }
    }
    assert(warned(w_product, sources[1]) <==> ev.dmi.product_name is None) by {
        if ev.dmi.product_name is None {
            assert(w_product[0].source == sources[1]);
        }
    }
    assert(warned(w_chassis, sources[2]) <==> ev.dmi.chassis_type is None) by {
        if ev.dmi.chassis_type is None {
            assert(w_chassis[0].source == sources[2]);
        }
    }
    let s1 = w_pci + w_vendor;
    let s2 = s1 + w_product;
    let s3 = s2 + w_chassis;
    let s4 = s3 + w_cpu;
    assert forall|k: int| 0 <= k < 3 implies (warned(ws, #[trigger] sources[k]) <==> warned(w_pci, sources[k])
        || warned(w_vendor, sources[k]) || warned(w_product, sources[k]) || warned(w_chassis, sources[k])
        || warned(w_cpu, sources[k]) || warned(w_virt, sources[k])) by {
        lemma_warned_concat(w_pci, w_vendor, sources[k]);
        lemma_warned_concat(s1, w_product, sources[k]);
        lemma_warned_concat(s2, w_chassis, sources[k]);
        lemma_warned_concat(s3, w_cpu, sources[k]);
        lemma_warned_concat(s4, w_virt, sources[k]);
    }
    assert(sources[0] == "dmi.system_vendor"@);
    assert(sources[1] == "dmi.product_name"@);
    assert(sources[2] == "dmi.chassis_type"@);
    if r.pci is Err {
        assert(w_pci[0].source == "pci"@);
        lemma_warned_concat(w_pci, w_vendor, "pci"@);
        lemma_warned_concat(s1, w_product, "pci"@);
        lemma_warned_concat(s2, w_chassis, "pci"@);
        lemma_warned_concat(s3, w_cpu, "pci"@);
        lemma_warned_concat(s4, w_virt, "pci"@);
    }
    lemma_warned_concat(w_pci, w_vendor, "cpu"@);
    lemma_warned_concat(s1, w_product, "cpu"@);
    lemma_warned_concat(s2, w_chassis, "cpu"@);
    lemma_warned_concat(s3, w_cpu, "cpu"@);
    lemma_warned_concat(s4, w_virt, "cpu"@);
    assert(!warned(w_pci, "cpu"@)) by {
        if warned(w_pci, "cpu"@) {
            let i = choose|i: int| 0 <= i < w_pci.len() && #[trigger] w_pci[i].source == "cpu"@;
            assert(w_pci[i].source[0] == 'p');
            assert("cpu"@[0] == 'c');
        }
    }
    assert(!warned(w_vendor, "cpu"@)) by {
        if warned(w_vendor, "cpu"@) {
            assert(w_vendor[0].source == sources[0]);
            assert(sources[0][0] == 'd' && "cpu"@[0] == 'c');
        }
    }
    assert(!warned(w_product, "cpu"@)) by {
        if warned(w_product, "cpu"@) {
            assert(w_product[0].source == sources[1]);
            assert(sources[1][0] == 'd' && "cpu"@[0] == 'c');
        }
    }
    assert(!warned(w_chassis, "cpu"@)) by {
        if warned(w_chassis, "cpu"@) {
            assert(w_chassis[0].source == sources[2]);
            assert(sources[2][0] == 'd' && "cpu"@[0] == 'c');
        }
    }
    assert(!warned(w_virt, "cpu"@)) by {
        if warned(w_virt, "cpu"@) {
            let i = choose|i: int| 0 <= i < w_virt.len() && #[trigger] w_virt[i].source == "cpu"@;
            assert(w_virt[i].source == "virtualization"@);
        }
    }
    match r.cpuinfo {
        Err(_) => {
            assert(w_cpu[0].source == "cpu"@);
        },
        Ok(content) => {
            let a = missing_cpu_field(ev.cpu.vendor, "vendor_id"@);
            let b = missing_cpu_field(ev.cpu.family, "cpu family"@);
            let c = missing_cpu_field(ev.cpu.model, "model"@);
            assert(w_cpu == a + b + c);
            lemma_warned_concat(a, b, "cpu"@);
            lemma_warned_concat(a + b, c, "cpu"@);
            if ev.cpu.vendor is None {
                assert(a[0].source == "cpu"@);
            }
            if ev.cpu.family is None {
                assert(b[0].source == "cpu"@);
            }
            if ev.cpu.model is None {
                assert(c[0].source == "cpu"@);
            }
        },
    }
}

/// The warning that the environment could not be inferred for want of DMI evidence.
pub open spec fn no_environment_warning() -> WarningModel {
    WarningModel {
        source: "virtualization"@,
        message: "could not infer VM type because DMI evidence is unavailable"@,
    }
}

/// The warnings of what was read, part by part.
proof fn lemma_collect_warning_parts(r: Readings, w: WarningModel)
    ensures
        spec_collect(r).1.contains(w) <==> spec_collect_pci(r.pci).1.contains(w)
            || spec_read_optional(r.sys_vendor, "dmi.system_vendor"@).1.contains(w)
            || spec_read_optional(r.product_name, "dmi.product_name"@).1.contains(w)
            || spec_read_optional(r.chassis_type, "dmi.chassis_type"@).1.contains(w)
            || spec_collect_cpu(r.cpuinfo).1.contains(w) || (w == no_environment_warning()
            && spec_collect(r).0.virtualization is None && spec_collect(r).0.dmi.system_vendor is None
            && spec_collect(r).0.dmi.product_name is None),
{
    let (ev, ws) = spec_collect(r);
    let w_pci = spec_collect_pci(r.pci).1;
    let w_vendor = spec_read_optional(r.sys_vendor, "dmi.system_vendor"@).1;
    let w_product = spec_read_optional(r.product_name, "dmi.product_name"@).1;
    let w_chassis = spec_read_optional(r.chassis_type, "dmi.chassis_type"@).1;
    let w_cpu = spec_collect_cpu(r.cpuinfo).1;
    let n = w_pci.len() + w_vendor.len() + w_product.len() + w_chassis.len() + w_cpu.len();
    let w_virt = ws.skip(n as int);
    assert(ws =~= w_pci + w_vendor + w_product + w_chassis + w_cpu + w_virt);
    let s1 = w_pci + w_vendor;
    let s2 = s1 + w_product;
    let s3 = s2 + w_chassis;
    let s4 = s3 + w_cpu;
    crate::invariance::lemma_concat_contains(w_pci, w_vendor, w);
    crate::invariance::lemma_concat_contains(s1, w_product, w);
    crate::invariance::lemma_concat_contains(s2, w_chassis, w);
    crate::invariance::lemma_concat_contains(s3, w_cpu, w);
    crate::invariance::lemma_concat_contains(s4, w_virt, w);
    let nw = no_environment_warning();
    if ev.virtualization is None && ev.dmi.system_vendor is None && ev.dmi.product_name is None {
        assert(w_virt =~= seq![nw]);
        if w_virt.contains(w) {
            let k = choose|k: int| 0 <= k < w_virt.len() && w_virt[k] == w;
        }
        if w == nw {
            assert(w_virt[0] == w);
        }
    } else {
        assert(w_virt.len() == 0);
    }
}

/// Only the environment warning has the source `virtualization`.
proof fn lemma_environment_warning_only_last(r: Readings)
    ensures
        !spec_collect_pci(r.pci).1.contains(no_environment_warning()),
        !spec_read_optional(r.sys_vendor, "dmi.system_vendor"@).1.contains(no_environment_warning()),
        !spec_read_optional(r.product_name, "dmi.product_name"@).1.contains(no_environment_warning()),
        !spec_read_optional(r.chassis_type, "dmi.chassis_type"@).1.contains(no_environment_warning()),
        !spec_collect_cpu(r.cpuinfo).1.contains(no_environment_warning()),
{
    reveal_strlit("virtualization");
    reveal_strlit("pci");
    reveal_strlit("cpu");
    reveal_strlit("dmi.system_vendor");
    reveal_strlit("dmi.product_name");
    reveal_strlit("dmi.chassis_type");
    let nw = no_environment_warning();
    assert(nw.source[0] == 'v');
    let w_pci = spec_collect_pci(r.pci).1;
    if w_pci.contains(nw) {
        let i = choose|i: int| 0 <= i < w_pci.len() && w_pci[i] == nw;
        match r.pci {
            Ok(entries) => {
                lemma_entry_warnings_from_pci(entries@);
                assert(w_pci[i].source[0] == 'p');
            },
            Err(e) => {
                assert(w_pci[i].source == "pci"@);
            },
        }
    }
    let w_vendor = spec_read_optional(r.sys_vendor, "dmi.system_vendor"@).1;
    if w_vendor.contains(nw) {
        let i = choose|i: int| 0 <= i < w_vendor.len() && w_vendor[i] == nw;
        assert(w_vendor[i].source[0] == 'd');
    }
    let w_product = spec_read_optional(r.product_name, "dmi.product_name"@).1;
    if w_product.contains(nw) {
        let i = choose|i: int| 0 <= i < w_product.len() && w_product[i] == nw;
        assert(w_product[i].source[0] == 'd');
    }
    let w_chassis = spec_read_optional(r.chassis_type, "dmi.chassis_type"@).1;
    if w_chassis.contains(nw) {
        let i = choose|i: int| 0 <= i < w_chassis.len() && w_chassis[i] == nw;
        assert(w_chassis[i].source[0] == 'd');
    }
    let w_cpu = spec_collect_cpu(r.cpuinfo).1;
    if w_cpu.contains(nw) {
        let i = choose|i: int| 0 <= i < w_cpu.len() && w_cpu[i] == nw;
        match r.cpuinfo {
            Err(_) => {
                assert(w_cpu[i].source == "cpu"@);
            },
            Ok(content) => {
                let ev = spec_collect_cpu(r.cpuinfo).0;
                let a = missing_cpu_field(ev.vendor, "vendor_id"@);
                let b = missing_cpu_field(ev.family, "cpu family"@);
                let c = missing_cpu_field(ev.model, "model"@);
                assert(w_cpu == a + b + c);
                assert(w_cpu[i].source == "cpu"@);
            },
        }
    }
}

/// Where a warning's source stands in the order in which evidence is read:
/// PCI, system vendor, product name, chassis type, CPU, then the environment.
pub open spec fn source_rank(source: Seq<char>) -> int {
    if source.len() > 0 && source[0] == 'p' {
        0
    } else if source == "dmi.system_vendor"@ {
        1
    } else if source == "dmi.product_name"@ {
        2
    } else if source == "dmi.chassis_type"@ {
        3
    } else if source == "cpu"@ {
        4
    } else {
        5
    }
}

/// `collect` gives its warnings in the order in which the evidence is read:
/// PCI first, then the system vendor, product name and chassis type, then
/// the CPU, and the environment warning last.
pub proof fn law_collect_warnings_in_reading_order(r: Readings)
    ensures
        forall|i: int, j: int|
            0 <= i < j < spec_collect(r).1.len() ==> source_rank(#[trigger] spec_collect(r).1[i].source)
                <= source_rank(#[trigger] spec_collect(r).1[j].source),
{
    reveal_strlit("pci");
    reveal_strlit("cpu");
    reveal_strlit("virtualization");
    reveal_strlit("dmi.system_vendor");
    reveal_strlit("dmi.product_name");
    reveal_strlit("dmi.chassis_type");
    assert("dmi.system_vendor"@[4] != "dmi.product_name"@[4]);
    assert("dmi.system_vendor"@[4] != "dmi.chassis_type"@[4]);
    assert("dmi.product_name"@[4] != "dmi.chassis_type"@[4]);
    let (ev, ws) = spec_collect(r);
    let w_pci = spec_collect_pci(r.pci).1;
    let w_vendor = spec_read_optional(r.sys_vendor, "dmi.system_vendor"@).1;
    let w_product = spec_read_optional(r.product_name, "dmi.product_name"@).1;
    let w_chassis = spec_read_optional(r.chassis_type, "dmi.chassis_type"@).1;
    let w_cpu = spec_collect_cpu(r.cpuinfo).1;
    let n1 = w_pci.len() as int;
    let n2 = n1 + w_vendor.len();
    let n3 = n2 + w_product.len();
    let n4 = n3 + w_chassis.len();
    let n5 = n4 + w_cpu.len();
    let w_virt = ws.skip(n5);
    assert(ws =~= w_pci + w_vendor + w_product + w_chassis + w_cpu + w_virt);
    match r.pci {
        Ok(entries) => {
            lemma_entry_warnings_from_pci(entries@);
        },
        Err(_) => {},
    }
    let cpu = spec_collect_cpu(r.cpuinfo).0;
    assert forall|k: int| 0 <= k < w_cpu.len() implies (#[trigger] w_cpu[k]).source == "cpu"@ by {
        match r.cpuinfo {
            Err(_) => {},
            Ok(content) => {
                let a = missing_cpu_field(cpu.vendor, "vendor_id"@);
                let b = missing_cpu_field(cpu.family, "cpu family"@);
                let c = missing_cpu_field(cpu.model, "model"@);
                assert(w_cpu == a + b + c);
                if k < a.len() {
                    assert(w_cpu[k] == a[k]);
                } else if k < a.len() + b.len() {
                    assert(w_cpu[k] == b[k - a.len()]);
                } else {
                    assert(w_cpu[k] == c[k - a.len() - b.len()]);
                }
            },
        }
    }
    assert forall|k: int| 0 <= k < ws.len() implies source_rank(#[trigger] ws[k].source) == (if k < n1 {
        0int
    } else if k < n2 {
        1int
    } else if k < n3 {
        2int
    } else if k < n4 {
        3int
    } else if k < n5 {
        4int
    } else {
        5int
    }) by {
        if k < n1 {
            assert(ws[k] == w_pci[k]);
            if r.pci is Err {
                assert(w_pci[k].source == "pci"@);
            }
        } else if k < n2 {
            assert(ws[k] == w_vendor[k - n1]);
        } else if k < n3 {
            assert(ws[k] == w_product[k - n2]);
        } else if k < n4 {
            assert(ws[k] == w_chassis[k - n3]);
        } else if k < n5 {
            assert(ws[k] == w_cpu[k - n4]);
        } else {
            assert(ws[k] == w_virt[k - n5]);
            assert(w_virt[k - n5].source == "virtualization"@);
        }
    }
}

/// Each warning says why evidence is missing: evidence that could not be
/// read gives "evidence unavailable: " and the error, a blank DMI file gives
/// "evidence was empty", a CPU field that `/proc/cpuinfo` does not set gives
/// "evidence has no " and the field; and the environment warning comes
/// exactly when no environment was inferred and neither system vendor nor
/// product name is known.
pub proof fn law_warnings_say_why(r: Readings)
    ensures
        r.pci matches Err(e) ==> spec_collect(r).1.contains(
            WarningModel { source: "pci"@, message: "evidence unavailable: "@ + e@ },
        ),
        r.sys_vendor matches Err(e) ==> spec_collect(r).1.contains(
            WarningModel { source: "dmi.system_vendor"@, message: "evidence unavailable: "@ + e@ },
        ),
        r.product_name matches Err(e) ==> spec_collect(r).1.contains(
            WarningModel { source: "dmi.product_name"@, message: "evidence unavailable: "@ + e@ },
        ),
        r.chassis_type matches Err(e) ==> spec_collect(r).1.contains(
            WarningModel { source: "dmi.chassis_type"@, message: "evidence unavailable: "@ + e@ },
        ),
        r.sys_vendor matches Ok(x) ==> (trim(x@).len() == 0 ==> spec_collect(r).1.contains(
            WarningModel { source: "dmi.system_vendor"@, message: "evidence was empty"@ },
        )),
        r.product_name matches Ok(x) ==> (trim(x@).len() == 0 ==> spec_collect(r).1.contains(
            WarningModel { source: "dmi.product_name"@, message: "evidence was empty"@ },
        )),
        r.chassis_type matches Ok(x) ==> (trim(x@).len() == 0 ==> spec_collect(r).1.contains(
            WarningModel { source: "dmi.chassis_type"@, message: "evidence was empty"@ },
        )),
        r.cpuinfo matches Err(e) ==> spec_collect(r).1.contains(
            WarningModel { source: "cpu"@, message: "evidence unavailable: "@ + e@ },
        ),
        r.cpuinfo is Ok && spec_collect(r).0.cpu.vendor is None ==> spec_collect(r).1.contains(
            WarningModel { source: "cpu"@, message: "evidence has no vendor_id"@ },
        ),
        r.cpuinfo is Ok && spec_collect(r).0.cpu.family is None ==> spec_collect(r).1.contains(
            WarningModel { source: "cpu"@, message: "evidence has no cpu family"@ },
        ),
        r.cpuinfo is Ok && spec_collect(r).0.cpu.model is None ==> spec_collect(r).1.contains(
            WarningModel { source: "cpu"@, message: "evidence has no model"@ },
        ),
        spec_collect(r).1.contains(no_environment_warning()) <==> spec_collect(r).0.virtualization
            is None && spec_collect(r).0.dmi.system_vendor is None
            && spec_collect(r).0.dmi.product_name is None,
{
    reveal_strlit("evidence has no ");
    reveal_strlit("vendor_id");
    reveal_strlit("cpu family");
    reveal_strlit("model");
    reveal_strlit("evidence has no vendor_id");
    reveal_strlit("evidence has no cpu family");
    reveal_strlit("evidence has no model");
    if let Err(e) = r.pci {
        let w = WarningModel { source: "pci"@, message: "evidence unavailable: "@ + e@ };
        lemma_collect_warning_parts(r, w);
        assert(spec_collect_pci(r.pci).1[0] == w);
    }
    if let Err(e) = r.sys_vendor {
        let w = WarningModel { source: "dmi.system_vendor"@, message: "evidence unavailable: "@ + e@ };
        lemma_collect_warning_parts(r, w);
        assert(spec_read_optional(r.sys_vendor, "dmi.system_vendor"@).1[0] == w);
    }
    if let Err(e) = r.product_name {
        let w = WarningModel { source: "dmi.product_name"@, message: "evidence unavailable: "@ + e@ };
        lemma_collect_warning_parts(r, w);
        assert(spec_read_optional(r.product_name, "dmi.product_name"@).1[0] == w);
    }
    if let Err(e) = r.chassis_type {
        let w = WarningModel { source: "dmi.chassis_type"@, message: "evidence unavailable: "@ + e@ };
        lemma_collect_warning_parts(r, w);
        assert(spec_read_optional(r.chassis_type, "dmi.chassis_type"@).1[0] == w);
    }
    if let Ok(x) = r.sys_vendor {
        let w = WarningModel { source: "dmi.system_vendor"@, message: "evidence was empty"@ };
        lemma_collect_warning_parts(r, w);
        if trim(x@).len() == 0 {
            assert(spec_read_optional(r.sys_vendor, "dmi.system_vendor"@).1[0] == w);
        }
    }
    if let Ok(x) = r.product_name {
        let w = WarningModel { source: "dmi.product_name"@, message: "evidence was empty"@ };
        lemma_collect_warning_parts(r, w);
        if trim(x@).len() == 0 {
            assert(spec_read_optional(r.product_name, "dmi.product_name"@).1[0] == w);
        }
    }
    if let Ok(x) = r.chassis_type {
        let w = WarningModel { source: "dmi.chassis_type"@, message: "evidence was empty"@ };
        lemma_collect_warning_parts(r, w);
        if trim(x@).len() == 0 {
            assert(spec_read_optional(r.chassis_type, "dmi.chassis_type"@).1[0] == w);
        }
    }
    let w_cpu = spec_collect_cpu(r.cpuinfo).1;
    match r.cpuinfo {
        Err(e) => {
            let w = WarningModel { source: "cpu"@, message: "evidence unavailable: "@ + e@ };
            lemma_collect_warning_parts(r, w);
            assert(w_cpu[0] == w);
        },
        Ok(content) => {
            let cpu = spec_collect_cpu(r.cpuinfo).0;
            let a = missing_cpu_field(cpu.vendor, "vendor_id"@);
            let b = missing_cpu_field(cpu.family, "cpu family"@);
            let c = missing_cpu_field(cpu.model, "model"@);
            assert(w_cpu == a + b + c);
            assert("evidence has no "@ + "vendor_id"@ =~= "evidence has no vendor_id"@);
            assert("evidence has no "@ + "cpu family"@ =~= "evidence has no cpu family"@);
            assert("evidence has no "@ + "model"@ =~= "evidence has no model"@);
            let wv = WarningModel { source: "cpu"@, message: "evidence has no vendor_id"@ };
            let wf = WarningModel { source: "cpu"@, message: "evidence has no cpu family"@ };
            let wm = WarningModel { source: "cpu"@, message: "evidence has no model"@ };
            lemma_collect_warning_parts(r, wv);
            lemma_collect_warning_parts(r, wf);
            lemma_collect_warning_parts(r, wm);
            if cpu.vendor is None {
                assert(w_cpu[0] == wv);
            }
            if cpu.family is None {
                assert(w_cpu[a.len() as int] == wf);
            }
            if cpu.model is None {
                assert(w_cpu[(a.len() + b.len()) as int] == wm);
            }
        },
    }
    lemma_collect_warning_parts(r, no_environment_warning());
    lemma_environment_warning_only_last(r);
}

// ---------------------------------------------------------------------------
// The order of text
// ---------------------------------------------------------------------------

/// `a` comes before `b` in dictionary order: at the first position where
/// they differ `a` has the smaller character, or `a` is a proper prefix of `b`.
pub open spec fn dictionary_less(a: Seq<char>, b: Seq<char>) -> bool {
    ||| exists|k: int|
        0 <= k < a.len() && k < b.len() && a.take(k) == b.take(k) && #[trigger] a[k] < b[k]
    ||| a.len() < b.len() && b.take(a.len() as int) == a
}

/// The order in which profile IDs, bus addresses and warnings are sorted is
/// dictionary order by character.
pub proof fn law_text_order_is_dictionary_order(a: Seq<char>, b: Seq<char>)
    ensures
        text_less()(a, b) <==> dictionary_less(a, b),
    decreases a.len(),
{
    if a.len() == 0 {
        assert(b.take(0) =~= a);
    } else if b.len() == 0 {
    } else if a[0] != b[0] {
        if a[0] < b[0] {
            assert(a.take(0) =~= b.take(0));
        }
        if dictionary_less(a, b) {
            if exists|k: int|
                0 <= k < a.len() && k < b.len() && a.take(k) == b.take(k) && #[trigger] a[k] < b[k] {
                let k = choose|k: int|
                    0 <= k < a.len() && k < b.len() && a.take(k) == b.take(k) && #[trigger] a[k] < b[k];
                if k > 0 {
                    assert(a.take(k)[0] == b.take(k)[0]);
                }
            } else {
                assert(b.take(a.len() as int)[0] == a[0]);
            }
        }
    } else {
        let a1 = a.drop_first();
        let b1 = b.drop_first();
        law_text_order_is_dictionary_order(a1, b1);
        if dictionary_less(a1, b1) {
            if exists|k: int|
                0 <= k < a1.len() && k < b1.len() && a1.take(k) == b1.take(k) && #[trigger] a1[k] < b1[k] {
                let k = choose|k: int|
                    0 <= k < a1.len() && k < b1.len() && a1.take(k) == b1.take(k) && #[trigger] a1[k] < b1[k];
                assert forall|m: int| 0 <= m < k + 1 implies #[trigger] a.take(k + 1)[m] == b.take(k + 1)[m] by {
                    if m > 0 {
                        assert(a1.take(k)[m - 1] == b1.take(k)[m - 1]);
                    }
                }
                assert(a.take(k + 1) =~= b.take(k + 1));
                assert(a[k + 1] < b[k + 1]);
            } else {
                assert forall|m: int| 0 <= m < a.len() implies #[trigger] b.take(a.len() as int)[m] == a[m] by {
                    if m > 0 {
                        assert(b1.take(a1.len() as int)[m - 1] == a1[m - 1]);
                    }
                }
                assert(b.take(a.len() as int) =~= a);
            }
        }
        if dictionary_less(a, b) {
            if exists|k: int|
                0 <= k < a.len() && k < b.len() && a.take(k) == b.take(k) && #[trigger] a[k] < b[k] {
                let k = choose|k: int|
                    0 <= k < a.len() && k < b.len() && a.take(k) == b.take(k) && #[trigger] a[k] < b[k];
                assert(k > 0);
                assert forall|m: int| 0 <= m < k - 1 implies #[trigger] a1.take(k - 1)[m] == b1.take(k - 1)[m] by {
                    assert(a.take(k)[m + 1] == b.take(k)[m + 1]);
                }
                assert(a1.take(k - 1) =~= b1.take(k - 1));
                assert(a1[k - 1] < b1[k - 1]);
            } else {
                assert forall|m: int| 0 <= m < a1.len() implies #[trigger] b1.take(a1.len() as int)[m] == a1[m] by {
                    assert(b.take(a.len() as int)[m + 1] == a[m + 1]);
                }
                assert(b1.take(a1.len() as int) =~= a1);
            }
        }
    }
}

} // verus!
