//! What profile matching is for, stated over the evidence itself: which
//! devices select which graphics profile, which environment names which
//! virtual-machine profile, which processor vendor gives which CPU profile,
//! and so what the profile IDs of a report say.
use vstd::prelude::*;

use crate::invariance::{lemma_concat_contains, lemma_profile_devices_nonempty};
use crate::matching::{
    found, graphics_vendors, hardware_matches, profile_selected, profile_table, selected_ids,
    spec_id_matches, spec_matching_ids, spec_vm_profile_id, ProfileModel,
};
use crate::detection::{is_report_of, spec_cpu_ids};
use crate::order::texts;
use crate::text::{eq_ignore_case, lower, lower_char};
use crate::{CpuModel, DetectionReport, EvidenceModel, PciModel, WarningModel};

verus! {

/// A display controller: VGA (0300), 3D (0302) or other display (0380).
pub open spec fn is_display_class(c: Seq<char>) -> bool {
    c == "0300"@ || c == "0302"@ || c == "0380"@
}

/// Some display controller's vendor ID equals `vendor` up to ASCII case.
pub open spec fn has_display_of(pci: Seq<PciModel>, vendor: Seq<char>) -> bool {
    exists|i: int|
        0 <= i < pci.len() && is_display_class(#[trigger] pci[i].class_id) && eq_ignore_case(
            pci[i].vendor_id,
            vendor,
        )
}

// ---------------------------------------------------------------------------
// Lemmas
// ---------------------------------------------------------------------------

proof fn lemma_selected_contains(ps: Seq<ProfileModel>, ev: EvidenceModel, id: Seq<char>)
    ensures
        selected_ids(ps, ev).contains(id) <==> exists|j: int|
            0 <= j < ps.len() && #[trigger] ps[j].id == id && profile_selected(ps[j], ev),
    decreases ps.len(),
{
    if ps.len() > 0 {
        let t = ps.drop_last();
        lemma_selected_contains(t, ev, id);
        let s = selected_ids(ps, ev);
        let s0 = selected_ids(t, ev);
        if s.contains(id) {
            let p = choose|p: int| 0 <= p < s.len() && s[p] == id;
            if p < s0.len() {
                assert(s0[p] == id);
                let j = choose|j: int| 0 <= j < t.len() && #[trigger] t[j].id == id && profile_selected(t[j], ev);
                assert(ps[j] == t[j]);
            } else {
                assert(ps[ps.len() - 1] == ps.last());
            }
        }
        if exists|j: int| 0 <= j < ps.len() && #[trigger] ps[j].id == id && profile_selected(ps[j], ev) {
            let j = choose|j: int| 0 <= j < ps.len() && #[trigger] ps[j].id == id && profile_selected(ps[j], ev);
            if j < ps.len() - 1 {
                assert(t[j] == ps[j]);
                let p = choose|p: int| 0 <= p < s0.len() && s0[p] == id;
                assert(s[p] == id);
            } else {
                assert(s[s.len() - 1] == id);
            }
        }
    }
}

/// The profile IDs that evidence matches, split by where they come from.
proof fn lemma_matching_contains(ev: EvidenceModel, id: Seq<char>)
    ensures
        spec_matching_ids(ev).contains(id) <==> (exists|j: int|
            0 <= j < profile_table().len() && #[trigger] profile_table()[j].id == id
                && profile_selected(profile_table()[j], ev)) || (ev.virtualization matches Some(v)
            && spec_vm_profile_id(v) == Some(id)) || (graphics_vendors(ev.pci).len() > 1 && id
            == "graphics.hybrid"@),
{
    let sel = selected_ids(profile_table(), ev);
    let vm = match ev.virtualization {
        Some(v) => match spec_vm_profile_id(v) {
            Some(x) => seq![x],
            None => Seq::<Seq<char>>::empty(),
        },
        None => Seq::<Seq<char>>::empty(),
    };
    let hybrid = if graphics_vendors(ev.pci).len() > 1 {
        seq!["graphics.hybrid"@]
    } else {
        Seq::<Seq<char>>::empty()
    };
    lemma_selected_contains(profile_table(), ev, id);
    lemma_concat_contains(sel, vm, id);
    lemma_concat_contains(sel + vm, hybrid, id);
    if vm.contains(id) {
        let k = choose|k: int| 0 <= k < vm.len() && vm[k] == id;
    }
    if hybrid.contains(id) {
        let k = choose|k: int| 0 <= k < hybrid.len() && hybrid[k] == id;
    }
    if ev.virtualization matches Some(v) && spec_vm_profile_id(v) == Some(id) {
        assert(vm[0] == id);
    }
    if graphics_vendors(ev.pci).len() > 1 && id == "graphics.hybrid"@ {
        assert(hybrid[0] == id);
    }
}

/// Lower case gives a digit only for that digit.
proof fn lemma_lower_to_digits(c: Seq<char>, t: Seq<char>)
    requires
        lower(c) == t,
        forall|k: int| 0 <= k < t.len() ==> '0' <= #[trigger] t[k] <= '9',
    ensures
        c == t,
{
    assert forall|k: int| 0 <= k < c.len() implies c[k] == t[k] by {
        assert(lower(c)[k] == lower_char(c[k]));
    }
    assert(c =~= t);
}

proof fn lemma_display_classes_match(c: Seq<char>)
    ensures
        spec_id_matches(seq!["0300"@, "0302"@, "0380"@], c) <==> is_display_class(c),
{
    reveal_strlit("0300");
    reveal_strlit("0302");
    reveal_strlit("0380");
    reveal_strlit("*");
    let a = seq!["0300"@, "0302"@, "0380"@];
    assert(a[0] == "0300"@ && a[1] == "0302"@ && a[2] == "0380"@);
    if spec_id_matches(a, c) {
        let k = choose|k: int| 0 <= k < a.len() && (#[trigger] a[k] == "*"@ || eq_ignore_case(a[k], c));
        assert(a[k].len() == 4) by {
            if k == 0 {
            } else if k == 1 {
            } else {
            }
        }
        assert(a[k] != "*"@);
        assert(lower(a[k]) =~= a[k]);
        lemma_lower_to_digits(c, a[k]);
    }
    if is_display_class(c) {
        assert(lower(c) =~= c);
        if c == "0300"@ {
            assert(eq_ignore_case(a[0], c));
        } else if c == "0302"@ {
            assert(eq_ignore_case(a[1], c));
        } else {
            assert(eq_ignore_case(a[2], c));
        }
    }
}

/// A graphics profile at `j` of the table is selected exactly when a display
/// controller of its vendor is present.
proof fn lemma_graphics_profile_selected(ev: EvidenceModel, j: int, vendor: Seq<char>)
    requires
        0 <= j < 3,
        profile_table()[j] == crate::matching::graphics_profile(profile_table()[j].id, vendor),
        vendor.len() == 4,
    ensures
        profile_selected(profile_table()[j], ev) <==> has_display_of(ev.pci, vendor),
{
    reveal_strlit("*");
    let p = profile_table()[j];
    let h = p.hardware_ids[0];
    lemma_profile_devices_nonempty(ev.pci, p);
    assert(p.hardware_ids.len() == 1);
    assert(crate::matching::all_found(ev.pci, p.hardware_ids) <==> found(ev.pci, h)) by {
        if found(ev.pci, h) {
            assert forall|k: int| 0 <= k < p.hardware_ids.len() implies found(
                ev.pci,
                #[trigger] p.hardware_ids[k],
            ) by {
                assert(k == 0);
            }
        }
    }
    assert(h.device_ids == seq!["*"@]);
    assert(h.vendor_ids == seq![vendor]);
    assert(seq![vendor][0] == vendor);
    assert(vendor != "*"@);
    assert forall|i: int| 0 <= i < ev.pci.len() implies (hardware_matches(h, #[trigger] ev.pci[i])
        <==> is_display_class(ev.pci[i].class_id) && eq_ignore_case(ev.pci[i].vendor_id, vendor)) by {
        let d = ev.pci[i];
        lemma_display_classes_match(d.class_id);
        assert(seq!["*"@][0] == "*"@);
        assert(spec_id_matches(seq!["*"@], d.device_id));
        if spec_id_matches(seq![vendor], d.vendor_id) {
            let k = choose|k: int| 0 <= k < 1 && (#[trigger] seq![vendor][k] == "*"@ || eq_ignore_case(seq![vendor][k], d.vendor_id));
        }
        if eq_ignore_case(d.vendor_id, vendor) {
            assert(eq_ignore_case(seq![vendor][0], d.vendor_id));
        }
    }
    if found(ev.pci, h) {
        let i = choose|i: int| 0 <= i < ev.pci.len() && hardware_matches(h, #[trigger] ev.pci[i]);
    }
    if has_display_of(ev.pci, vendor) {
        let i = choose|i: int|
            0 <= i < ev.pci.len() && is_display_class(#[trigger] ev.pci[i].class_id) && eq_ignore_case(
                ev.pci[i].vendor_id,
                vendor,
            );
        assert(hardware_matches(h, ev.pci[i]));
    }
}

/// The table's IDs.
proof fn lemma_table_ids()
    ensures
        profile_table()[0].id == "graphics.amd"@,
        profile_table()[1].id == "graphics.intel"@,
        profile_table()[2].id == "graphics.nvidia"@,
        profile_table()[3].id == "vm.qemu"@,
        profile_table()[4].id == "vm.virtualbox"@,
        profile_table()[5].id == "vm.vmware"@,
        profile_table().len() == 6,
{
}

/// The length and first letter of the ID at `j` of the table: graphics
/// profiles first, then virtual-machine profiles, no two of one length.
proof fn lemma_table_id_at(j: int)
    requires
        0 <= j < 6,
    ensures
        profile_table()[j].id.len() == (if j == 0 {
            12int
        } else if j == 1 {
            14int
        } else if j == 2 {
            15int
        } else if j == 3 {
            7int
        } else if j == 4 {
            13int
        } else {
            9int
        }),
        profile_table()[j].id[0] == (if j < 3 {
            'g'
        } else {
            'v'
        }),
{
    reveal_strlit("graphics.amd");
    reveal_strlit("graphics.intel");
    reveal_strlit("graphics.nvidia");
    reveal_strlit("vm.qemu");
    reveal_strlit("vm.virtualbox");
    reveal_strlit("vm.vmware");
    lemma_table_ids();
    if j == 0 {
    } else if j == 1 {
    } else if j == 2 {
    } else if j == 3 {
    } else if j == 4 {
    } else {
    }
}

// ---------------------------------------------------------------------------
// Laws
// ---------------------------------------------------------------------------

/// A graphics profile is matched exactly when a display controller (class
/// 0300, 0302 or 0380) of its vendor is present: `graphics.amd` for 1002,
/// `graphics.intel` for 8086, `graphics.nvidia` for 10de (vendor IDs up to
/// ASCII case). A device of another class never selects a graphics profile.
pub proof fn law_graphics_profile_needs_display_of_vendor(ev: EvidenceModel)
    ensures
        spec_matching_ids(ev).contains("graphics.amd"@) <==> has_display_of(ev.pci, "1002"@),
        spec_matching_ids(ev).contains("graphics.intel"@) <==> has_display_of(ev.pci, "8086"@),
        spec_matching_ids(ev).contains("graphics.nvidia"@) <==> has_display_of(ev.pci, "10de"@),
{
    reveal_strlit("graphics.amd");
    reveal_strlit("graphics.intel");
    reveal_strlit("graphics.nvidia");
    reveal_strlit("graphics.hybrid");
    reveal_strlit("vm.qemu");
    reveal_strlit("vm.virtualbox");
    reveal_strlit("vm.vmware");
    reveal_strlit("vm.hyperv");
    reveal_strlit("vm.xen");
    reveal_strlit("1002");
    reveal_strlit("8086");
    reveal_strlit("10de");
    lemma_table_ids();
    let t = profile_table();
    lemma_graphics_profile_selected(ev, 0, "1002"@);
    lemma_graphics_profile_selected(ev, 1, "8086"@);
    lemma_graphics_profile_selected(ev, 2, "10de"@);
    assert("graphics.nvidia"@[9] != "graphics.hybrid"@[9]);
    assert forall|v: Seq<char>| #[trigger] spec_vm_profile_id(v) is Some implies spec_vm_profile_id(v)->0[0] == 'v' by {}
    lemma_matching_contains(ev, "graphics.amd"@);
    lemma_matching_contains(ev, "graphics.intel"@);
    lemma_matching_contains(ev, "graphics.nvidia"@);
    assert forall|j: int| 0 <= j < t.len() && #[trigger] t[j].id == "graphics.amd"@ implies j == 0 by {
        lemma_table_id_at(j);
    }
    assert forall|j: int| 0 <= j < t.len() && #[trigger] t[j].id == "graphics.intel"@ implies j == 1 by {
        lemma_table_id_at(j);
    }
    assert forall|j: int| 0 <= j < t.len() && #[trigger] t[j].id == "graphics.nvidia"@ implies j == 2 by {
        lemma_table_id_at(j);
    }
    if let Some(v) = ev.virtualization {
        if spec_vm_profile_id(v) is Some {
            assert(spec_vm_profile_id(v)->0[0] == 'v');
        }
    }
}

/// A virtual-machine profile ID is matched exactly when the environment
/// maps to it: the table's virtual-machine profiles are limited to the
/// environments that map to their own IDs.
proof fn lemma_vm_id_matched(ev: EvidenceModel, id: Seq<char>)
    requires
        id.len() > 0,
        id[0] == 'v',
    ensures
        spec_matching_ids(ev).contains(id) <==> (ev.virtualization matches Some(v)
            && spec_vm_profile_id(v) == Some(id)),
{
    reveal_strlit("graphics.hybrid");
    reveal_strlit("vm.qemu");
    reveal_strlit("vm.virtualbox");
    reveal_strlit("vm.vmware");
    reveal_strlit("kvm");
    reveal_strlit("qemu");
    reveal_strlit("oracle");
    reveal_strlit("vmware");
    lemma_table_ids();
    lemma_matching_contains(ev, id);
    let t = profile_table();
    if exists|j: int| 0 <= j < t.len() && #[trigger] t[j].id == id && profile_selected(t[j], ev) {
        let j = choose|j: int| 0 <= j < t.len() && #[trigger] t[j].id == id && profile_selected(t[j], ev);
        lemma_table_id_at(j);
        assert(3 <= j);
        let envs = t[j].environment_types;
        let v = ev.virtualization->0;
        assert(envs.len() > 0) by {
            if j == 3 {
                assert(envs == seq!["kvm"@, "qemu"@]);
            } else if j == 4 {
                assert(envs == seq!["oracle"@]);
            } else {
                assert(envs == seq!["vmware"@]);
            }
        }
        assert(envs.contains(v));
        let m = choose|m: int| 0 <= m < envs.len() && envs[m] == v;
        if j == 3 {
            assert(envs == seq!["kvm"@, "qemu"@]);
            assert(v == "kvm"@ || v == "qemu"@);
        } else if j == 4 {
            assert(envs == seq!["oracle"@]);
            assert(v == "oracle"@);
        } else {
            assert(envs == seq!["vmware"@]);
            assert(v == "vmware"@);
        }
        lemma_vm_profile_ids(v);
    }
    assert("graphics.hybrid"@[0] == 'g');
}

/// Which environments map to which virtual-machine profile.
proof fn lemma_vm_profile_ids(v: Seq<char>)
    ensures
        spec_vm_profile_id(v) == Some("vm.qemu"@) <==> v == "kvm"@ || v == "qemu"@,
        spec_vm_profile_id(v) == Some("vm.virtualbox"@) <==> v == "oracle"@,
        spec_vm_profile_id(v) == Some("vm.vmware"@) <==> v == "vmware"@,
        spec_vm_profile_id(v) == Some("vm.hyperv"@) <==> v == "microsoft"@,
        spec_vm_profile_id(v) == Some("vm.xen"@) <==> v == "xen"@,
{
    reveal_strlit("vm.qemu");
    reveal_strlit("vm.virtualbox");
    reveal_strlit("vm.vmware");
    reveal_strlit("vm.hyperv");
    reveal_strlit("vm.xen");
    reveal_strlit("kvm");
    reveal_strlit("qemu");
    reveal_strlit("oracle");
    reveal_strlit("vmware");
    reveal_strlit("microsoft");
    reveal_strlit("xen");
    assert("vm.qemu"@.len() == 7 && "vm.virtualbox"@.len() == 13 && "vm.vmware"@.len() == 9
        && "vm.hyperv"@.len() == 9 && "vm.xen"@.len() == 6);
    assert("vm.vmware"@[3] != "vm.hyperv"@[3]);
    assert("kvm"@.len() == 3 && "qemu"@.len() == 4 && "oracle"@.len() == 6 && "vmware"@.len() == 6
        && "microsoft"@.len() == 9 && "xen"@.len() == 3);
    assert("kvm"@[0] != "xen"@[0]);
    assert("oracle"@[0] != "vmware"@[0]);
}

/// Each known virtualization environment names its virtual-machine profile,
/// and only it does: `vm.qemu` for `kvm` and `qemu`, `vm.virtualbox` for
/// `oracle`, `vm.vmware` for `vmware`, `vm.hyperv` for `microsoft`,
/// `vm.xen` for `xen`.
pub proof fn law_environment_names_vm_profile(ev: EvidenceModel)
    ensures
        spec_matching_ids(ev).contains("vm.qemu"@) <==> ev.virtualization == Some("kvm"@)
            || ev.virtualization == Some("qemu"@),
        spec_matching_ids(ev).contains("vm.virtualbox"@) <==> ev.virtualization == Some("oracle"@),
        spec_matching_ids(ev).contains("vm.vmware"@) <==> ev.virtualization == Some("vmware"@),
        spec_matching_ids(ev).contains("vm.hyperv"@) <==> ev.virtualization == Some("microsoft"@),
        spec_matching_ids(ev).contains("vm.xen"@) <==> ev.virtualization == Some("xen"@),
{
    reveal_strlit("vm.qemu");
    reveal_strlit("vm.virtualbox");
    reveal_strlit("vm.vmware");
    reveal_strlit("vm.hyperv");
    reveal_strlit("vm.xen");
    lemma_vm_id_matched(ev, "vm.qemu"@);
    lemma_vm_id_matched(ev, "vm.virtualbox"@);
    lemma_vm_id_matched(ev, "vm.vmware"@);
    lemma_vm_id_matched(ev, "vm.hyperv"@);
    lemma_vm_id_matched(ev, "vm.xen"@);
    if let Some(v) = ev.virtualization {
        lemma_vm_profile_ids(v);
    }
}

/// Which processor vendor gives which CPU profile.
proof fn lemma_cpu_ids_contains(cpu: CpuModel, id: Seq<char>)
    ensures
        spec_cpu_ids(cpu).contains(id) <==> (cpu.vendor matches Some(v) && ((lower(v)
            == "genuineintel"@ && id == "cpu.intel"@) || (lower(v) == "authenticamd"@ && id
            == "cpu.amd"@))),
{
    reveal_strlit("genuineintel");
    reveal_strlit("authenticamd");
    assert("genuineintel"@[0] != "authenticamd"@[0]);
    if spec_cpu_ids(cpu).contains(id) {
        let k = choose|k: int| 0 <= k < spec_cpu_ids(cpu).len() && spec_cpu_ids(cpu)[k] == id;
    }
    if let Some(v) = cpu.vendor {
        if lower(v) == "genuineintel"@ && id == "cpu.intel"@ {
            assert(spec_cpu_ids(cpu)[0] == id);
        }
        if lower(v) == "authenticamd"@ && id == "cpu.amd"@ {
            assert(spec_cpu_ids(cpu)[0] == id);
        }
    }
}

/// No matched profile ID starts with `c`: those are the CPU profiles'.
proof fn lemma_matched_id_not_cpu(ev: EvidenceModel, id: Seq<char>)
    requires
        id.len() > 0,
        id[0] == 'c',
    ensures
        !spec_matching_ids(ev).contains(id),
{
    reveal_strlit("graphics.hybrid");
    reveal_strlit("vm.qemu");
    reveal_strlit("vm.virtualbox");
    reveal_strlit("vm.vmware");
    reveal_strlit("vm.hyperv");
    reveal_strlit("vm.xen");
    lemma_matching_contains(ev, id);
    let t = profile_table();
    if exists|j: int| 0 <= j < t.len() && #[trigger] t[j].id == id && profile_selected(t[j], ev) {
        let j = choose|j: int| 0 <= j < t.len() && #[trigger] t[j].id == id && profile_selected(t[j], ev);
        lemma_table_id_at(j);
    }
    if let Some(v) = ev.virtualization {
        assert(spec_vm_profile_id(v) is Some ==> spec_vm_profile_id(v)->0[0] == 'v');
    }
    assert("graphics.hybrid"@[0] == 'g');
}

/// In a report, an ID that does not start with `c` is among the profile IDs
/// exactly when the report's evidence matches it; one that does is exactly
/// when it is the processor vendor's CPU profile.
proof fn lemma_report_contains(ev: EvidenceModel, ws: Seq<WarningModel>, r: DetectionReport, id: Seq<char>)
    requires
        is_report_of(ev, ws, r),
        id.len() > 0,
    ensures
        id[0] != 'c' ==> (texts(r.profile_ids@).contains(id) <==> spec_matching_ids(r.evidence@).contains(id)),
        id[0] == 'c' ==> (texts(r.profile_ids@).contains(id) <==> spec_cpu_ids(ev.cpu).contains(id)),
{
    let m = spec_matching_ids(r.evidence@);
    let c = spec_cpu_ids(ev.cpu);
    lemma_concat_contains(m, c, id);
    assert(texts(r.profile_ids@).contains(id) <==> texts(r.profile_ids@).to_set().contains(id));
    assert((m + c).to_set().contains(id) <==> (m + c).contains(id));
    lemma_cpu_ids_contains(ev.cpu, id);
    reveal_strlit("cpu.intel");
    reveal_strlit("cpu.amd");
    if id[0] == 'c' {
        lemma_matched_id_not_cpu(r.evidence@, id);
    }
}

/// The profile IDs of a report say what its evidence shows: `cpu.intel` and
/// `cpu.amd` exactly for a processor vendor `GenuineIntel` or `AuthenticAMD`
/// (up to ASCII case); a graphics profile exactly when a display controller
/// of its vendor is among the report's devices; a virtual-machine profile
/// exactly when the report's environment maps to it.
pub proof fn law_report_profiles_follow_evidence(
    ev: EvidenceModel,
    ws: Seq<WarningModel>,
    r: DetectionReport,
)
    requires
        is_report_of(ev, ws, r),
    ensures
        texts(r.profile_ids@).contains("cpu.intel"@) <==> (ev.cpu.vendor matches Some(v) && lower(v)
            == "genuineintel"@),
        texts(r.profile_ids@).contains("cpu.amd"@) <==> (ev.cpu.vendor matches Some(v) && lower(v)
            == "authenticamd"@),
        texts(r.profile_ids@).contains("graphics.amd"@) <==> has_display_of(r.evidence@.pci, "1002"@),
        texts(r.profile_ids@).contains("graphics.intel"@) <==> has_display_of(
            r.evidence@.pci,
            "8086"@,
        ),
        texts(r.profile_ids@).contains("graphics.nvidia"@) <==> has_display_of(
            r.evidence@.pci,
            "10de"@,
        ),
        texts(r.profile_ids@).contains("vm.qemu"@) <==> r.evidence@.virtualization == Some("kvm"@)
            || r.evidence@.virtualization == Some("qemu"@),
        texts(r.profile_ids@).contains("vm.virtualbox"@) <==> r.evidence@.virtualization == Some(
            "oracle"@,
        ),
        texts(r.profile_ids@).contains("vm.vmware"@) <==> r.evidence@.virtualization == Some(
            "vmware"@,
        ),
        texts(r.profile_ids@).contains("vm.hyperv"@) <==> r.evidence@.virtualization == Some(
            "microsoft"@,
        ),
        texts(r.profile_ids@).contains("vm.xen"@) <==> r.evidence@.virtualization == Some("xen"@),
{
    reveal_strlit("cpu.intel");
    reveal_strlit("cpu.amd");
    reveal_strlit("graphics.amd");
    reveal_strlit("graphics.intel");
    reveal_strlit("graphics.nvidia");
    reveal_strlit("vm.qemu");
    reveal_strlit("vm.virtualbox");
    reveal_strlit("vm.vmware");
    reveal_strlit("vm.hyperv");
    reveal_strlit("vm.xen");
    reveal_strlit("genuineintel");
    reveal_strlit("authenticamd");
    assert("cpu.intel"@[0] == 'c' && "cpu.amd"@[0] == 'c');
    lemma_report_contains(ev, ws, r, "cpu.intel"@);
    lemma_report_contains(ev, ws, r, "cpu.amd"@);
    lemma_cpu_ids_contains(ev.cpu, "cpu.intel"@);
    lemma_cpu_ids_contains(ev.cpu, "cpu.amd"@);
    lemma_report_contains(ev, ws, r, "graphics.amd"@);
    lemma_report_contains(ev, ws, r, "graphics.intel"@);
    lemma_report_contains(ev, ws, r, "graphics.nvidia"@);
    lemma_report_contains(ev, ws, r, "vm.qemu"@);
    lemma_report_contains(ev, ws, r, "vm.virtualbox"@);
    lemma_report_contains(ev, ws, r, "vm.vmware"@);
    lemma_report_contains(ev, ws, r, "vm.hyperv"@);
    lemma_report_contains(ev, ws, r, "vm.xen"@);
    law_graphics_profile_needs_display_of_vendor(r.evidence@);
    law_environment_names_vm_profile(r.evidence@);
}

/// The vendor IDs counted for the hybrid rule (and listed by
/// `unique_graphics_vendors`) are exactly those of the display controllers:
/// class 0300, 0302 or 0380.
pub proof fn law_graphics_vendors_are_display_vendors(pci: Seq<PciModel>, v: Seq<char>)
    ensures
        graphics_vendors(pci).contains(v) <==> exists|i: int|
            0 <= i < pci.len() && is_display_class(#[trigger] pci[i].class_id) && pci[i].vendor_id == v,
{
}

} // verus!
