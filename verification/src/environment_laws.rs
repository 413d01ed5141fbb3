//! What inferring the virtualization environment is for, stated over the
//! DMI identity and PCI devices themselves: DMI identity decides first, in
//! a fixed order of hypervisor names; only when it names none do the PCI
//! vendor IDs decide, VirtualBox's before VMware's before QEMU's.
use vstd::prelude::*;

use crate::collect::{spec_collect, spec_infer_virtualization, Readings};
use crate::detection::is_report_of;
use crate::text::{contains_text, eq_ignore_case, lower};
use crate::{DetectionReport, DmiModel, EvidenceModel, PciModel, WarningModel};

verus! {

/// The text searched for hypervisor names: system vendor and product name,
/// separated by a space, in lower case (a missing field reads as empty).
pub open spec fn identity_text(dmi: DmiModel) -> Seq<char> {
    let vendor = match dmi.system_vendor {
        Some(s) => s,
        None => Seq::empty(),
    };
    let product = match dmi.product_name {
        Some(s) => s,
        None => Seq::empty(),
    };
    lower(vendor + " "@ + product)
}

/// The text names one of the known hypervisors.
pub open spec fn names_hypervisor(t: Seq<char>) -> bool {
    ||| contains_text(t, "vmware"@)
    ||| contains_text(t, "virtualbox"@)
    ||| contains_text(t, "innotek"@)
    ||| contains_text(t, "qemu"@)
    ||| contains_text(t, "kvm"@)
    ||| contains_text(t, "bochs"@)
    ||| contains_text(t, "hyper-v"@)
    ||| contains_text(t, "virtual machine"@)
    ||| contains_text(t, "xen"@)
}

/// Some device's vendor ID equals `vendor` up to ASCII case.
pub open spec fn has_vendor(pci: Seq<PciModel>, vendor: Seq<char>) -> bool {
    exists|i: int| 0 <= i < pci.len() && eq_ignore_case(#[trigger] pci[i].vendor_id, vendor)
}

/// Some device's vendor ID is one of QEMU's (1af4, 1b36, 1234) up to ASCII case.
pub open spec fn has_qemu_vendor(pci: Seq<PciModel>) -> bool {
    exists|i: int|
        0 <= i < pci.len() && (lower(#[trigger] pci[i].vendor_id) == "1af4"@ || lower(
            pci[i].vendor_id,
        ) == "1b36"@ || lower(pci[i].vendor_id) == "1234"@)
}

proof fn lemma_qemu_vendor(pci: Seq<PciModel>)
    ensures
        crate::collect::some_vendor_in(pci, seq!["1af4"@, "1b36"@, "1234"@]) <==> has_qemu_vendor(
            pci,
        ),
{
    let vs = seq!["1af4"@, "1b36"@, "1234"@];
    assert(vs[0] == "1af4"@ && vs[1] == "1b36"@ && vs[2] == "1234"@);
    if crate::collect::some_vendor_in(pci, vs) {
        let i = choose|i: int| 0 <= i < pci.len() && vs.contains(lower(#[trigger] pci[i].vendor_id));
        let k = choose|k: int| 0 <= k < vs.len() && vs[k] == lower(pci[i].vendor_id);
        assert(lower(pci[i].vendor_id) == "1af4"@ || lower(pci[i].vendor_id) == "1b36"@ || lower(
            pci[i].vendor_id,
        ) == "1234"@);
    }
    if has_qemu_vendor(pci) {
        let i = choose|i: int|
            0 <= i < pci.len() && (lower(#[trigger] pci[i].vendor_id) == "1af4"@ || lower(
                pci[i].vendor_id,
            ) == "1b36"@ || lower(pci[i].vendor_id) == "1234"@);
        if lower(pci[i].vendor_id) == "1af4"@ {
            assert(vs.contains(lower(pci[i].vendor_id)));
        } else if lower(pci[i].vendor_id) == "1b36"@ {
            assert(vs.contains(lower(pci[i].vendor_id)));
        } else {
            assert(vs.contains(lower(pci[i].vendor_id)));
        }
    }
}

/// DMI identity decides first, whatever PCI devices are present: a text
/// naming `vmware` gives `vmware`; else `virtualbox` or `innotek` gives
/// `oracle`; else `qemu`, `kvm` or `bochs` gives `kvm`; else `hyper-v` or
/// `virtual machine` gives `microsoft`; else `xen` gives `xen`.
pub proof fn law_dmi_identity_decides_first(dmi: DmiModel, pci: Seq<PciModel>)
    ensures
        contains_text(identity_text(dmi), "vmware"@) ==> spec_infer_virtualization(dmi, pci)
            == Some("vmware"@),
        !contains_text(identity_text(dmi), "vmware"@) && (contains_text(
            identity_text(dmi),
            "virtualbox"@,
        ) || contains_text(identity_text(dmi), "innotek"@)) ==> spec_infer_virtualization(dmi, pci)
            == Some("oracle"@),
        !contains_text(identity_text(dmi), "vmware"@) && !contains_text(
            identity_text(dmi),
            "virtualbox"@,
        ) && !contains_text(identity_text(dmi), "innotek"@) && (contains_text(
            identity_text(dmi),
            "qemu"@,
        ) || contains_text(identity_text(dmi), "kvm"@) || contains_text(
            identity_text(dmi),
            "bochs"@,
        )) ==> spec_infer_virtualization(dmi, pci) == Some("kvm"@),
        !contains_text(identity_text(dmi), "vmware"@) && !contains_text(
            identity_text(dmi),
            "virtualbox"@,
        ) && !contains_text(identity_text(dmi), "innotek"@) && !contains_text(
            identity_text(dmi),
            "qemu"@,
        ) && !contains_text(identity_text(dmi), "kvm"@) && !contains_text(
            identity_text(dmi),
            "bochs"@,
        ) && (contains_text(identity_text(dmi), "hyper-v"@) || contains_text(
            identity_text(dmi),
            "virtual machine"@,
        )) ==> spec_infer_virtualization(dmi, pci) == Some("microsoft"@),
        names_hypervisor(identity_text(dmi)) && !contains_text(identity_text(dmi), "vmware"@)
            && !contains_text(identity_text(dmi), "virtualbox"@) && !contains_text(
            identity_text(dmi),
            "innotek"@,
        ) && !contains_text(identity_text(dmi), "qemu"@) && !contains_text(
            identity_text(dmi),
            "kvm"@,
        ) && !contains_text(identity_text(dmi), "bochs"@) && !contains_text(
            identity_text(dmi),
            "hyper-v"@,
        ) && !contains_text(identity_text(dmi), "virtual machine"@) ==> spec_infer_virtualization(
            dmi,
            pci,
        ) == Some("xen"@),
{
    assert(crate::collect::dmi_text(dmi) == identity_text(dmi));
}

/// When DMI identity names no hypervisor, the PCI vendor IDs decide, whatever
/// other devices are present: a VirtualBox device (80ee) gives `oracle`;
/// else a VMware device (15ad) gives `vmware`; else a QEMU device (1af4,
/// 1b36, 1234) gives `kvm`; else no environment is inferred.
pub proof fn law_pci_vendors_decide_in_order(dmi: DmiModel, pci: Seq<PciModel>)
    ensures
        !names_hypervisor(identity_text(dmi)) && has_vendor(pci, "80ee"@)
            ==> spec_infer_virtualization(dmi, pci) == Some("oracle"@),
        !names_hypervisor(identity_text(dmi)) && !has_vendor(pci, "80ee"@) && has_vendor(
            pci,
            "15ad"@,
        ) ==> spec_infer_virtualization(dmi, pci) == Some("vmware"@),
        !names_hypervisor(identity_text(dmi)) && !has_vendor(pci, "80ee"@) && !has_vendor(
            pci,
            "15ad"@,
        ) && has_qemu_vendor(pci) ==> spec_infer_virtualization(dmi, pci) == Some("kvm"@),
        !names_hypervisor(identity_text(dmi)) && !has_vendor(pci, "80ee"@) && !has_vendor(
            pci,
            "15ad"@,
        ) && !has_qemu_vendor(pci) ==> spec_infer_virtualization(dmi, pci) is None,
{
    assert(crate::collect::dmi_text(dmi) == identity_text(dmi));
    lemma_qemu_vendor(pci);
}

/// Collected evidence carries the environment that its own DMI identity and
/// PCI devices point to; so, for one, a system vendor or product name naming
/// QEMU (and no VMware or VirtualBox) gives `kvm`.
pub proof fn law_collected_environment_is_inferred(r: Readings)
    ensures
        spec_collect(r).0.virtualization == spec_infer_virtualization(
            spec_collect(r).0.dmi,
            spec_collect(r).0.pci,
        ),
        contains_text(identity_text(spec_collect(r).0.dmi), "qemu"@) && !contains_text(
            identity_text(spec_collect(r).0.dmi),
            "vmware"@,
        ) && !contains_text(identity_text(spec_collect(r).0.dmi), "virtualbox"@) && !contains_text(
            identity_text(spec_collect(r).0.dmi),
            "innotek"@,
        ) ==> spec_collect(r).0.virtualization == Some("kvm"@),
{
    law_dmi_identity_decides_first(spec_collect(r).0.dmi, spec_collect(r).0.pci);
}

/// The environment of a report: a given one is kept, in lower case;
/// without one, it is what the report's own DMI identity and devices point to.
pub proof fn law_report_environment(ev: EvidenceModel, ws: Seq<WarningModel>, r: DetectionReport)
    requires
        is_report_of(ev, ws, r),
    ensures
        ev.virtualization matches Some(v) ==> r.evidence@.virtualization == Some(lower(v)),
        ev.virtualization is None ==> r.evidence@.virtualization == spec_infer_virtualization(
            r.evidence@.dmi,
            r.evidence@.pci,
        ),
{
}

} // verus!
