//! Hardware-ID matching of driver profiles against PCI evidence, the
//! virtual-machine profiles and the hybrid-graphics rule.
use vstd::prelude::*;

use crate::order::{sorted_unique_strings, strictly_sorted_by, text_less, texts};
use crate::text::{eq_ignore_case, str_eq, str_eq_ignore_case};
use crate::{Evidence, EvidenceModel, PciDevice, PciModel};

verus! {

// ---------------------------------------------------------------------------
// The profile table
// ---------------------------------------------------------------------------

/// A hardware ID: allowed class, vendor and device identifiers (`*` allows any).
pub struct HardwareIdModel {
    pub class_ids: Seq<Seq<char>>,
    pub vendor_ids: Seq<Seq<char>>,
    pub device_ids: Seq<Seq<char>>,
}

/// A driver profile: its stable ID, the virtualization environments it is
/// limited to (none: any), and the hardware IDs that must all be present.
pub struct ProfileModel {
    pub id: Seq<char>,
    pub environment_types: Seq<Seq<char>>,
    pub hardware_ids: Seq<HardwareIdModel>,
}

pub open spec fn graphics_classes() -> Seq<Seq<char>> {
    seq!["0300"@, "0302"@, "0380"@]
}

pub open spec fn vga_class() -> Seq<Seq<char>> {
    seq!["0300"@]
}

pub open spec fn any_device() -> Seq<Seq<char>> {
    seq!["*"@]
}

pub open spec fn graphics_profile(id: Seq<char>, vendor: Seq<char>) -> ProfileModel {
    ProfileModel {
        id,
        environment_types: Seq::empty(),
        hardware_ids: seq![
            HardwareIdModel {
                class_ids: graphics_classes(),
                vendor_ids: seq![vendor],
                device_ids: any_device(),
            },
        ],
    }
}

pub open spec fn vm_profile(
    id: Seq<char>,
    environments: Seq<Seq<char>>,
    vendors: Seq<Seq<char>>,
) -> ProfileModel {
    ProfileModel {
        id,
        environment_types: environments,
        hardware_ids: seq![
            HardwareIdModel { class_ids: vga_class(), vendor_ids: vendors, device_ids: any_device() },
        ],
    }
}

/// The driver profiles, in the order in which they are matched.
pub open spec fn profile_table() -> Seq<ProfileModel> {
    seq![
        graphics_profile("graphics.amd"@, "1002"@),
        graphics_profile("graphics.intel"@, "8086"@),
        graphics_profile("graphics.nvidia"@, "10de"@),
        vm_profile(
            "vm.qemu"@,
            seq!["kvm"@, "qemu"@],
            seq!["1af4"@, "1b36"@, "1013"@, "1234"@],
        ),
        vm_profile("vm.virtualbox"@, seq!["oracle"@], seq!["80ee"@]),
        vm_profile("vm.vmware"@, seq!["vmware"@], seq!["15ad"@]),
    ]
}

// ---------------------------------------------------------------------------
// Matching
// ---------------------------------------------------------------------------

/// `actual` is allowed by one of the identifiers in `allowed`.
pub open spec fn spec_id_matches(allowed: Seq<Seq<char>>, actual: Seq<char>) -> bool {
    exists|i: int|
        0 <= i < allowed.len() && (#[trigger] allowed[i] == "*"@ || eq_ignore_case(
            allowed[i],
            actual,
        ))
}

pub open spec fn hardware_matches(h: HardwareIdModel, d: PciModel) -> bool {
    &&& spec_id_matches(h.class_ids, d.class_id)
    &&& spec_id_matches(h.vendor_ids, d.vendor_id)
    &&& spec_id_matches(h.device_ids, d.device_id)
}

/// The indices below `n` of the devices that match `h`, in increasing order.
pub open spec fn matching_indices(devs: Seq<PciModel>, h: HardwareIdModel, n: nat) -> Seq<usize>
    decreases n,
{
    if n == 0 {
        Seq::empty()
    } else {
        let before = matching_indices(devs, h, (n - 1) as nat);
        if hardware_matches(h, devs[n - 1]) {
            before.push((n - 1) as usize)
        } else {
            before
        }
    }
}

/// Some device matches `h`.
pub open spec fn found(devs: Seq<PciModel>, h: HardwareIdModel) -> bool {
    exists|i: int| 0 <= i < devs.len() && hardware_matches(h, #[trigger] devs[i])
}

/// Every hardware ID of `hws` matches some device.
pub open spec fn all_found(devs: Seq<PciModel>, hws: Seq<HardwareIdModel>) -> bool {
    forall|j: int| 0 <= j < hws.len() ==> found(devs, #[trigger] hws[j])
}

/// The matching indices for each hardware ID of `hws`, one after the other.
pub open spec fn collected(devs: Seq<PciModel>, hws: Seq<HardwareIdModel>) -> Seq<usize>
    decreases hws.len(),
{
    if hws.len() == 0 {
        Seq::empty()
    } else {
        collected(devs, hws.drop_last()) + matching_indices(devs, hws.last(), devs.len())
    }
}

/// The devices of a profile: the indices that match its hardware IDs when
/// every one of them is present, and none otherwise.
pub open spec fn profile_devices(devs: Seq<PciModel>, p: ProfileModel) -> Seq<usize> {
    if all_found(devs, p.hardware_ids) {
        collected(devs, p.hardware_ids)
    } else {
        Seq::empty()
    }
}

/// The profile applies to the virtualization environment `virt`.
pub open spec fn spec_environment_matches(p: ProfileModel, virt: Option<Seq<char>>) -> bool {
    p.environment_types.len() == 0 || (virt is Some && p.environment_types.contains(virt->0))
}

pub open spec fn profile_selected(p: ProfileModel, ev: EvidenceModel) -> bool {
    spec_environment_matches(p, ev.virtualization) && profile_devices(ev.pci, p).len() > 0
}

/// The IDs of the selected profiles of `ps`, in table order.
pub open spec fn selected_ids(ps: Seq<ProfileModel>, ev: EvidenceModel) -> Seq<Seq<char>>
    decreases ps.len(),
{
    if ps.len() == 0 {
        Seq::empty()
    } else if profile_selected(ps.last(), ev) {
        selected_ids(ps.drop_last(), ev).push(ps.last().id)
    } else {
        selected_ids(ps.drop_last(), ev)
    }
}

/// The profile of a virtualization environment.
pub open spec fn spec_vm_profile_id(environment: Seq<char>) -> Option<Seq<char>> {
    if environment == "kvm"@ || environment == "qemu"@ {
        Some("vm.qemu"@)
    } else if environment == "oracle"@ {
        Some("vm.virtualbox"@)
    } else if environment == "vmware"@ {
        Some("vm.vmware"@)
    } else if environment == "microsoft"@ {
        Some("vm.hyperv"@)
    } else if environment == "xen"@ {
        Some("vm.xen"@)
    } else {
        None
    }
}

pub open spec fn is_graphics_class(c: Seq<char>) -> bool {
    c == "0300"@ || c == "0302"@ || c == "0380"@
}

/// The vendor IDs of the display controllers.
pub open spec fn graphics_vendors(pci: Seq<PciModel>) -> Set<Seq<char>> {
    Set::new(
        |v: Seq<char>|
            exists|i: int|
                0 <= i < pci.len() && is_graphics_class(#[trigger] pci[i].class_id)
                    && pci[i].vendor_id == v,
    )
}

/// The profile IDs that the evidence matches: the selected table profiles
/// in table order, then the profile of the virtualization environment,
/// then `graphics.hybrid` when display controllers of more than one vendor
/// are present.
pub open spec fn spec_matching_ids(ev: EvidenceModel) -> Seq<Seq<char>> {
    let vm = match ev.virtualization {
        Some(v) => match spec_vm_profile_id(v) {
            Some(id) => seq![id],
            None => Seq::empty(),
        },
        None => Seq::empty(),
    };
    let hybrid = if graphics_vendors(ev.pci).len() > 1 {
        seq!["graphics.hybrid"@]
    } else {
        Seq::empty()
    };
    selected_ids(profile_table(), ev) + vm + hybrid
}

// ---------------------------------------------------------------------------
// Executable table
// ---------------------------------------------------------------------------

/// The character sequences of some string slices.
pub open spec fn strs(s: Seq<&str>) -> Seq<Seq<char>> {
    s.map_values(|x: &str| x@)
}

struct HardwareId {
    class_ids: Vec<&'static str>,
    vendor_ids: Vec<&'static str>,
    device_ids: Vec<&'static str>,
}

struct Profile {
    id: &'static str,
    environment_types: Vec<&'static str>,
    hardware_ids: Vec<HardwareId>,
}

impl View for HardwareId {
    type V = HardwareIdModel;

    closed spec fn view(&self) -> HardwareIdModel {
        HardwareIdModel {
            class_ids: strs(self.class_ids@),
            vendor_ids: strs(self.vendor_ids@),
            device_ids: strs(self.device_ids@),
        }
    }
}

impl View for Profile {
    type V = ProfileModel;

    closed spec fn view(&self) -> ProfileModel {
        ProfileModel {
            id: self.id@,
            environment_types: strs(self.environment_types@),
            hardware_ids: self.hardware_ids@.map_values(|h: HardwareId| h@),
        }
    }
}

fn new_graphics_profile(id: &'static str, vendor: &'static str) -> (p: Profile)
    ensures
        p@ == graphics_profile(id@, vendor@),
{
    let h = HardwareId {
        class_ids: vec!["0300", "0302", "0380"],
        vendor_ids: vec![vendor],
        device_ids: vec!["*"],
    };
    let p = Profile { id, environment_types: Vec::new(), hardware_ids: vec![h] };
    proof {
        assert(strs(h.class_ids@) =~= graphics_classes());
        assert(strs(h.vendor_ids@) =~= seq![vendor@]);
        assert(strs(h.device_ids@) =~= any_device());
        assert(strs(p.environment_types@) =~= Seq::<Seq<char>>::empty());
        assert(p.hardware_ids@.map_values(|h: HardwareId| h@) =~= graphics_profile(
            id@,
            vendor@,
        ).hardware_ids);
    }
    p
}

fn new_vm_profile(
    id: &'static str,
    environment_types: Vec<&'static str>,
    vendor_ids: Vec<&'static str>,
) -> (p: Profile)
    ensures
        p@ == vm_profile(id@, strs(environment_types@), strs(vendor_ids@)),
{
    let h = HardwareId { class_ids: vec!["0300"], vendor_ids, device_ids: vec!["*"] };
    let p = Profile { id, environment_types, hardware_ids: vec![h] };
    proof {
        assert(strs(h.class_ids@) =~= vga_class());
        assert(strs(h.device_ids@) =~= any_device());
        assert(p.hardware_ids@.map_values(|h: HardwareId| h@) =~= vm_profile(
            id@,
            strs(p.environment_types@),
            strs(h.vendor_ids@),
        ).hardware_ids);
    }
    p
}

fn profiles() -> (t: Vec<Profile>)
    ensures
        t@.map_values(|p: Profile| p@) == profile_table(),
{
    let qemu_envs = vec!["kvm", "qemu"];
    let qemu_vendors = vec!["1af4", "1b36", "1013", "1234"];
    let vbox_envs = vec!["oracle"];
    let vbox_vendors = vec!["80ee"];
    let vmware_envs = vec!["vmware"];
    let vmware_vendors = vec!["15ad"];
    proof {
        assert(strs(qemu_envs@) =~= seq!["kvm"@, "qemu"@]);
        assert(strs(qemu_vendors@) =~= seq!["1af4"@, "1b36"@, "1013"@, "1234"@]);
        assert(strs(vbox_envs@) =~= seq!["oracle"@]);
        assert(strs(vbox_vendors@) =~= seq!["80ee"@]);
        assert(strs(vmware_envs@) =~= seq!["vmware"@]);
        assert(strs(vmware_vendors@) =~= seq!["15ad"@]);
    }
    let t = vec![
        new_graphics_profile("graphics.amd", "1002"),
        new_graphics_profile("graphics.intel", "8086"),
        new_graphics_profile("graphics.nvidia", "10de"),
        new_vm_profile("vm.qemu", qemu_envs, qemu_vendors),
        new_vm_profile("vm.virtualbox", vbox_envs, vbox_vendors),
        new_vm_profile("vm.vmware", vmware_envs, vmware_vendors),
    ];
    proof {
        assert(t@.map_values(|p: Profile| p@) =~= profile_table());
    }
    t
}

// ---------------------------------------------------------------------------
// Executable matching
// ---------------------------------------------------------------------------

/// Whether `actual` is allowed by one of `allowed` (`*` or equal up to ASCII case).
fn id_matches(allowed: &Vec<&'static str>, actual: &str) -> (r: bool)
    ensures
        r == spec_id_matches(strs(allowed@), actual@),
{
    let n = allowed.len();
    for i in 0..n
        invariant
            n == allowed@.len(),
            forall|k: int|
                0 <= k < i ==> !(#[trigger] strs(allowed@)[k] == "*"@ || eq_ignore_case(
                    strs(allowed@)[k],
                    actual@,
                )),
    {
        if str_eq(allowed[i], "*") || str_eq_ignore_case(allowed[i], actual) {
            assert(strs(allowed@)[i as int] == allowed@[i as int]@);
            return true;
        }
    }
    false
}

fn hardware_id_matches(h: &HardwareId, d: &PciDevice) -> (r: bool)
    ensures
        r == hardware_matches(h@, d@),
{
    id_matches(&h.class_ids, d.class_id.as_str()) && id_matches(&h.vendor_ids, d.vendor_id.as_str())
        && id_matches(&h.device_ids, d.device_id.as_str())
}

/// The indices of the devices of `profile` (see `profile_devices`).
fn get_all_devices_of_profile(devices: &Vec<PciDevice>, profile: &Profile) -> (r: Vec<usize>)
    ensures
        r@ == profile_devices(crate::pci_models(devices@), profile@),
{
    let ghost devs = crate::pci_models(devices@);
    let ghost hws = profile@.hardware_ids;
    let mut found_indices: Vec<usize> = Vec::new();
    let nh = profile.hardware_ids.len();
    let nd = devices.len();
    for j in 0..nh
        invariant
            nh == profile.hardware_ids@.len() == hws.len(),
            nd == devices@.len() == devs.len(),
            hws == profile@.hardware_ids,
            devs == crate::pci_models(devices@),
            all_found(devs, hws.take(j as int)),
            found_indices@ == collected(devs, hws.take(j as int)),
    {
        let hardware_id = &profile.hardware_ids[j];
        assert(hardware_id@ == hws[j as int]);
        let mut found_device = false;
        for index in 0..nd
            invariant
                nd == devices@.len() == devs.len(),
                devs == crate::pci_models(devices@),
                hardware_id@ == hws[j as int],
                found_indices@ == collected(devs, hws.take(j as int)) + matching_indices(
                    devs,
                    hws[j as int],
                    index as nat,
                ),
                found_device == exists|i: int|
                    0 <= i < index && hardware_matches(hws[j as int], #[trigger] devs[i]),
        {
            if hardware_id_matches(hardware_id, &devices[index]) {
                found_device = true;
                found_indices.push(index);
            }
            proof {
                assert(devs[index as int] == devices@[index as int]@);
                assert(collected(devs, hws.take(j as int)) + matching_indices(
                    devs,
                    hws[j as int],
                    (index + 1) as nat,
                ) =~= found_indices@);
            }
        }
        if !found_device {
            proof {
                assert(!all_found(devs, hws)) by {
                    assert(hws[j as int] == hws[j as int]);
                }
            }
            return Vec::new();
        }
        proof {
            let t = hws.take(j + 1);
            assert(t.drop_last() =~= hws.take(j as int));
            assert(t.last() == hws[j as int]);
            assert forall|k: int| 0 <= k < t.len() implies exists|i: int|
                0 <= i < devs.len() && hardware_matches(#[trigger] t[k], #[trigger] devs[i]) by {
                if k < j {
                    assert(hws.take(j as int)[k] == t[k]);
                }
            }
        }
    }
    proof {
        assert(hws.take(nh as int) =~= hws);
    }
    found_indices
}

/// Whether the profile applies to the virtualization environment of `evidence`.
fn environment_matches(profile: &Profile, evidence: &Evidence) -> (r: bool)
    ensures
        r == spec_environment_matches(profile@, evidence@.virtualization),
{
    if profile.environment_types.len() == 0 {
        return true;
    }
    match &evidence.virtualization {
        None => false,
        Some(value) => {
            assert(evidence@.virtualization == Some(value@));
            let n = profile.environment_types.len();
            for i in 0..n
                invariant
                    n == profile.environment_types@.len(),
                    evidence@.virtualization == Some(value@),
                    forall|k: int|
                        0 <= k < i ==> #[trigger] strs(profile.environment_types@)[k] != value@,
            {
                if str_eq(profile.environment_types[i], value.as_str()) {
                    assert(strs(profile.environment_types@)[i as int] == value@);
                    assert(strs(profile.environment_types@).contains(value@));
                    return true;
                }
            }
            false
        },
    }
}

/// The profile of a virtualization environment, if it has one.
pub fn vm_profile_id(environment: &str) -> (r: Option<&'static str>)
    ensures
        r.deep_view() == spec_vm_profile_id(environment@),
{
    if str_eq(environment, "kvm") || str_eq(environment, "qemu") {
        Some("vm.qemu")
    } else if str_eq(environment, "oracle") {
        Some("vm.virtualbox")
    } else if str_eq(environment, "vmware") {
        Some("vm.vmware")
    } else if str_eq(environment, "microsoft") {
        Some("vm.hyperv")
    } else if str_eq(environment, "xen") {
        Some("vm.xen")
    } else {
        None
    }
}

/// Some display controller among the first `n` devices has vendor ID `v`.
pub open spec fn graphics_vendor_among(pci: Seq<PciModel>, v: Seq<char>, n: int) -> bool {
    exists|k: int| 0 <= k < n && is_graphics_class(#[trigger] pci[k].class_id) && pci[k].vendor_id == v
}

/// The distinct vendor IDs of the display controllers (classes 0300, 0302
/// and 0380), in increasing order.
pub fn unique_graphics_vendors(evidence: &Evidence) -> (r: Vec<String>)
    ensures
        strictly_sorted_by(texts(r@), text_less()),
        texts(r@).to_set() == graphics_vendors(evidence@.pci),
{
    let ghost pci = evidence@.pci;
    let mut vendors: Vec<String> = Vec::new();
    let n = evidence.pci.len();
    for i in 0..n
        invariant
            n == evidence.pci@.len() == pci.len(),
            pci == evidence@.pci,
            forall|v: Seq<char>|
                #[trigger] texts(vendors@).contains(v) <==> graphics_vendor_among(pci, v, i as int),
    {
        let device = &evidence.pci[i];
        assert(pci[i as int] == device@);
        let ghost before = texts(vendors@);
        let class = device.class_id.as_str();
        if str_eq(class, "0300") || str_eq(class, "0302") || str_eq(class, "0380") {
            vendors.push(device.vendor_id.clone());
            proof {
                let x = device.vendor_id@;
                assert(texts(vendors@) =~= before.push(x));
                assert forall|v: Seq<char>|
                    #[trigger] texts(vendors@).contains(v) <==> graphics_vendor_among(pci, v, i + 1) by {
                    assert(before.contains(v) <==> graphics_vendor_among(pci, v, i as int));
                    if texts(vendors@).contains(v) {
                        if v == x {
                            assert(is_graphics_class(pci[i as int].class_id));
                        } else {
                            let m = choose|m: int| 0 <= m < texts(vendors@).len() && texts(vendors@)[m] == v;
                            assert(before[m] == v);
                        }
                    }
                    if graphics_vendor_among(pci, v, i + 1) {
                        if v == x {
                            assert(texts(vendors@)[before.len() as int] == v);
                        } else {
                            let k = choose|k: int| 0 <= k < i + 1 && is_graphics_class(#[trigger] pci[k].class_id) && pci[k].vendor_id == v;
                            assert(graphics_vendor_among(pci, v, i as int));
                            let m = choose|m: int| 0 <= m < before.len() && before[m] == v;
                            assert(texts(vendors@)[m] == v);
                        }
                    }
                }
            }
        } else {
            proof {
                assert forall|v: Seq<char>|
                    #[trigger] texts(vendors@).contains(v) <==> graphics_vendor_among(pci, v, i + 1) by {
                    assert(before.contains(v) <==> graphics_vendor_among(pci, v, i as int));
                    if graphics_vendor_among(pci, v, i + 1) {
                        let k = choose|k: int| 0 <= k < i + 1 && is_graphics_class(#[trigger] pci[k].class_id) && pci[k].vendor_id == v;
                        assert(k != i);
                        assert(graphics_vendor_among(pci, v, i as int));
                    }
                }
            }
        }
    }
    let r = sorted_unique_strings(&vendors);
    proof {
        assert forall|v: Seq<char>| #[trigger] texts(r@).to_set().contains(v) <==> graphics_vendors(pci).contains(v) by {
            assert(texts(vendors@).contains(v) <==> graphics_vendor_among(pci, v, n as int));
            assert(texts(r@).to_set().contains(v) == texts(vendors@).to_set().contains(v));
        }
        assert(texts(r@).to_set() =~= graphics_vendors(pci));
    }
    r
}

/// The profile IDs that `evidence` matches (see `spec_matching_ids`).
pub fn matching_profile_ids(evidence: &Evidence) -> (r: Vec<String>)
    ensures
        texts(r@) == spec_matching_ids(evidence@),
{
    let table = profiles();
    let ghost ev = evidence@;
    let ghost models = table@.map_values(|p: Profile| p@);
    let mut matches: Vec<String> = Vec::new();
    let n = table.len();
    for i in 0..n
        invariant
            n == table@.len() == models.len(),
            models == table@.map_values(|p: Profile| p@),
            models == profile_table(),
            ev == evidence@,
            texts(matches@) == selected_ids(models.take(i as int), ev),
    {
        let profile = &table[i];
        assert(profile@ == models[i as int]);
        let ghost before = texts(matches@);
        if environment_matches(profile, evidence) && get_all_devices_of_profile(
            &evidence.pci,
            profile,
        ).len() > 0 {
            matches.push(crate::text::owned(profile.id));
            proof {
                assert(texts(matches@) =~= before.push(profile.id@));
            }
        }
        proof {
            assert(models.take(i + 1).drop_last() =~= models.take(i as int));
        }
    }
    proof {
        assert(models.take(n as int) =~= models);
    }
    let ghost table_part = texts(matches@);
    match &evidence.virtualization {
        Some(value) => match vm_profile_id(value.as_str()) {
            Some(profile_id) => {
                matches.push(crate::text::owned(profile_id));
                proof {
                    assert(texts(matches@) =~= table_part + seq![profile_id@]);
                }
            },
            None => {
                proof {
                    assert(texts(matches@) =~= table_part + Seq::<Seq<char>>::empty());
                }
            },
        },
        None => {
            proof {
                assert(texts(matches@) =~= table_part + Seq::<Seq<char>>::empty());
            }
        },
    }
    let ghost with_vm = texts(matches@);
    let vendors = unique_graphics_vendors(evidence);
    proof {
        lemma_sorted_no_duplicates(texts(vendors@));
        texts(vendors@).unique_seq_to_set();
    }
    if vendors.len() > 1 {
        matches.push(crate::text::owned("graphics.hybrid"));
        proof {
            assert(texts(matches@) =~= with_vm + seq!["graphics.hybrid"@]);
        }
    } else {
        proof {
            assert(texts(matches@) =~= with_vm + Seq::<Seq<char>>::empty());
        }
    }
    matches
}

/// A strictly sorted sequence holds no element twice.
pub proof fn lemma_sorted_no_duplicates(s: Seq<Seq<char>>)
    requires
        strictly_sorted_by(s, text_less()),
    ensures
        s.no_duplicates(),
{
    assert forall|i: int, j: int| 0 <= i < s.len() && 0 <= j < s.len() && i != j implies s[i]
        != s[j] by {
        if i < j {
            assert(text_less()(s[i], s[j]));
            crate::text::lemma_less_irreflexive(s[i]);
        } else {
            assert(text_less()(s[j], s[i]));
            crate::text::lemma_less_irreflexive(s[j]);
        }
    }
}

} // verus!
