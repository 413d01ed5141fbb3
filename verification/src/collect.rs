//! Turning what was read from sysfs and procfs into `Evidence`, and the
//! inference of the virtualization environment.
//!
//! The reading itself is the caller's: it hands over the text of each
//! file, or the message of the error that reading it gave.
use vstd::prelude::*;

use crate::text::{
    chars_of, concat, contains_chars, eq_ignore_case, lower, lowercase_chars, owned, str_eq,
    str_eq_ignore_case, string_of, trim, trimmed, contains_text,
};
use crate::{
    pci_models, warning_models, CpuEvidence, CpuModel, DmiEvidence, DmiModel, Evidence,
    EvidenceModel, PciDevice, PciModel, Warning, WarningModel,
};

verus! {

// ---------------------------------------------------------------------------
// What was read
// ---------------------------------------------------------------------------

/// The identity files of one PCI function: each one's text, or the error
/// that reading it gave.
pub struct PciReading {
    pub bus_id: String,
    pub class: Result<String, String>,
    pub vendor: Result<String, String>,
    pub device: Result<String, String>,
}

/// One entry of the PCI device directory.
pub enum PciEntry {
    /// The entry itself could not be read; the error's message.
    Unreadable(String),
    /// A device directory and what was read from it.
    Device(PciReading),
}

/// Everything that was read: the PCI device directory (or the error that
/// listing it gave), the DMI identity files and `/proc/cpuinfo`.
pub struct Readings {
    pub pci: Result<Vec<PciEntry>, String>,
    pub sys_vendor: Result<String, String>,
    pub product_name: Result<String, String>,
    pub chassis_type: Result<String, String>,
    pub cpuinfo: Result<String, String>,
}

// ---------------------------------------------------------------------------
// Specification
// ---------------------------------------------------------------------------

/// The warning for evidence that could not be read.
pub open spec fn io_warning_model(source: Seq<char>, error: Seq<char>) -> WarningModel {
    WarningModel { source, message: "evidence unavailable: "@ + error }
}

/// A device read from one directory entry, or the warning for it.
pub open spec fn spec_pci_entry(e: PciEntry) -> Result<PciModel, WarningModel> {
    match e {
        PciEntry::Unreadable(error) => Err(io_warning_model("pci"@, error@)),
        PciEntry::Device(r) => match (r.class, r.vendor, r.device) {
            (Ok(class_id), Ok(vendor_id), Ok(device_id)) => Ok(
                PciModel {
                    bus_id: r.bus_id@,
                    class_id: trim(class_id@),
                    vendor_id: trim(vendor_id@),
                    device_id: trim(device_id@),
                },
            ),
            _ => Err(
                WarningModel {
                    source: "pci."@ + r.bus_id@,
                    message: "ignored device with unreadable identity evidence"@,
                },
            ),
        },
    }
}

/// The devices read from `entries`, in order.
pub open spec fn entry_devices(entries: Seq<PciEntry>) -> Seq<PciModel>
    decreases entries.len(),
{
    if entries.len() == 0 {
        Seq::empty()
    } else {
        match spec_pci_entry(entries.last()) {
            Ok(d) => entry_devices(entries.drop_last()).push(d),
            Err(_) => entry_devices(entries.drop_last()),
        }
    }
}

/// The warnings for the entries of `entries` that gave no device, in order.
pub open spec fn entry_warnings(entries: Seq<PciEntry>) -> Seq<WarningModel>
    decreases entries.len(),
{
    if entries.len() == 0 {
        Seq::empty()
    } else {
        match spec_pci_entry(entries.last()) {
            Ok(_) => entry_warnings(entries.drop_last()),
            Err(w) => entry_warnings(entries.drop_last()).push(w),
        }
    }
}

/// The PCI devices and warnings from a directory listing.
pub open spec fn spec_collect_pci(listing: Result<Vec<PciEntry>, String>) -> (
    Seq<PciModel>,
    Seq<WarningModel>,
) {
    match listing {
        Err(error) => (Seq::empty(), seq![io_warning_model("pci"@, error@)]),
        Ok(entries) => (entry_devices(entries@), entry_warnings(entries@)),
    }
}

/// The trimmed text of an optional evidence file, and the warning when it
/// is empty or could not be read.
pub open spec fn spec_read_optional(read: Result<String, String>, source: Seq<char>) -> (
    Option<Seq<char>>,
    Seq<WarningModel>,
) {
    match read {
        Ok(value) => if trim(value@).len() > 0 {
            (Some(trim(value@)), Seq::empty())
        } else {
            (None, seq![WarningModel { source, message: "evidence was empty"@ }])
        },
        Err(error) => (None, seq![io_warning_model(source, error@)]),
    }
}

/// The index of the first `c` in `s`, or its length.
pub open spec fn find_char(s: Seq<char>, c: char) -> nat
    decreases s.len(),
{
    if s.len() == 0 {
        0
    } else if s[0] == c {
        0
    } else {
        1 + find_char(s.drop_first(), c)
    }
}

/// The value of `line` when it is `name: value` (key and value trimmed,
/// split at the first colon).
pub open spec fn line_field(line: Seq<char>, name: Seq<char>) -> Option<Seq<char>> {
    let i = find_char(line, ':');
    if i < line.len() && trim(line.take(i as int)) == name {
        Some(trim(line.skip(i + 1 as int)))
    } else {
        None
    }
}

/// The value of the first line of `s` that sets `name` (`str::lines`, then
/// `find_map`). A line ending `\r\n` leaves a `\r` at the end of the line
/// here, which trimming removes, so the values are those of `str::lines`.
pub open spec fn cpu_field(s: Seq<char>, name: Seq<char>) -> Option<Seq<char>>
    decreases s.len(),
{
    let i = find_char(s, '\n');
    match line_field(s.take(i as int), name) {
        Some(v) => Some(v),
        None => if i < s.len() {
            cpu_field(s.skip(i + 1 as int), name)
        } else {
            None
        },
    }
}

/// The warning for a field `name` that `/proc/cpuinfo` does not set.
pub open spec fn missing_cpu_field(value: Option<Seq<char>>, name: Seq<char>) -> Seq<WarningModel> {
    if value is None {
        seq![WarningModel { source: "cpu"@, message: "evidence has no "@ + name }]
    } else {
        Seq::empty()
    }
}

/// The CPU evidence from `/proc/cpuinfo`, with a warning when it could not
/// be read, or else one for each of its fields that it does not set.
pub open spec fn spec_collect_cpu(read: Result<String, String>) -> (CpuModel, Seq<WarningModel>) {
    match read {
        Ok(content) => {
            let vendor = cpu_field(content@, "vendor_id"@);
            let family = cpu_field(content@, "cpu family"@);
            let model = cpu_field(content@, "model"@);
            (
                CpuModel { vendor, family, model },
                missing_cpu_field(vendor, "vendor_id"@) + missing_cpu_field(family, "cpu family"@)
                    + missing_cpu_field(model, "model"@),
            )
        },
        Err(error) => (
            CpuModel { vendor: None, family: None, model: None },
            seq![io_warning_model("cpu"@, error@)],
        ),
    }
}

pub open spec fn or_empty(o: Option<Seq<char>>) -> Seq<char> {
    match o {
        Some(s) => s,
        None => Seq::empty(),
    }
}

/// The lower-cased system vendor and product name, separated by a space.
pub open spec fn dmi_text(dmi: DmiModel) -> Seq<char> {
    lower(or_empty(dmi.system_vendor) + " "@ + or_empty(dmi.product_name))
}

/// Some device's vendor ID equals `v` up to ASCII case.
pub open spec fn some_vendor(pci: Seq<PciModel>, v: Seq<char>) -> bool {
    exists|i: int| 0 <= i < pci.len() && eq_ignore_case(#[trigger] pci[i].vendor_id, v)
}

/// Some device's lower-cased vendor ID is one of `vs`.
pub open spec fn some_vendor_in(pci: Seq<PciModel>, vs: Seq<Seq<char>>) -> bool {
    exists|i: int| 0 <= i < pci.len() && vs.contains(lower(#[trigger] pci[i].vendor_id))
}

/// The virtualization environment that DMI identity, then PCI vendors,
/// point to.
pub open spec fn spec_infer_virtualization(dmi: DmiModel, pci: Seq<PciModel>) -> Option<Seq<char>> {
    let t = dmi_text(dmi);
    if contains_text(t, "vmware"@) {
        Some("vmware"@)
    } else if contains_text(t, "virtualbox"@) || contains_text(t, "innotek"@) {
        Some("oracle"@)
    } else if contains_text(t, "qemu"@) || contains_text(t, "kvm"@) || contains_text(t, "bochs"@) {
        Some("kvm"@)
    } else if contains_text(t, "hyper-v"@) || contains_text(t, "virtual machine"@) {
        Some("microsoft"@)
    } else if contains_text(t, "xen"@) {
        Some("xen"@)
    } else if some_vendor(pci, "80ee"@) {
        Some("oracle"@)
    } else if some_vendor(pci, "15ad"@) {
        Some("vmware"@)
    } else if some_vendor_in(pci, seq!["1af4"@, "1b36"@, "1234"@]) {
        Some("kvm"@)
    } else {
        None
    }
}

/// The evidence and the warnings in the order in which they arise: PCI,
/// the three DMI files, the CPU, and the warning that the virtualization
/// environment could not be inferred for want of DMI evidence.
pub open spec fn spec_collect(r: Readings) -> (EvidenceModel, Seq<WarningModel>) {
    let (pci, w_pci) = spec_collect_pci(r.pci);
    let (system_vendor, w_vendor) = spec_read_optional(r.sys_vendor, "dmi.system_vendor"@);
    let (product_name, w_product) = spec_read_optional(r.product_name, "dmi.product_name"@);
    let (chassis_type, w_chassis) = spec_read_optional(r.chassis_type, "dmi.chassis_type"@);
    let dmi = DmiModel { system_vendor, product_name, chassis_type };
    let (cpu, w_cpu) = spec_collect_cpu(r.cpuinfo);
    let virtualization = spec_infer_virtualization(dmi, pci);
    let w_virt = if virtualization is None && system_vendor is None && product_name is None {
        seq![
            WarningModel {
                source: "virtualization"@,
                message: "could not infer VM type because DMI evidence is unavailable"@,
            },
        ]
    } else {
        Seq::empty()
    };
    (
        EvidenceModel { pci, dmi, cpu, virtualization },
        w_pci + w_vendor + w_product + w_chassis + w_cpu + w_virt,
    )
}

// ---------------------------------------------------------------------------
// Lemmas
// ---------------------------------------------------------------------------

proof fn lemma_find_char_at(s: Seq<char>, c: char, i: int)
    requires
        0 <= i <= s.len(),
        forall|k: int| 0 <= k < i ==> #[trigger] s[k] != c,
        i == s.len() || s[i] == c,
    ensures
        find_char(s, c) == i,
    decreases i,
{
    if i > 0 {
        assert forall|k: int| 0 <= k < i - 1 implies #[trigger] s.drop_first()[k] != c by {
            assert(s.drop_first()[k] == s[k + 1]);
        }
        lemma_find_char_at(s.drop_first(), c, i - 1);
    }
}

// ---------------------------------------------------------------------------
// Executable functions
// ---------------------------------------------------------------------------

/// The warning for evidence at `source` that could not be read.
pub fn io_warning(source: &str, error: &str) -> (w: Warning)
    ensures
        w@ == io_warning_model(source@, error@),
{
    Warning { source: owned(source), message: concat("evidence unavailable: ", error) }
}

fn push_warning(warnings: &mut Vec<Warning>, w: Warning)
    ensures
        warning_models(final(warnings)@) == warning_models(old(warnings)@).push(w@),
{
    warnings.push(w);
    proof {
        assert(warning_models(final(warnings)@) =~= warning_models(old(warnings)@).push(w@));
    }
}

/// The device read from one entry, or `None` with a warning.
fn read_pci_entry(entry: &PciEntry, warnings: &mut Vec<Warning>) -> (r: Option<PciDevice>)
    ensures
        match spec_pci_entry(*entry) {
            Ok(d) => r matches Some(x) && x@ == d && warning_models(final(warnings)@)
                == warning_models(old(warnings)@),
            Err(w) => r is None && warning_models(final(warnings)@) == warning_models(
                old(warnings)@,
            ).push(w),
        },
{
    match entry {
        PciEntry::Unreadable(error) => {
            push_warning(warnings, io_warning("pci", error.as_str()));
            None
        },
        PciEntry::Device(reading) => match (&reading.class, &reading.vendor, &reading.device) {
            (Ok(class_id), Ok(vendor_id), Ok(device_id)) => Some(
                PciDevice {
                    bus_id: reading.bus_id.clone(),
                    class_id: trimmed(class_id.as_str()),
                    vendor_id: trimmed(vendor_id.as_str()),
                    device_id: trimmed(device_id.as_str()),
                },
            ),
            _ => {
                push_warning(
                    warnings,
                    Warning {
                        source: concat("pci.", reading.bus_id.as_str()),
                        message: owned("ignored device with unreadable identity evidence"),
                    },
                );
                None
            },
        },
    }
}

/// The PCI devices of a directory listing; warnings are appended for the
/// listing or the entries that could not be read.
pub fn collect_pci(listing: &Result<Vec<PciEntry>, String>, warnings: &mut Vec<Warning>) -> (r: Vec<
    PciDevice,
>)
    ensures
        pci_models(r@) == spec_collect_pci(*listing).0,
        warning_models(final(warnings)@) == warning_models(old(warnings)@) + spec_collect_pci(
            *listing,
        ).1,
{
    let entries = match listing {
        Ok(entries) => entries,
        Err(error) => {
            push_warning(warnings, io_warning("pci", error.as_str()));
            proof {
                assert(pci_models(Seq::<PciDevice>::empty()) =~= Seq::<PciModel>::empty());
                assert(warning_models(old(warnings)@).push(io_warning_model("pci"@, error@))
                    =~= warning_models(old(warnings)@) + seq![io_warning_model("pci"@, error@)]);
            }
            return Vec::new();
        },
    };
    let ghost start = warning_models(warnings@);
    let mut devices: Vec<PciDevice> = Vec::new();
    let n = entries.len();
    proof {
        assert(entries@.take(0) =~= Seq::<PciEntry>::empty());
        assert(pci_models(devices@) =~= Seq::<PciModel>::empty());
        assert(start + Seq::<WarningModel>::empty() =~= start);
    }
    for i in 0..n
        invariant
            n == entries@.len(),
            pci_models(devices@) == entry_devices(entries@.take(i as int)),
            warning_models(warnings@) == start + entry_warnings(entries@.take(i as int)),
    {
        let ghost before = devices@;
        let ghost w_before = entry_warnings(entries@.take(i as int));
        proof {
            assert(entries@.take(i + 1).drop_last() =~= entries@.take(i as int));
            assert(entries@.take(i + 1).last() == entries@[i as int]);
        }
        match read_pci_entry(&entries[i], warnings) {
            Some(d) => {
                devices.push(d);
                proof {
                    assert(pci_models(devices@) =~= pci_models(before).push(d@));
                }
            },
            None => {
                proof {
                    if let Err(w) = spec_pci_entry(entries@[i as int]) {
                        assert(start + w_before.push(w) =~= (start + w_before).push(w));
                    }
                }
            },
        }
    }
    proof {
        assert(entries@.take(n as int) =~= entries@);
    }
    devices
}

/// The trimmed text of an optional evidence file; a warning is appended
/// when it is empty or could not be read.
pub fn read_optional(read: &Result<String, String>, source: &str, warnings: &mut Vec<Warning>) -> (r:
    Option<String>)
    ensures
        r.deep_view() == spec_read_optional(*read, source@).0,
        warning_models(final(warnings)@) == warning_models(old(warnings)@) + spec_read_optional(
            *read,
            source@,
        ).1,
{
    match read {
        Ok(value) => {
            let t = trimmed(value.as_str());
            if !t.as_str().is_empty() {
                proof {
                    assert(warning_models(old(warnings)@) + Seq::<WarningModel>::empty()
                        =~= warning_models(old(warnings)@));
                }
                Some(t)
            } else {
                push_warning(
                    warnings,
                    Warning { source: owned(source), message: owned("evidence was empty") },
                );
                proof {
                    let w = WarningModel { source: source@, message: "evidence was empty"@ };
                    assert(warning_models(old(warnings)@).push(w) =~= warning_models(old(warnings)@)
                        + seq![w]);
                }
                None
            }
        },
        Err(error) => {
            push_warning(warnings, io_warning(source, error.as_str()));
            proof {
                let w = io_warning_model(source@, error@);
                assert(warning_models(old(warnings)@).push(w) =~= warning_models(old(warnings)@)
                    + seq![w]);
            }
            None
        },
    }
}

/// The value of the first line of `content` that sets `name` (see `cpu_field`).
pub fn cpuinfo_field(content: &str, name: &str) -> (r: Option<String>)
    ensures
        r.deep_view() == cpu_field(content@, name@),
{
    let v = chars_of(content);
    let n = v.len();
    let mut pos: usize = 0;
    assert(v@.skip(0) =~= v@);
    loop
        invariant
            v@ == content@,
            n == v@.len(),
            pos <= n,
            cpu_field(content@, name@) == cpu_field(v@.skip(pos as int), name@),
        decreases n - pos,
    {
        let ghost rest = v@.skip(pos as int);
        let mut end = pos;
        while end < n && v[end] != '\n'
            invariant
                pos <= end <= n == v@.len(),
                forall|k: int| pos <= k < end ==> v@[k] != '\n',
            decreases n - end,
        {
            end = end + 1;
        }
        proof {
            assert forall|k: int| 0 <= k < end - pos implies #[trigger] rest[k] != '\n' by {
                assert(rest[k] == v@[k + pos]);
            }
            if end < n {
                assert(rest[end - pos] == v@[end as int]);
            }
            lemma_find_char_at(rest, '\n', end - pos);
        }
        let ghost line = rest.take(end - pos);
        assert(line =~= v@.subrange(pos as int, end as int));
        let mut colon = pos;
        while colon < end && v[colon] != ':'
            invariant
                pos <= colon <= end <= n == v@.len(),
                forall|k: int| pos <= k < colon ==> v@[k] != ':',
            decreases end - colon,
        {
            colon = colon + 1;
        }
        proof {
            assert forall|k: int| 0 <= k < colon - pos implies #[trigger] line[k] != ':' by {
                assert(line[k] == v@[k + pos]);
            }
            if colon < end {
                assert(line[colon - pos] == v@[colon as int]);
            }
            lemma_find_char_at(line, ':', colon - pos);
        }
        if colon < end {
            let key = string_of(v.as_slice(), pos, colon);
            assert(key@ =~= line.take(colon - pos));
            let k = trimmed(key.as_str());
            if str_eq(k.as_str(), name) {
                let value = string_of(v.as_slice(), colon + 1, end);
                assert(value@ =~= line.skip(colon - pos + 1));
                return Some(trimmed(value.as_str()));
            }
        }
        if end == n {
            return None;
        }
        proof {
            assert(rest.skip(end - pos + 1) =~= v@.skip(end + 1));
        }
        pos = end + 1;
    }
}

/// Appends the warning for a field `name` that `/proc/cpuinfo` does not set.
fn warn_if_missing(value: &Option<String>, name: &str, warnings: &mut Vec<Warning>)
    ensures
        warning_models(final(warnings)@) == warning_models(old(warnings)@) + missing_cpu_field(
            value.deep_view(),
            name@,
        ),
{
    if value.is_none() {
        push_warning(
            warnings,
            Warning { source: owned("cpu"), message: concat("evidence has no ", name) },
        );
        proof {
            let w = WarningModel { source: "cpu"@, message: "evidence has no "@ + name@ };
            assert(warning_models(old(warnings)@).push(w) =~= warning_models(old(warnings)@)
                + seq![w]);
        }
    } else {
        proof {
            assert(warning_models(old(warnings)@) + Seq::<WarningModel>::empty()
                =~= warning_models(old(warnings)@));
        }
    }
}

/// The CPU evidence from `/proc/cpuinfo`; a warning is appended when it
/// could not be read, or else for each of its fields that it does not set.
pub fn collect_cpu(read: &Result<String, String>, warnings: &mut Vec<Warning>) -> (r: CpuEvidence)
    ensures
        r@ == spec_collect_cpu(*read).0,
        warning_models(final(warnings)@) == warning_models(old(warnings)@) + spec_collect_cpu(
            *read,
        ).1,
{
    match read {
        Ok(content) => {
            let vendor = cpuinfo_field(content.as_str(), "vendor_id");
            let family = cpuinfo_field(content.as_str(), "cpu family");
            let model = cpuinfo_field(content.as_str(), "model");
            let ghost start = warning_models(warnings@);
            warn_if_missing(&vendor, "vendor_id", warnings);
            warn_if_missing(&family, "cpu family", warnings);
            warn_if_missing(&model, "model", warnings);
            proof {
                let a = missing_cpu_field(vendor.deep_view(), "vendor_id"@);
                let b = missing_cpu_field(family.deep_view(), "cpu family"@);
                let c = missing_cpu_field(model.deep_view(), "model"@);
                assert(start + a + b + c =~= start + (a + b + c));
            }
            CpuEvidence { vendor, family, model }
        },
        Err(error) => {
            push_warning(warnings, io_warning("cpu", error.as_str()));
            proof {
                let w = io_warning_model("cpu"@, error@);
                assert(warning_models(old(warnings)@).push(w) =~= warning_models(old(warnings)@)
                    + seq![w]);
            }
            CpuEvidence { vendor: None, family: None, model: None }
        },
    }
}

/// Whether `needle` occurs in `t`.
fn text_contains(t: &Vec<char>, needle: &str) -> (r: bool)
    ensures
        r == contains_text(t@, needle@),
{
    let n = chars_of(needle);
    contains_chars(t.as_slice(), n.as_slice())
}

/// Whether some device's vendor ID equals `vendor` up to ASCII case.
fn any_vendor(pci: &Vec<PciDevice>, vendor: &str) -> (r: bool)
    ensures
        r == some_vendor(pci_models(pci@), vendor@),
{
    let n = pci.len();
    for i in 0..n
        invariant
            n == pci@.len(),
            forall|k: int| 0 <= k < i ==> !eq_ignore_case(#[trigger] pci@[k].vendor_id@, vendor@),
    {
        if str_eq_ignore_case(pci[i].vendor_id.as_str(), vendor) {
            assert(pci_models(pci@)[i as int].vendor_id == pci@[i as int].vendor_id@);
            return true;
        }
    }
    proof {
        assert forall|k: int| 0 <= k < pci_models(pci@).len() implies !eq_ignore_case(
            #[trigger] pci_models(pci@)[k].vendor_id,
            vendor@,
        ) by {
            assert(pci_models(pci@)[k].vendor_id == pci@[k].vendor_id@);
        }
    }
    false
}

/// Whether some device's lower-cased vendor ID is `1af4`, `1b36` or `1234`.
fn any_vendor_of_qemu(pci: &Vec<PciDevice>) -> (r: bool)
    ensures
        r == some_vendor_in(pci_models(pci@), seq!["1af4"@, "1b36"@, "1234"@]),
{
    let ghost vs = seq!["1af4"@, "1b36"@, "1234"@];
    let n = pci.len();
    for i in 0..n
        invariant
            n == pci@.len(),
            vs == seq!["1af4"@, "1b36"@, "1234"@],
            forall|k: int| 0 <= k < i ==> !vs.contains(lower(#[trigger] pci@[k].vendor_id@)),
    {
        let l = crate::text::lowercase(pci[i].vendor_id.as_str());
        if str_eq(l.as_str(), "1af4") || str_eq(l.as_str(), "1b36") || str_eq(l.as_str(), "1234") {
            assert(pci_models(pci@)[i as int].vendor_id == pci@[i as int].vendor_id@);
            assert(vs[0] == "1af4"@ && vs[1] == "1b36"@ && vs[2] == "1234"@);
            assert(vs.contains(lower(pci_models(pci@)[i as int].vendor_id)));
            return true;
        }
        proof {
            assert(!vs.contains(l@)) by {
                if vs.contains(l@) {
                    let j = choose|j: int| 0 <= j < vs.len() && vs[j] == l@;
                }
            }
        }
    }
    proof {
        assert forall|k: int| 0 <= k < pci_models(pci@).len() implies !vs.contains(
            lower(#[trigger] pci_models(pci@)[k].vendor_id),
        ) by {
            assert(pci_models(pci@)[k].vendor_id == pci@[k].vendor_id@);
        }
    }
    false
}

/// The virtualization environment that DMI identity, then PCI vendors, point to.
pub fn infer_virtualization(dmi: &DmiEvidence, pci: &Vec<PciDevice>) -> (r: Option<String>)
    ensures
        r.deep_view() == spec_infer_virtualization(dmi@, pci_models(pci@)),
{
    let mut raw: Vec<char> = match &dmi.system_vendor {
        Some(s) => chars_of(s.as_str()),
        None => Vec::new(),
    };
    raw.push(' ');
    let mut product: Vec<char> = match &dmi.product_name {
        Some(s) => chars_of(s.as_str()),
        None => Vec::new(),
    };
    raw.append(&mut product);
    let t = lowercase_chars(raw.as_slice());
    proof {
        reveal_strlit(" ");
        assert(raw@ =~= or_empty(dmi@.system_vendor) + " "@ + or_empty(dmi@.product_name));
    }
    if text_contains(&t, "vmware") {
        return Some(owned("vmware"));
    }
    if text_contains(&t, "virtualbox") || text_contains(&t, "innotek") {
        return Some(owned("oracle"));
    }
    if text_contains(&t, "qemu") || text_contains(&t, "kvm") || text_contains(&t, "bochs") {
        return Some(owned("kvm"));
    }
    if text_contains(&t, "hyper-v") || text_contains(&t, "virtual machine") {
        return Some(owned("microsoft"));
    }
    if text_contains(&t, "xen") {
        return Some(owned("xen"));
    }
    if any_vendor(pci, "80ee") {
        Some(owned("oracle"))
    } else if any_vendor(pci, "15ad") {
        Some(owned("vmware"))
    } else if any_vendor_of_qemu(pci) {
        Some(owned("kvm"))
    } else {
        None
    }
}

/// The evidence assembled from what was read, and the warnings in the
/// order in which they arise (see `spec_collect`).
pub fn collect(readings: &Readings) -> (r: (Evidence, Vec<Warning>))
    ensures
        r.0@ == spec_collect(*readings).0,
        warning_models(r.1@) == spec_collect(*readings).1,
{
    let mut warnings: Vec<Warning> = Vec::new();
    let pci = collect_pci(&readings.pci, &mut warnings);
    let system_vendor = read_optional(&readings.sys_vendor, "dmi.system_vendor", &mut warnings);
    let product_name = read_optional(&readings.product_name, "dmi.product_name", &mut warnings);
    let chassis_type = read_optional(&readings.chassis_type, "dmi.chassis_type", &mut warnings);
    let dmi = DmiEvidence { system_vendor, product_name, chassis_type };
    let cpu = collect_cpu(&readings.cpuinfo, &mut warnings);
    let virtualization = infer_virtualization(&dmi, &pci);
    let ghost before = warning_models(warnings@);
    if virtualization.is_none() && dmi.system_vendor.is_none() && dmi.product_name.is_none() {
        push_warning(
            &mut warnings,
            Warning {
                source: owned("virtualization"),
                message: owned("could not infer VM type because DMI evidence is unavailable"),
            },
        );
        proof {
            let w = WarningModel {
                source: "virtualization"@,
                message: "could not infer VM type because DMI evidence is unavailable"@,
            };
            assert(before.push(w) =~= before + seq![w]);
        }
    } else {
        proof {
            assert(before + Seq::<WarningModel>::empty() =~= before);
        }
    }
    proof {
        assert(Seq::<WarningModel>::empty() + spec_collect_pci(readings.pci).1 =~= spec_collect_pci(
            readings.pci,
        ).1);
    }
    (Evidence { pci, dmi, cpu, virtualization }, warnings)
}

} // verus!
