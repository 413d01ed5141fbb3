//! The detection report: normalised evidence, the matched profile IDs and
//! the warnings, every array in a deterministic order.
use vstd::prelude::*;

use crate::collect::{collect, infer_virtualization, spec_collect, spec_infer_virtualization, Readings};
use crate::matching::{matching_profile_ids, spec_matching_ids};
use crate::normalize::{kept_devices, normalize_devices, rejection_warnings};
use crate::order::{
    same_per_bus, sort_by_bus, sorted_by_bus, sorted_unique_strings, sorted_unique_warnings,
    strictly_sorted_by, text_less, texts, warning_less,
};
use crate::text::{lower, lowercase, owned, str_eq};
use crate::{
    warning_models, CpuEvidence, CpuModel, DetectionReport, DetectorMetadata, DmiModel, Evidence,
    EvidenceModel, PciModel, Warning, WarningModel, DETECTOR_NAME, DETECTOR_VERSION,
    SCHEMA_VERSION, UPSTREAM_CHWD_VERSION,
};

verus! {

/// The CPU profile of a processor vendor.
pub open spec fn spec_cpu_ids(cpu: CpuModel) -> Seq<Seq<char>> {
    match cpu.vendor {
        Some(v) => if lower(v) == "genuineintel"@ {
            seq!["cpu.intel"@]
        } else if lower(v) == "authenticamd"@ {
            seq!["cpu.amd"@]
        } else {
            Seq::empty()
        },
        None => Seq::empty(),
    }
}

/// The virtualization environment of a report: the given one in lower
/// case, or else the one that the evidence points to.
pub open spec fn spec_virtualization(
    given: Option<Seq<char>>,
    dmi: DmiModel,
    pci: Seq<PciModel>,
) -> Option<Seq<char>> {
    match given {
        Some(v) => Some(lower(v)),
        None => spec_infer_virtualization(dmi, pci),
    }
}

/// `r` is the report for evidence `ev` and warnings `ws`:
/// - the devices are the kept ones in normal form, stably sorted by bus address;
/// - DMI and CPU evidence are unchanged;
/// - the virtualization environment is the given one in lower case, or the inferred one;
/// - the profile IDs are the distinct matched IDs and CPU profile, in increasing order;
/// - the warnings are the distinct given ones and those for dropped devices, in increasing order.
pub open spec fn is_report_of(ev: EvidenceModel, ws: Seq<WarningModel>, r: DetectionReport) -> bool {
    let out = r.evidence@;
    &&& r.schema_version == SCHEMA_VERSION
    &&& r.detector.name@ == DETECTOR_NAME@
    &&& r.detector.version@ == DETECTOR_VERSION@
    &&& r.detector.upstream_chwd@ == UPSTREAM_CHWD_VERSION@
    &&& sorted_by_bus(out.pci)
    &&& same_per_bus(out.pci, kept_devices(ev.pci))
    &&& out.dmi == ev.dmi
    &&& out.cpu == ev.cpu
    &&& out.virtualization == spec_virtualization(ev.virtualization, ev.dmi, out.pci)
    &&& strictly_sorted_by(texts(r.profile_ids@), text_less())
    &&& texts(r.profile_ids@).to_set() == (spec_matching_ids(out) + spec_cpu_ids(ev.cpu)).to_set()
    &&& strictly_sorted_by(warning_models(r.warnings@), warning_less())
    &&& warning_models(r.warnings@).to_set() == (ws + rejection_warnings(ev.pci)).to_set()
}

/// Appends the CPU profile of the processor vendor, if it has one.
pub fn add_cpu_profile(cpu: &CpuEvidence, profile_ids: &mut Vec<String>)
    ensures
        texts(final(profile_ids)@) == texts(old(profile_ids)@) + spec_cpu_ids(cpu@),
{
    let ghost before = texts(profile_ids@);
    match &cpu.vendor {
        Some(vendor) => {
            let l = lowercase(vendor.as_str());
            if str_eq(l.as_str(), "genuineintel") {
                profile_ids.push(owned("cpu.intel"));
                proof {
                    assert(texts(profile_ids@) =~= before + seq!["cpu.intel"@]);
                }
            } else if str_eq(l.as_str(), "authenticamd") {
                profile_ids.push(owned("cpu.amd"));
                proof {
                    assert(texts(profile_ids@) =~= before + seq!["cpu.amd"@]);
                }
            } else {
                proof {
                    assert(texts(profile_ids@) =~= before + Seq::<Seq<char>>::empty());
                }
            }
        },
        None => {
            proof {
                assert(texts(profile_ids@) =~= before + Seq::<Seq<char>>::empty());
            }
        },
    }
}

/// The detection report for `evidence` and the warnings raised while collecting it.
pub fn detect(evidence: Evidence, warnings: Vec<Warning>) -> (r: DetectionReport)
    ensures
        is_report_of(evidence@, warning_models(warnings@), r),
{
    let ghost ev = evidence@;
    let ghost ws = warning_models(warnings@);
    let mut warnings = warnings;
    let Evidence { pci, dmi, cpu, virtualization } = evidence;
    let kept = normalize_devices(pci, &mut warnings);
    let sorted = sort_by_bus(kept);
    let virtualization = match virtualization {
        Some(value) => Some(lowercase(value.as_str())),
        None => infer_virtualization(&dmi, &sorted),
    };
    let evidence = Evidence { pci: sorted, dmi, cpu, virtualization };
    let mut ids = matching_profile_ids(&evidence);
    add_cpu_profile(&evidence.cpu, &mut ids);
    let profile_ids = sorted_unique_strings(&ids);
    let warnings = sorted_unique_warnings(&warnings);
    DetectionReport {
        schema_version: SCHEMA_VERSION,
        detector: DetectorMetadata {
            name: DETECTOR_NAME,
            version: DETECTOR_VERSION,
            upstream_chwd: UPSTREAM_CHWD_VERSION,
        },
        evidence,
        profile_ids,
        warnings,
    }
}

/// The detection report for what was read (`collect`, then `detect`).
pub fn collect_and_detect(readings: &Readings) -> (r: DetectionReport)
    ensures
        is_report_of(spec_collect(*readings).0, spec_collect(*readings).1, r),
{
    let (evidence, warnings) = collect(readings);
    detect(evidence, warnings)
}

} // verus!
