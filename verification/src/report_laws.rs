//! What every report holds, spelled out: its metadata, the evidence that
//! passes through unchanged, which warnings it carries, and the order of
//! its arrays.
use vstd::prelude::*;

use crate::detection::is_report_of;
use crate::laws::{dictionary_less, law_text_order_is_dictionary_order};
use crate::normalize::{rejection_warnings, spec_normalize_device};
use crate::order::{text_less, texts};
use crate::{warning_models, DetectionReport, EvidenceModel, PciModel, WarningModel};

verus! {

/// A warning for a device that was dropped: its message names the
/// malformed field.
pub open spec fn is_dropped_device_warning(w: WarningModel) -> bool {
    exists|f: Seq<char>| #[trigger] ("ignored device with malformed "@ + f) == w.message
}

proof fn lemma_rejections_are_dropped_device_warnings(s: Seq<PciModel>)
    ensures
        forall|i: int|
            0 <= i < rejection_warnings(s).len() ==> is_dropped_device_warning(
                #[trigger] rejection_warnings(s)[i],
            ),
    decreases s.len(),
{
    if s.len() > 0 {
        let t = s.drop_last();
        lemma_rejections_are_dropped_device_warnings(t);
        let a = rejection_warnings(s);
        let b = rejection_warnings(t);
        assert forall|i: int| 0 <= i < a.len() implies is_dropped_device_warning(#[trigger] a[i]) by {
            if i < b.len() {
                assert(a[i] == b[i]);
            } else {
                let d = s.last();
                let w = a[i];
                assert(spec_normalize_device(d) == Err::<PciModel, WarningModel>(w));
                let f = choose|f: Seq<char>|
                    spec_normalize_device(d) == Err::<PciModel, WarningModel>(
                        WarningModel {
                            source: w.source,
                            message: "ignored device with malformed "@ + f,
                        },
                    );
            }
        }
    }
}

/// What every report holds besides its profile IDs: schema version 1; the
/// detector `linxira-chwd-detector`, version `0.1.0`, following CHWD
/// `1.23.0`; the DMI and CPU evidence as given; every given warning, and no
/// other warning but those for dropped devices; the profile IDs in strictly
/// increasing dictionary order, so none twice; the devices in dictionary
/// order of bus address.
pub proof fn law_report_shape(ev: EvidenceModel, ws: Seq<WarningModel>, r: DetectionReport)
    requires
        is_report_of(ev, ws, r),
    ensures
        r.schema_version == 1,
        r.detector.name@ == "linxira-chwd-detector"@,
        r.detector.version@ == "0.1.0"@,
        r.detector.upstream_chwd@ == "1.23.0"@,
        r.evidence@.dmi == ev.dmi,
        r.evidence@.cpu == ev.cpu,
        forall|w: WarningModel| #[trigger] ws.contains(w) ==> warning_models(r.warnings@).contains(w),
        forall|i: int|
            0 <= i < r.warnings@.len() ==> ws.contains(#[trigger] warning_models(r.warnings@)[i])
                || is_dropped_device_warning(warning_models(r.warnings@)[i]),
        forall|i: int, j: int|
            0 <= i < j < r.profile_ids@.len() ==> dictionary_less(
                #[trigger] texts(r.profile_ids@)[i],
                #[trigger] texts(r.profile_ids@)[j],
            ),
        forall|i: int, j: int|
            0 <= i < j < r.evidence@.pci.len() ==> !dictionary_less(
                #[trigger] r.evidence@.pci[j].bus_id,
                #[trigger] r.evidence@.pci[i].bus_id,
            ),
{
    let wm = warning_models(r.warnings@);
    let all = ws + rejection_warnings(ev.pci);
    assert forall|w: WarningModel| #[trigger] ws.contains(w) implies wm.contains(w) by {
        let k = choose|k: int| 0 <= k < ws.len() && ws[k] == w;
        assert(all[k] == w);
        assert(all.to_set().contains(w));
        assert(wm.to_set().contains(w));
    }
    lemma_rejections_are_dropped_device_warnings(ev.pci);
    assert forall|i: int| 0 <= i < r.warnings@.len() implies ws.contains(#[trigger] wm[i])
        || is_dropped_device_warning(wm[i]) by {
        assert(wm.len() == r.warnings@.len());
        assert(wm.to_set().contains(wm[i]));
        assert(all.contains(wm[i]));
        let k = choose|k: int| 0 <= k < all.len() && all[k] == wm[i];
        if k >= ws.len() {
            assert(rejection_warnings(ev.pci)[k - ws.len()] == wm[i]);
        } else {
            assert(ws[k] == wm[i]);
        }
    }
    let ids = texts(r.profile_ids@);
    assert forall|i: int, j: int| 0 <= i < j < r.profile_ids@.len() implies dictionary_less(
        #[trigger] ids[i],
        #[trigger] ids[j],
    ) by {
        assert(text_less()(ids[i], ids[j]));
        law_text_order_is_dictionary_order(ids[i], ids[j]);
    }
    let pci = r.evidence@.pci;
    assert forall|i: int, j: int| 0 <= i < j < pci.len() implies !dictionary_less(
        #[trigger] pci[j].bus_id,
        #[trigger] pci[i].bus_id,
    ) by {
        law_text_order_is_dictionary_order(pci[j].bus_id, pci[i].bus_id);
    }
}

} // verus!
