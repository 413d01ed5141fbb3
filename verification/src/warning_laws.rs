//! Which warning a dropped device gives, stated over the device itself: its
//! fields are checked in the order class, vendor, device, bus address, and
//! the warning names the bus address and the first malformed field.
use vstd::prelude::*;

use crate::detection::is_report_of;
use crate::laws::is_lower_hex;
use crate::normalize::{rejection_warnings, spec_normalize_device, spec_normalize_hex};
use crate::text::{is_hex_digit, is_ws, lemma_trim_fixed, lower, trim};
use crate::{warning_models, DetectionReport, EvidenceModel, PciModel, WarningModel};

verus! {

/// An identifier that is malformed on its face: it holds no white space and
/// does not start with `0x`, and it is not made of hexadecimal digits of the
/// expected length (four; for a class identifier four or six).
pub open spec fn plainly_malformed(c: Seq<char>, class_id: bool) -> bool {
    &&& forall|k: int| 0 <= k < c.len() ==> !is_ws(#[trigger] c[k])
    &&& !(c.len() >= 2 && c[0] == '0' && c[1] == 'x')
    &&& (!(c.len() == 4 || (class_id && c.len() == 6)) || exists|k: int|
        0 <= k < c.len() && !is_hex_digit(#[trigger] c[k]))
}

/// Four lower-case hexadecimal digits: an identifier in normal form.
pub open spec fn normal_id(c: Seq<char>) -> bool {
    c.len() == 4 && is_lower_hex(c)
}

/// The warning of a device dropped for its `field`.
pub open spec fn dropped(bus_id: Seq<char>, field: Seq<char>) -> WarningModel {
    WarningModel { source: "pci."@ + bus_id, message: "ignored device with malformed "@ + field }
}

proof fn lemma_plainly_malformed_rejected(c: Seq<char>, class_id: bool)
    requires
        plainly_malformed(c, class_id),
    ensures
        spec_normalize_hex(c, class_id) is None,
{
    if c.len() > 0 {
        assert(!is_ws(c[0]) && !is_ws(c[c.len() - 1]));
    }
    lemma_trim_fixed(c);
}

proof fn lemma_normal_id_accepted(c: Seq<char>, class_id: bool)
    requires
        normal_id(c),
    ensures
        spec_normalize_hex(c, class_id) == Some(c),
{
    assert(!is_ws(c[0]) && !is_ws(c[3]) && c[1] != 'x');
    lemma_trim_fixed(c);
    assert forall|k: int| 0 <= k < c.len() implies is_hex_digit(#[trigger] c[k]) by {}
    assert(lower(c) =~= c);
    assert(c.take(4) =~= c);
}

/// The warning under which a device of `s` is dropped is among the
/// rejection warnings of `s`.
proof fn lemma_rejection_contains(s: Seq<PciModel>, i: int)
    requires
        0 <= i < s.len(),
        spec_normalize_device(s[i]) is Err,
    ensures
        rejection_warnings(s).contains(spec_normalize_device(s[i])->Err_0),
    decreases s.len(),
{
    let t = s.drop_last();
    if i < t.len() {
        assert(s[i] == t[i]);
        lemma_rejection_contains(t, i);
        let k = choose|k: int|
            0 <= k < rejection_warnings(t).len() && rejection_warnings(t)[k] == spec_normalize_device(
                t[i],
            )->Err_0;
        assert(rejection_warnings(s)[k] == rejection_warnings(t)[k]);
    } else {
        assert(s[i] == s.last());
        assert(rejection_warnings(s).last() == spec_normalize_device(s[i])->Err_0);
    }
}

/// A warning for a dropped device of the evidence is among the report's warnings.
proof fn lemma_report_has_rejection(ev: EvidenceModel, ws: Seq<WarningModel>, r: DetectionReport, i: int)
    requires
        is_report_of(ev, ws, r),
        0 <= i < ev.pci.len(),
        spec_normalize_device(ev.pci[i]) is Err,
    ensures
        warning_models(r.warnings@).contains(spec_normalize_device(ev.pci[i])->Err_0),
{
    let w = spec_normalize_device(ev.pci[i])->Err_0;
    lemma_rejection_contains(ev.pci, i);
    let k = choose|k: int| 0 <= k < rejection_warnings(ev.pci).len() && rejection_warnings(ev.pci)[k] == w;
    assert((ws + rejection_warnings(ev.pci))[ws.len() + k] == w);
    assert((ws + rejection_warnings(ev.pci)).to_set().contains(w));
    assert(warning_models(r.warnings@).to_set().contains(w));
}

/// A device of the evidence whose class identifier is plainly malformed is
/// dropped with the warning `pci.<bus>`: "ignored device with malformed
/// class_id"; one with a normal class whose vendor identifier is plainly
/// malformed, with "... vendor_id"; one with normal class and vendor whose
/// device identifier is plainly malformed, with "... device_id"; and one
/// with three normal identifiers and a blank bus address, with the source
/// `pci.<empty>` and "... bus_id".
pub proof fn law_dropped_device_names_its_field(
    ev: EvidenceModel,
    ws: Seq<WarningModel>,
    r: DetectionReport,
    i: int,
)
    requires
        is_report_of(ev, ws, r),
        0 <= i < ev.pci.len(),
    ensures
        plainly_malformed(ev.pci[i].class_id, true) ==> warning_models(r.warnings@).contains(
            dropped(ev.pci[i].bus_id, "class_id"@),
        ),
        normal_id(ev.pci[i].class_id) && plainly_malformed(ev.pci[i].vendor_id, false)
            ==> warning_models(r.warnings@).contains(dropped(ev.pci[i].bus_id, "vendor_id"@)),
        normal_id(ev.pci[i].class_id) && normal_id(ev.pci[i].vendor_id) && plainly_malformed(
            ev.pci[i].device_id,
            false,
        ) ==> warning_models(r.warnings@).contains(dropped(ev.pci[i].bus_id, "device_id"@)),
        normal_id(ev.pci[i].class_id) && normal_id(ev.pci[i].vendor_id) && normal_id(
            ev.pci[i].device_id,
        ) && trim(ev.pci[i].bus_id).len() == 0 ==> warning_models(r.warnings@).contains(
            dropped("<empty>"@, "bus_id"@),
        ),
{
    let d = ev.pci[i];
    if plainly_malformed(d.class_id, true) {
        lemma_plainly_malformed_rejected(d.class_id, true);
        lemma_report_has_rejection(ev, ws, r, i);
    }
    if normal_id(d.class_id) {
        lemma_normal_id_accepted(d.class_id, true);
        if plainly_malformed(d.vendor_id, false) {
            lemma_plainly_malformed_rejected(d.vendor_id, false);
            lemma_report_has_rejection(ev, ws, r, i);
        }
        if normal_id(d.vendor_id) {
            lemma_normal_id_accepted(d.vendor_id, false);
            if plainly_malformed(d.device_id, false) {
                lemma_plainly_malformed_rejected(d.device_id, false);
                lemma_report_has_rejection(ev, ws, r, i);
            }
            if normal_id(d.device_id) && trim(d.bus_id).len() == 0 {
                lemma_normal_id_accepted(d.device_id, false);
                lemma_report_has_rejection(ev, ws, r, i);
            }
        }
    }
}

} // verus!
