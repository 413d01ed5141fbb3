//! Normalisation of PCI identity evidence: hexadecimal identifiers are
//! trimmed, stripped of `0x`, checked and lower-cased; a device with a
//! malformed field is dropped with a warning.
use vstd::prelude::*;

use crate::order::reversed;
use crate::text::{
    all_hex, all_hex_digits, chars_of, concat, lower, lowercase_range, string_from, trim,
    trim_bounds, trimmed,
};
use crate::{pci_models, warning_models, PciDevice, PciModel, Warning, WarningModel};

verus! {

// ---------------------------------------------------------------------------
// Specification
// ---------------------------------------------------------------------------

/// `t` without a leading `0x` (`str::strip_prefix("0x")`).
pub open spec fn strip_0x(t: Seq<char>) -> Seq<char> {
    if t.len() >= 2 && t[0] == '0' && t[1] == 'x' {
        t.skip(2)
    } else {
        t
    }
}

/// A hexadecimal identifier in normal form: four lower-case hex digits
/// (a class identifier is cut to its class and subclass bytes), or `None`
/// when the evidence is malformed.
pub open spec fn spec_normalize_hex(value: Seq<char>, class_id: bool) -> Option<Seq<char>> {
    let v = strip_0x(trim(value));
    if (v.len() == 4 || (class_id && v.len() == 6)) && all_hex(v) {
        Some(
            if class_id {
                lower(v).take(4)
            } else {
                lower(v)
            },
        )
    } else {
        None
    }
}

/// The warning for a device dropped because of a malformed `field`.
pub open spec fn malformed_warning(bus_id: Seq<char>, field: Seq<char>) -> WarningModel {
    WarningModel {
        source: "pci."@ + bus_id,
        message: "ignored device with malformed "@ + field,
    }
}

/// A device in normal form, or the warning under which it is dropped.
/// The fields are checked in the order class, vendor, device, bus address.
pub open spec fn spec_normalize_device(d: PciModel) -> Result<PciModel, WarningModel> {
    match spec_normalize_hex(d.class_id, true) {
        None => Err(malformed_warning(d.bus_id, "class_id"@)),
        Some(class_id) => match spec_normalize_hex(d.vendor_id, false) {
            None => Err(malformed_warning(d.bus_id, "vendor_id"@)),
            Some(vendor_id) => match spec_normalize_hex(d.device_id, false) {
                None => Err(malformed_warning(d.bus_id, "device_id"@)),
                Some(device_id) => if trim(d.bus_id).len() == 0 {
                    Err(malformed_warning("<empty>"@, "bus_id"@))
                } else {
                    Ok(PciModel { bus_id: d.bus_id, class_id, vendor_id, device_id })
                },
            },
        },
    }
}

/// The devices of `s` that are kept, in normal form and in order.
pub open spec fn kept_devices(s: Seq<PciModel>) -> Seq<PciModel>
    decreases s.len(),
{
    if s.len() == 0 {
        Seq::empty()
    } else {
        match spec_normalize_device(s.last()) {
            Ok(d) => kept_devices(s.drop_last()).push(d),
            Err(_) => kept_devices(s.drop_last()),
        }
    }
}

/// The warnings for the devices of `s` that are dropped, in order.
pub open spec fn rejection_warnings(s: Seq<PciModel>) -> Seq<WarningModel>
    decreases s.len(),
{
    if s.len() == 0 {
        Seq::empty()
    } else {
        match spec_normalize_device(s.last()) {
            Ok(_) => rejection_warnings(s.drop_last()),
            Err(w) => rejection_warnings(s.drop_last()).push(w),
        }
    }
}

// ---------------------------------------------------------------------------
// Executable functions
// ---------------------------------------------------------------------------

/// Normal form of a hexadecimal identifier, `None` when it is malformed.
pub fn normalize_hex(value: &str, class_id: bool) -> (r: Option<String>)
    ensures
        r.deep_view() == spec_normalize_hex(value@, class_id),
{
    let v = chars_of(value);
    let (i, j) = trim_bounds(v.as_slice());
    let ghost t = v@.subrange(i as int, j as int);
    let mut start = i;
    if j - i >= 2 && v[i] == '0' && v[i + 1] == 'x' {
        start = i + 2;
        proof {
            assert(t.skip(2) =~= v@.subrange(start as int, j as int));
        }
    }
    let ghost s = v@.subrange(start as int, j as int);
    assert(strip_0x(trim(value@)) == s);
    let len = j - start;
    if !((len == 4 || (class_id && len == 6)) && all_hex_digits(v.as_slice(), start, j)) {
        return None;
    }
    let end = if class_id {
        start + 4
    } else {
        j
    };
    let l = lowercase_range(v.as_slice(), start, end);
    proof {
        if class_id {
            assert(lower(s).take(4) =~= lower(v@.subrange(start as int, end as int)));
        } else {
            assert(s =~= v@.subrange(start as int, end as int));
        }
    }
    Some(string_from(l.as_slice()))
}

/// Records that the device on `bus_id` was dropped for its malformed `field`.
pub fn malformed_device(bus_id: &str, field: &str, warnings: &mut Vec<Warning>) -> (r: Option<
    PciDevice,
>)
    ensures
        r is None,
        warning_models(final(warnings)@) == warning_models(old(warnings)@).push(
            malformed_warning(bus_id@, field@),
        ),
{
    let w = Warning {
        source: concat("pci.", bus_id),
        message: concat("ignored device with malformed ", field),
    };
    warnings.push(w);
    proof {
        assert(warning_models(final(warnings)@) =~= warning_models(old(warnings)@).push(
            malformed_warning(bus_id@, field@),
        ));
    }
    None
}

/// `device` in normal form, or `None` with a warning when a field is malformed.
pub fn normalize_device(device: PciDevice, warnings: &mut Vec<Warning>) -> (r: Option<PciDevice>)
    ensures
        match spec_normalize_device(device@) {
            Ok(d) => r matches Some(n) && n@ == d && warning_models(final(warnings)@)
                == warning_models(old(warnings)@),
            Err(w) => r is None && warning_models(final(warnings)@) == warning_models(
                old(warnings)@,
            ).push(w),
        },
{
    let class_id = match normalize_hex(device.class_id.as_str(), true) {
        Some(value) => value,
        None => return malformed_device(device.bus_id.as_str(), "class_id", warnings),
    };
    let vendor_id = match normalize_hex(device.vendor_id.as_str(), false) {
        Some(value) => value,
        None => return malformed_device(device.bus_id.as_str(), "vendor_id", warnings),
    };
    let device_id = match normalize_hex(device.device_id.as_str(), false) {
        Some(value) => value,
        None => return malformed_device(device.bus_id.as_str(), "device_id", warnings),
    };
    let bus = trimmed(device.bus_id.as_str());
    if bus.as_str().is_empty() {
        return malformed_device("<empty>", "bus_id", warnings);
    }
    Some(PciDevice { bus_id: device.bus_id, class_id, vendor_id, device_id })
}

/// The kept devices in normal form; a warning is appended for each dropped one.
pub fn normalize_devices(devices: Vec<PciDevice>, warnings: &mut Vec<Warning>) -> (r: Vec<
    PciDevice,
>)
    ensures
        pci_models(r@) == kept_devices(pci_models(devices@)),
        warning_models(final(warnings)@) == warning_models(old(warnings)@) + rejection_warnings(
            pci_models(devices@),
        ),
{
    let ghost input = devices@;
    let ghost start = warning_models(warnings@);
    let count = devices.len();
    assert(input.len() == count);
    let mut rest = reversed(devices);
    let mut kept: Vec<PciDevice> = Vec::new();
    let mut done: usize = 0;
    proof {
        assert(pci_models(input).take(0) =~= Seq::<PciModel>::empty());
        assert(start + rejection_warnings(pci_models(input).take(0)) =~= start);
    }
    while rest.len() > 0
        invariant
            done <= input.len() <= usize::MAX,
            rest@.len() == input.len() - done,
            rest@ == input.skip(done as int).reverse(),
            pci_models(kept@) == kept_devices(pci_models(input).take(done as int)),
            warning_models(warnings@) == start + rejection_warnings(
                pci_models(input).take(done as int),
            ),
        decreases rest@.len(),
    {
        let d = rest.pop().unwrap();
        proof {
            assert(d == input[done as int]);
            assert(pci_models(input).take(done + 1).drop_last() =~= pci_models(input).take(
                done as int,
            ));
            assert(input.skip(done + 1).reverse() =~= input.skip(done as int).reverse().drop_last());
        }
        let ghost before = kept@;
        match normalize_device(d, warnings) {
            Some(n) => {
                kept.push(n);
                proof {
                    assert(pci_models(kept@) =~= pci_models(before).push(n@));
                }
            },
            None => {},
        }
        proof {
            let w = rejection_warnings(pci_models(input).take(done as int));
            match spec_normalize_device(pci_models(input).take(done + 1).last()) {
                Ok(_) => {},
                Err(x) => {
                    assert(start + w.push(x) =~= (start + w).push(x));
                },
            }
        }
        done = done + 1;
    }
    proof {
        assert(pci_models(input).take(input.len() as int) =~= pci_models(input));
    }
    kept
}

} // verus!
