//! What collecting is for, stated over what was read: the DMI fields are
//! the files' trimmed contents, every PCI directory entry gives a device or
//! a warning, and a `/proc/cpuinfo` line `name: value` sets its field.
use vstd::prelude::*;

use crate::collect::{
    cpu_field, entry_devices, entry_warnings, find_char, spec_collect, PciEntry, Readings,
};
use crate::text::trim;
use crate::{PciModel, WarningModel};

verus! {

/// Each DMI field is the trimmed text of its file when that is not blank,
/// and missing when the file is blank or could not be read.
pub proof fn law_dmi_fields_are_trimmed_contents(r: Readings)
    ensures
        (match r.sys_vendor {
            Ok(x) => if trim(x@).len() > 0 {
                spec_collect(r).0.dmi.system_vendor == Some(trim(x@))
            } else {
                spec_collect(r).0.dmi.system_vendor is None
            },
            Err(_) => spec_collect(r).0.dmi.system_vendor is None,
        }),
        (match r.product_name {
            Ok(x) => if trim(x@).len() > 0 {
                spec_collect(r).0.dmi.product_name == Some(trim(x@))
            } else {
                spec_collect(r).0.dmi.product_name is None
            },
            Err(_) => spec_collect(r).0.dmi.product_name is None,
        }),
        (match r.chassis_type {
            Ok(x) => if trim(x@).len() > 0 {
                spec_collect(r).0.dmi.chassis_type == Some(trim(x@))
            } else {
                spec_collect(r).0.dmi.chassis_type is None
            },
            Err(_) => spec_collect(r).0.dmi.chassis_type is None,
        }),
{
}

/// The device that a directory entry gives: one whose three identity files
/// were read, with its bus address and their trimmed texts.
pub open spec fn device_of_entry(e: PciEntry) -> Option<PciModel> {
    match e {
        PciEntry::Device(d) => match (d.class, d.vendor, d.device) {
            (Ok(c), Ok(v), Ok(x)) => Some(
                PciModel { bus_id: d.bus_id@, class_id: trim(c@), vendor_id: trim(v@), device_id: trim(x@) },
            ),
            _ => None,
        },
        PciEntry::Unreadable(_) => None,
    }
}

/// Every directory entry gives a device or exactly one warning; an entry
/// whose identity files were all read gives its device, with the trimmed
/// texts; an entry of a device with an unreadable file gives the warning
/// `pci.<bus>`: "ignored device with unreadable identity evidence"; and an
/// entry that could not be read gives `pci`: "evidence unavailable: " and
/// the error.
pub proof fn law_each_entry_gives_device_or_warning(es: Seq<PciEntry>)
    ensures
        entry_devices(es).len() + entry_warnings(es).len() == es.len(),
        forall|i: int|
            0 <= i < es.len() && #[trigger] device_of_entry(es[i]) is Some ==> entry_devices(
                es,
            ).contains(device_of_entry(es[i])->0),
        forall|i: int|
            0 <= i < es.len() && (#[trigger] es[i] matches PciEntry::Device(d) && device_of_entry(
                es[i],
            ) is None) ==> entry_warnings(es).contains(
                WarningModel {
                    source: "pci."@ + es[i]->Device_0.bus_id@,
                    message: "ignored device with unreadable identity evidence"@,
                },
            ),
        forall|i: int|
            0 <= i < es.len() && (#[trigger] es[i] matches PciEntry::Unreadable(e)) ==> entry_warnings(
                es,
            ).contains(
                WarningModel {
                    source: "pci"@,
                    message: "evidence unavailable: "@ + es[i]->Unreadable_0@,
                },
            ),
    decreases es.len(),
{
    if es.len() > 0 {
        let t = es.drop_last();
        law_each_entry_gives_device_or_warning(t);
        let ds = entry_devices(es);
        let ws = entry_warnings(es);
        assert forall|i: int|
            0 <= i < es.len() && #[trigger] device_of_entry(es[i]) is Some implies ds.contains(
                device_of_entry(es[i])->0,
            ) by {
            if i < t.len() {
                assert(es[i] == t[i]);
                assert(device_of_entry(t[i]) is Some);
                let k = choose|k: int|
                    0 <= k < entry_devices(t).len() && entry_devices(t)[k] == device_of_entry(t[i])->0;
                assert(ds[k] == entry_devices(t)[k]);
            } else {
                assert(es[i] == es.last());
                assert(ds[ds.len() - 1] == device_of_entry(es[i])->0);
            }
        }
        assert forall|i: int|
            0 <= i < es.len() && (#[trigger] es[i] matches PciEntry::Device(d) && device_of_entry(
                es[i],
            ) is None) implies ws.contains(
            WarningModel {
                source: "pci."@ + es[i]->Device_0.bus_id@,
                message: "ignored device with unreadable identity evidence"@,
            },
        ) by {
            let w = WarningModel {
                source: "pci."@ + es[i]->Device_0.bus_id@,
                message: "ignored device with unreadable identity evidence"@,
            };
            if i < t.len() {
                assert(es[i] == t[i]);
                assert(t[i] matches PciEntry::Device(d) && device_of_entry(t[i]) is None);
                let k = choose|k: int| 0 <= k < entry_warnings(t).len() && entry_warnings(t)[k] == w;
                assert(ws[k] == entry_warnings(t)[k]);
            } else {
                assert(es[i] == es.last());
                assert(ws[ws.len() - 1] == w);
            }
        }
        assert forall|i: int|
            0 <= i < es.len() && (#[trigger] es[i] matches PciEntry::Unreadable(e)) implies ws.contains(
            WarningModel { source: "pci"@, message: "evidence unavailable: "@ + es[i]->Unreadable_0@ },
        ) by {
            let w = WarningModel {
                source: "pci"@,
                message: "evidence unavailable: "@ + es[i]->Unreadable_0@,
            };
            if i < t.len() {
                assert(es[i] == t[i]);
                assert(t[i] matches PciEntry::Unreadable(e));
                let k = choose|k: int| 0 <= k < entry_warnings(t).len() && entry_warnings(t)[k] == w;
                assert(ws[k] == entry_warnings(t)[k]);
            } else {
                assert(es[i] == es.last());
                assert(ws[ws.len() - 1] == w);
            }
        }
    }
}

/// A line `name: value` of `/proc/cpuinfo` sets the field `name` to the
/// trimmed value, whatever lines follow it.
pub proof fn law_cpu_line_sets_field(name: Seq<char>, value: Seq<char>, rest: Seq<char>)
    requires
        trim(name) == name,
        forall|k: int| 0 <= k < name.len() ==> #[trigger] name[k] != ':' && name[k] != '\n',
        forall|k: int| 0 <= k < value.len() ==> #[trigger] value[k] != '\n',
    ensures
        cpu_field(name + ":"@ + value + "\n"@ + rest, name) == Some(trim(value)),
        cpu_field(name + ":"@ + value, name) == Some(trim(value)),
{
    reveal_strlit(":");
    reveal_strlit("\n");
    let line = name + ":"@ + value;
    lemma_find_first(line, ':', name.len() as int);
    assert(line.take(name.len() as int) =~= name);
    assert(line.skip(name.len() + 1int) =~= value);
    let s = line + "\n"@ + rest;
    lemma_find_first(s, '\n', line.len() as int);
    assert(s.take(line.len() as int) =~= line);
    lemma_find_first(line, '\n', line.len() as int);
    assert(line.take(line.len() as int) =~= line);
}

/// A line of `/proc/cpuinfo` whose key (trimmed, up to its first colon) is
/// not `name`, or that has no colon, does not set the field `name`: the
/// field is what the lines after it set.
pub proof fn law_cpu_other_line_skipped(line: Seq<char>, rest: Seq<char>, name: Seq<char>)
    requires
        forall|k: int| 0 <= k < line.len() ==> #[trigger] line[k] != '\n',
        forall|k: int|
            0 <= k < line.len() && #[trigger] line[k] == ':' ==> trim(line.take(k)) != name
                || exists|m: int| 0 <= m < k && line[m] == ':',
    ensures
        cpu_field(line + "\n"@ + rest, name) == cpu_field(rest, name),
{
    reveal_strlit("\n");
    let s = line + "\n"@ + rest;
    lemma_find_first(s, '\n', line.len() as int);
    assert(s.take(line.len() as int) =~= line);
    assert(s.skip(line.len() + 1int) =~= rest);
    let c = find_char(line, ':');
    lemma_find_char_bound(line, ':');
    if c < line.len() {
        assert(line[c as int] == ':');
        if exists|m: int| 0 <= m < c && line[m] == ':' {
            let m = choose|m: int| 0 <= m < c && line[m] == ':';
            lemma_find_char_first(line, ':', m);
        }
    }
}

proof fn lemma_find_char_bound(s: Seq<char>, c: char)
    ensures
        find_char(s, c) <= s.len(),
        find_char(s, c) < s.len() ==> s[find_char(s, c) as int] == c,
    decreases s.len(),
{
    if s.len() > 0 && s[0] != c {
        lemma_find_char_bound(s.drop_first(), c);
        if find_char(s, c) < s.len() {
            assert(s[find_char(s, c) as int] == s.drop_first()[find_char(s.drop_first(), c) as int]);
        }
    }
}

proof fn lemma_find_char_first(s: Seq<char>, c: char, m: int)
    requires
        0 <= m < s.len(),
        s[m] == c,
    ensures
        find_char(s, c) <= m,
    decreases m,
{
    if m > 0 && s[0] != c {
        assert(s.drop_first()[m - 1] == c);
        lemma_find_char_first(s.drop_first(), c, m - 1);
    }
}

/// `find_char` gives the first position of `c`, or the length.
proof fn lemma_find_first(s: Seq<char>, c: char, i: int)
    requires
        0 <= i <= s.len(),
        forall|k: int| 0 <= k < i ==> #[trigger] s[k] != c,
        i == s.len() || s[i] == c,
    ensures
        find_char(s, c) == i,
    decreases i,
{
    if i > 0 {
        assert forall|k: int| 0 <= k < i - 1 implies #[trigger] s.drop_first()[k] != c by {
            assert(s.drop_first()[k] == s[k + 1]);
        }
        if i < s.len() {
            assert(s.drop_first()[i - 1] == s[i]);
        }
        lemma_find_first(s.drop_first(), c, i - 1);
    }
}

} // verus!
