use linxira_chwd_detector::collect::{cpuinfo_field, infer_virtualization, io_warning};
use linxira_chwd_detector::normalize::{normalize_device, normalize_hex};
use linxira_chwd_detector::{
    collect, collect_and_detect, detect, unique_graphics_vendors, CpuEvidence, DmiEvidence,
    Evidence, PciDevice, PciEntry, PciReading, Readings, Warning, DETECTOR_NAME,
    DETECTOR_VERSION, UPSTREAM_CHWD_VERSION,
};

fn dev(bus_id: &str, class_id: &str, vendor_id: &str, device_id: &str) -> PciDevice {
    PciDevice {
        bus_id: bus_id.to_string(),
        class_id: class_id.to_string(),
        vendor_id: vendor_id.to_string(),
        device_id: device_id.to_string(),
    }
}

fn warning(source: &str, message: &str) -> Warning {
    Warning { source: source.to_string(), message: message.to_string() }
}

fn dmi(vendor: Option<&str>, product: Option<&str>) -> DmiEvidence {
    DmiEvidence {
        system_vendor: vendor.map(str::to_string),
        product_name: product.map(str::to_string),
        chassis_type: None,
    }
}

const ALL_STABLE_IDS: &[&str] = &[
    "cpu.amd",
    "cpu.intel",
    "graphics.amd",
    "graphics.intel",
    "graphics.nvidia",
    "graphics.hybrid",
    "vm.hyperv",
    "vm.qemu",
    "vm.virtualbox",
    "vm.vmware",
    "vm.xen",
];

// ----------------------------------------------------------------------------
// Normalisation
// ----------------------------------------------------------------------------

#[test]
fn normalize_hex_trims_strips_and_lowercases() {
    assert_eq!(normalize_hex(" 0x030000\n", true), Some("0300".to_string()));
    assert_eq!(normalize_hex("0x0302", true), Some("0302".to_string()));
    assert_eq!(normalize_hex("0x10DE", false), Some("10de".to_string()));
    assert_eq!(normalize_hex("8086", false), Some("8086".to_string()));
    assert_eq!(normalize_hex("\t1aF4 ", false), Some("1af4".to_string()));
}

#[test]
fn normalize_hex_rejects_malformed_identifiers() {
    assert_eq!(normalize_hex("030000", false), None);
    assert_eq!(normalize_hex("0x03000", true), None);
    assert_eq!(normalize_hex("12g4", false), None);
    assert_eq!(normalize_hex("0X1234", false), None);
    assert_eq!(normalize_hex("0X1234", true), None);
    assert_eq!(normalize_hex("", false), None);
    assert_eq!(normalize_hex("0x", false), None);
    assert_eq!(normalize_hex("８０８６", false), None);
}

#[test]
fn normalize_device_reports_each_malformed_field() {
    let cases = [
        (dev("0000:00:02.0", "zz", "8086", "1234"), "pci.0000:00:02.0", "class_id"),
        (dev("0000:00:02.0", "0300", "80861", "1234"), "pci.0000:00:02.0", "vendor_id"),
        (dev("0000:00:02.0", "0300", "8086", "x"), "pci.0000:00:02.0", "device_id"),
        (dev("  ", "0300", "8086", "1234"), "pci.<empty>", "bus_id"),
    ];
    for (device, source, field) in cases {
        let mut warnings = Vec::new();
        assert_eq!(normalize_device(device, &mut warnings), None);
        assert_eq!(
            warnings,
            vec![warning(source, &format!("ignored device with malformed {field}"))]
        );
    }
    let mut warnings = Vec::new();
    let normal = normalize_device(dev("0000:00:02.0", "0x030000", "0x8086", "0x9A49"), &mut warnings);
    assert_eq!(normal, Some(dev("0000:00:02.0", "0300", "8086", "9a49")));
    assert!(warnings.is_empty());
}

// ----------------------------------------------------------------------------
// Detection
// ----------------------------------------------------------------------------

#[test]
fn report_metadata_is_fixed() {
    let report = detect(Evidence::default(), Vec::new());
    assert_eq!(report.schema_version, 1);
    assert_eq!(report.detector.name, "linxira-chwd-detector");
    assert_eq!(report.detector.name, DETECTOR_NAME);
    assert_eq!(report.detector.version, DETECTOR_VERSION);
    assert_eq!(report.detector.upstream_chwd, "1.23.0");
    assert_eq!(report.detector.upstream_chwd, UPSTREAM_CHWD_VERSION);
}

#[test]
fn devices_are_sorted_stably_by_bus_address() {
    let evidence = Evidence {
        pci: vec![
            dev("0000:02:00.0", "0x020000", "0x8086", "0x15f3"),
            dev("0000:00:1f.3", "0x040300", "0x8086", "0x51c8"),
            dev("0000:00:02.0", "0x030000", "0x8086", "0x46a6"),
            dev("0000:00:1f.3", "0x040300", "0x8086", "0x0001"),
        ],
        ..Evidence::default()
    };
    let report = detect(evidence, Vec::new());
    let order: Vec<(&str, &str)> = report
        .evidence
        .pci
        .iter()
        .map(|d| (d.bus_id.as_str(), d.device_id.as_str()))
        .collect();
    assert_eq!(
        order,
        vec![
            ("0000:00:02.0", "46a6"),
            ("0000:00:1f.3", "51c8"),
            ("0000:00:1f.3", "0001"),
            ("0000:02:00.0", "15f3"),
        ]
    );
}

#[test]
fn given_virtualization_is_lowercased() {
    let evidence = Evidence { virtualization: Some("KVM".to_string()), ..Evidence::default() };
    let report = detect(evidence, Vec::new());
    assert_eq!(report.evidence.virtualization.as_deref(), Some("kvm"));
    assert_eq!(report.profile_ids, vec!["vm.qemu"]);
}

#[test]
fn unknown_virtualization_gives_no_vm_profile() {
    let evidence = Evidence { virtualization: Some("lxc".to_string()), ..Evidence::default() };
    let report = detect(evidence, Vec::new());
    assert_eq!(report.evidence.virtualization.as_deref(), Some("lxc"));
    assert!(report.profile_ids.is_empty());
}

#[test]
fn inferred_virtualization_uses_normalized_devices() {
    let evidence = Evidence {
        pci: vec![dev("0000:00:02.0", "0x030000", "0x15AD", "0x0405")],
        ..Evidence::default()
    };
    let report = detect(evidence, Vec::new());
    assert_eq!(report.evidence.virtualization.as_deref(), Some("vmware"));
    assert_eq!(report.profile_ids, vec!["vm.vmware"]);
}

#[test]
fn virtualbox_adapter_matches_table_and_environment() {
    let evidence = Evidence {
        pci: vec![dev("0000:00:02.0", "0x030000", "0x80ee", "0xbeef")],
        dmi: dmi(Some("innotek GmbH"), Some("VirtualBox")),
        cpu: CpuEvidence { vendor: Some("AuthenticAMD".to_string()), family: None, model: None },
        virtualization: None,
    };
    let report = detect(evidence, Vec::new());
    assert_eq!(report.evidence.virtualization.as_deref(), Some("oracle"));
    assert_eq!(report.profile_ids, vec!["cpu.amd", "vm.virtualbox"]);
}

#[test]
fn warnings_are_sorted_and_deduplicated() {
    let given = vec![
        warning("pci", "evidence unavailable: b"),
        warning("cpu", "evidence unavailable: a"),
        warning("pci", "evidence unavailable: b"),
        warning("pci", "evidence unavailable: a"),
    ];
    let evidence = Evidence {
        pci: vec![dev("0000:00:03.0", "bad", "8086", "1234")],
        ..Evidence::default()
    };
    let report = detect(evidence, given);
    assert_eq!(
        report.warnings,
        vec![
            warning("cpu", "evidence unavailable: a"),
            warning("pci", "evidence unavailable: a"),
            warning("pci", "evidence unavailable: b"),
            warning("pci.0000:00:03.0", "ignored device with malformed class_id"),
        ]
    );
}

#[test]
fn profile_ids_are_sorted_and_distinct() {
    let evidence = Evidence {
        pci: vec![
            dev("0000:00:02.0", "0300", "1234", "1111"),
            dev("0000:00:03.0", "0300", "1af4", "1050"),
        ],
        virtualization: Some("qemu".to_string()),
        ..Evidence::default()
    };
    let report = detect(evidence, Vec::new());
    // Two virtual display adapters of different vendors also count as hybrid graphics.
    assert_eq!(report.profile_ids, vec!["graphics.hybrid", "vm.qemu"]);
}

#[test]
fn cpu_profile_ignores_vendor_case() {
    for (vendor, expected) in [
        ("genuineintel", vec!["cpu.intel"]),
        ("AUTHENTICAMD", vec!["cpu.amd"]),
        ("HygonGenuine", vec![]),
    ] {
        let evidence = Evidence {
            cpu: CpuEvidence { vendor: Some(vendor.to_string()), family: None, model: None },
            ..Evidence::default()
        };
        let report = detect(evidence, Vec::new());
        assert_eq!(report.profile_ids, expected);
    }
}

#[test]
fn unique_graphics_vendors_are_sorted_and_distinct() {
    let evidence = Evidence {
        pci: vec![
            dev("a", "0300", "8086", "0001"),
            dev("b", "0380", "10de", "0002"),
            dev("c", "0302", "8086", "0003"),
            dev("d", "0200", "1002", "0004"),
        ],
        ..Evidence::default()
    };
    assert_eq!(unique_graphics_vendors(&evidence), vec!["10de".to_string(), "8086".to_string()]);
    assert!(unique_graphics_vendors(&Evidence::default()).is_empty());
}

// ----------------------------------------------------------------------------
// Laws on concrete values
// ----------------------------------------------------------------------------

#[test]
fn hybrid_needs_two_graphics_vendors() {
    let one_vendor = Evidence {
        pci: vec![dev("0000:00:02.0", "0300", "8086", "0001"), dev("0000:00:03.0", "0380", "8086", "0002")],
        ..Evidence::default()
    };
    assert_eq!(detect(one_vendor, Vec::new()).profile_ids, vec!["graphics.intel"]);
    let two_vendors = Evidence {
        pci: vec![dev("0000:00:02.0", "0300", "8086", "0001"), dev("0000:01:00.0", "0302", "1002", "0002")],
        ..Evidence::default()
    };
    assert_eq!(
        detect(two_vendors, Vec::new()).profile_ids,
        vec!["graphics.amd", "graphics.hybrid", "graphics.intel"]
    );
}

#[test]
fn every_emitted_profile_id_is_stable() {
    let evidence = Evidence {
        pci: vec![
            dev("0000:00:02.0", "0300", "8086", "0001"),
            dev("0000:01:00.0", "0300", "10de", "0002"),
            dev("0000:02:00.0", "0300", "1002", "0003"),
            dev("0000:03:00.0", "0300", "15ad", "0004"),
        ],
        cpu: CpuEvidence { vendor: Some("GenuineIntel".to_string()), family: None, model: None },
        virtualization: Some("xen".to_string()),
        ..Evidence::default()
    };
    let report = detect(evidence, Vec::new());
    assert_eq!(
        report.profile_ids,
        vec!["cpu.intel", "graphics.amd", "graphics.hybrid", "graphics.intel", "graphics.nvidia", "vm.xen"]
    );
    for id in &report.profile_ids {
        assert!(ALL_STABLE_IDS.contains(&id.as_str()));
    }
}

#[test]
fn detect_is_idempotent() {
    let evidence = Evidence {
        pci: vec![
            dev("0000:01:00.0", " 0x030200\n", "0x10DE", "0x25A2"),
            dev("0000:00:02.0", "0x030000", "0x8086", "0x46a6"),
            dev("", "0x030000", "0x8086", "0x46a6"),
        ],
        dmi: dmi(Some("QEMU"), None),
        cpu: CpuEvidence::default(),
        virtualization: None,
    };
    let first = detect(evidence, vec![warning("cpu", "evidence unavailable: x")]);
    let second = detect(first.evidence.clone(), first.warnings.clone());
    assert_eq!(first, second);
    assert_eq!(first.evidence.virtualization.as_deref(), Some("kvm"));
}

#[test]
fn detect_is_deterministic() {
    let evidence = Evidence {
        pci: vec![dev("b", "0300", "8086", "0001"), dev("a", "0300", "10de", "0002")],
        ..Evidence::default()
    };
    assert_eq!(detect(evidence.clone(), Vec::new()), detect(evidence, Vec::new()));
}

// ----------------------------------------------------------------------------
// Virtualization inference
// ----------------------------------------------------------------------------

#[test]
fn infers_virtualization_from_dmi() {
    let cases = [
        (dmi(Some("VMware, Inc."), Some("VMware Virtual Platform")), Some("vmware")),
        (dmi(Some("innotek GmbH"), Some("VirtualBox")), Some("oracle")),
        (dmi(Some("QEMU"), Some("Standard PC")), Some("kvm")),
        (dmi(Some("Red Hat"), Some("KVM")), Some("kvm")),
        (dmi(None, Some("Bochs")), Some("kvm")),
        (dmi(Some("Microsoft Corporation"), Some("Virtual Machine")), Some("microsoft")),
        (dmi(Some("Microsoft Hyper-V"), None), Some("microsoft")),
        (dmi(Some("Xen"), Some("HVM domU")), Some("xen")),
        (dmi(Some("virtual"), Some("machine")), Some("microsoft")),
        (dmi(Some("Dell Inc."), Some("XPS 13")), None),
        (dmi(None, None), None),
    ];
    for (evidence, expected) in cases {
        assert_eq!(infer_virtualization(&evidence, &Vec::new()).as_deref(), expected);
    }
}

#[test]
fn infers_virtualization_from_pci_vendors() {
    let none = dmi(None, None);
    let cases = [
        ("80EE", Some("oracle")),
        ("15ad", Some("vmware")),
        ("1AF4", Some("kvm")),
        ("1b36", Some("kvm")),
        ("1234", Some("kvm")),
        ("8086", None),
    ];
    for (vendor, expected) in cases {
        let pci = vec![dev("0000:00:01.0", "0200", vendor, "0001")];
        assert_eq!(infer_virtualization(&none, &pci).as_deref(), expected);
    }
    let dmi_first = dmi(Some("Xen"), None);
    let pci = vec![dev("0000:00:01.0", "0300", "80ee", "0001")];
    assert_eq!(infer_virtualization(&dmi_first, &pci).as_deref(), Some("xen"));
}

// ----------------------------------------------------------------------------
// Collection
// ----------------------------------------------------------------------------

const CPUINFO: &str = "processor\t: 0\nvendor_id\t: GenuineIntel\ncpu family\t: 6\nmodel\t\t: 154\nmodel name\t: 12th Gen Intel(R) Core(TM) i7-1260P\n\nprocessor\t: 1\nvendor_id\t: AuthenticAMD\n";

#[test]
fn cpuinfo_fields_are_the_first_matching_lines() {
    assert_eq!(cpuinfo_field(CPUINFO, "vendor_id").as_deref(), Some("GenuineIntel"));
    assert_eq!(cpuinfo_field(CPUINFO, "cpu family").as_deref(), Some("6"));
    assert_eq!(cpuinfo_field(CPUINFO, "model").as_deref(), Some("154"));
    assert_eq!(cpuinfo_field(CPUINFO, "flags"), None);
    assert_eq!(cpuinfo_field("", "model"), None);
    assert_eq!(cpuinfo_field("model\r\nmodel : 7\r\n", "model").as_deref(), Some("7"));
    assert_eq!(cpuinfo_field("  model :  a: b  ", "model").as_deref(), Some("a: b"));
}

fn ok(text: &str) -> Result<String, String> {
    Ok(text.to_string())
}

fn err(text: &str) -> Result<String, String> {
    Err(text.to_string())
}

#[test]
fn unreadable_evidence_gives_empty_values_and_warnings() {
    let readings = Readings {
        pci: Err("No such file or directory (os error 2)".to_string()),
        sys_vendor: err("Permission denied (os error 13)"),
        product_name: ok("  \n"),
        chassis_type: err("No such file or directory (os error 2)"),
        cpuinfo: err("No such file or directory (os error 2)"),
    };
    let (evidence, warnings) = collect(&readings);
    assert_eq!(evidence, Evidence::default());
    assert_eq!(
        warnings,
        vec![
            warning("pci", "evidence unavailable: No such file or directory (os error 2)"),
            warning("dmi.system_vendor", "evidence unavailable: Permission denied (os error 13)"),
            warning("dmi.product_name", "evidence was empty"),
            warning("dmi.chassis_type", "evidence unavailable: No such file or directory (os error 2)"),
            warning("cpu", "evidence unavailable: No such file or directory (os error 2)"),
            warning("virtualization", "could not infer VM type because DMI evidence is unavailable"),
        ]
    );
}

#[test]
fn readable_evidence_is_collected_and_trimmed() {
    let readings = Readings {
        pci: Ok(vec![
            PciEntry::Device(PciReading {
                bus_id: "0000:00:02.0".to_string(),
                class: ok("0x030000\n"),
                vendor: ok("0x8086\n"),
                device: ok("0x46a6\n"),
            }),
            PciEntry::Device(PciReading {
                bus_id: "0000:00:1f.0".to_string(),
                class: ok("0x060100\n"),
                vendor: err("Permission denied (os error 13)"),
                device: ok("0x7a84\n"),
            }),
            PciEntry::Unreadable("Input/output error (os error 5)".to_string()),
        ]),
        sys_vendor: ok("LENOVO\n"),
        product_name: ok("21AH\n"),
        chassis_type: ok("10\n"),
        cpuinfo: ok(CPUINFO),
    };
    let (evidence, warnings) = collect(&readings);
    assert_eq!(evidence.pci, vec![dev("0000:00:02.0", "0x030000", "0x8086", "0x46a6")]);
    assert_eq!(evidence.dmi.system_vendor.as_deref(), Some("LENOVO"));
    assert_eq!(evidence.dmi.product_name.as_deref(), Some("21AH"));
    assert_eq!(evidence.dmi.chassis_type.as_deref(), Some("10"));
    assert_eq!(evidence.cpu.vendor.as_deref(), Some("GenuineIntel"));
    assert_eq!(evidence.virtualization, None);
    assert_eq!(
        warnings,
        vec![
            warning("pci.0000:00:1f.0", "ignored device with unreadable identity evidence"),
            warning("pci", "evidence unavailable: Input/output error (os error 5)"),
        ]
    );

    let report = collect_and_detect(&readings);
    assert_eq!(report.profile_ids, vec!["cpu.intel", "graphics.intel"]);
    assert_eq!(report.evidence.pci, vec![dev("0000:00:02.0", "0300", "8086", "46a6")]);
    assert_eq!(report.warnings.len(), 2);
    assert_eq!(report.warnings[0].source, "pci");
}

#[test]
fn io_warning_names_the_error() {
    assert_eq!(
        io_warning("cpu", "Permission denied (os error 13)"),
        warning("cpu", "evidence unavailable: Permission denied (os error 13)")
    );
}

#[test]
fn each_device_is_kept_or_warned() {
    let evidence = Evidence {
        pci: vec![
            dev("0000:00:02.0", "0x030000", "0x8086", "0x46a6"),
            dev("0000:00:03.0", "0x0300", "0x8086", "0x46a"),
            dev("0000:00:04.0", "0x0c0330", "0x8086", "0x51ed"),
        ],
        ..Evidence::default()
    };
    let report = detect(evidence, Vec::new());
    assert_eq!(report.evidence.pci.len(), 2);
    assert_eq!(
        report.warnings,
        vec![warning("pci.0000:00:03.0", "ignored device with malformed device_id")]
    );
}

#[test]
fn cpuinfo_without_a_field_is_warned() {
    let readings = Readings {
        pci: Ok(Vec::new()),
        sys_vendor: ok("QEMU"),
        product_name: ok("Standard PC (i440FX + PIIX, 1996)"),
        chassis_type: ok("1"),
        cpuinfo: ok("processor\t: 0\nvendor_id\t: GenuineIntel\n"),
    };
    let (evidence, warnings) = collect(&readings);
    assert_eq!(evidence.cpu.vendor.as_deref(), Some("GenuineIntel"));
    assert_eq!(evidence.cpu.family, None);
    assert_eq!(evidence.cpu.model, None);
    assert_eq!(
        warnings,
        vec![warning("cpu", "evidence has no cpu family"), warning("cpu", "evidence has no model")]
    );

    let empty = Readings { cpuinfo: ok(""), ..readings };
    let (evidence, warnings) = collect(&empty);
    assert_eq!(evidence.cpu, CpuEvidence::default());
    assert_eq!(
        warnings,
        vec![
            warning("cpu", "evidence has no vendor_id"),
            warning("cpu", "evidence has no cpu family"),
            warning("cpu", "evidence has no model"),
        ]
    );
}

#[test]
fn report_ignores_input_order() {
    let devices = vec![
        dev("0000:01:00.0", "0x030200", "0x10de", "0x25a2"),
        dev("0000:00:02.0", "0x030000", "0x8086", "0x46a6"),
        dev("0000:00:1f.3", "0x0403", "0x8086", "0x51c8"),
        dev("0000:00:05.0", "bad", "0x8086", "0x0001"),
    ];
    let given = vec![warning("cpu", "evidence has no model"), warning("pci", "evidence unavailable: x")];
    let mut reversed_devices = devices.clone();
    reversed_devices.reverse();
    let mut reversed_given = given.clone();
    reversed_given.reverse();
    let first = detect(Evidence { pci: devices, ..Evidence::default() }, given);
    let second = detect(Evidence { pci: reversed_devices, ..Evidence::default() }, reversed_given);
    assert_eq!(first, second);
    assert_eq!(first.profile_ids, vec!["graphics.hybrid", "graphics.intel", "graphics.nvidia"]);
}

#[test]
fn normalize_hex_maps_its_output_to_itself() {
    for (raw, class_id) in [(" 0x030000\n", true), ("0x10DE", false), ("0302", true)] {
        let once = normalize_hex(raw, class_id).unwrap();
        assert_eq!(normalize_hex(&once, class_id), Some(once.clone()));
    }
}
