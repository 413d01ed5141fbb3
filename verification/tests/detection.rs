use linxira_chwd_detector::{
    collect, collect_and_detect, detect, unique_graphics_vendors, CpuEvidence, DetectionReport,
    DmiEvidence, Evidence, PciDevice, PciEntry, PciReading, Readings, Warning, SCHEMA_VERSION,
};

fn device(bus_id: &str, class_id: &str, vendor_id: &str, device_id: &str) -> PciDevice {
    PciDevice {
        bus_id: bus_id.to_string(),
        class_id: class_id.to_string(),
        vendor_id: vendor_id.to_string(),
        device_id: device_id.to_string(),
    }
}

fn cpu(vendor: &str) -> CpuEvidence {
    CpuEvidence { vendor: Some(vendor.to_string()), family: Some("6".to_string()), model: Some("154".to_string()) }
}

fn ids(report: &DetectionReport) -> Vec<&str> {
    report.profile_ids.iter().map(String::as_str).collect()
}

/// Evidence of typical machines and the profile IDs expected for them.
fn fixtures() -> Vec<(Evidence, Vec<&'static str>)> {
    vec![
        (
            Evidence {
                pci: vec![
                    device("0000:00:02.0", "0x030000", "0x8086", "0x9a49"),
                    device("0000:00:00.0", "0x060000", "0x8086", "0x9a14"),
                ],
                dmi: DmiEvidence {
                    system_vendor: Some("LENOVO".to_string()),
                    product_name: Some("20XW".to_string()),
                    chassis_type: Some("10".to_string()),
                },
                cpu: cpu("GenuineIntel"),
                virtualization: None,
            },
            vec!["cpu.intel", "graphics.intel"],
        ),
        (
            Evidence {
                pci: vec![device("0000:03:00.0", "0x030000", "0x1002", "0x73bf")],
                dmi: DmiEvidence {
                    system_vendor: Some("Micro-Star International Co., Ltd.".to_string()),
                    product_name: Some("MS-7C91".to_string()),
                    chassis_type: Some("3".to_string()),
                },
                cpu: cpu("AuthenticAMD"),
                virtualization: None,
            },
            vec!["cpu.amd", "graphics.amd"],
        ),
        (
            Evidence {
                pci: vec![device("0000:01:00.0", "0x030000", "0x10de", "0x2684")],
                dmi: DmiEvidence::default(),
                cpu: cpu("GenuineIntel"),
                virtualization: None,
            },
            vec!["cpu.intel", "graphics.nvidia"],
        ),
        (
            Evidence {
                pci: vec![
                    device("0000:01:00.0", "0x030200", "0x10de", "0x25a2"),
                    device("0000:00:02.0", "0x030000", "0x8086", "0x46a6"),
                ],
                dmi: DmiEvidence::default(),
                cpu: cpu("GenuineIntel"),
                virtualization: None,
            },
            vec!["cpu.intel", "graphics.hybrid", "graphics.intel", "graphics.nvidia"],
        ),
        (
            Evidence {
                pci: vec![device("0000:00:01.0", "0x030000", "0x1234", "0x1111")],
                dmi: DmiEvidence {
                    system_vendor: Some("QEMU".to_string()),
                    product_name: Some("Standard PC (Q35 + ICH9, 2009)".to_string()),
                    chassis_type: Some("1".to_string()),
                },
                cpu: CpuEvidence::default(),
                virtualization: None,
            },
            vec!["vm.qemu"],
        ),
    ]
}

#[test]
fn detects_expected_profiles_from_fixtures() {
    for (evidence, expected) in fixtures() {
        let report = detect(evidence.clone(), Vec::new());
        assert_eq!(report.schema_version, SCHEMA_VERSION);
        assert_eq!(ids(&report), expected);
        let again = detect(evidence, Vec::new());
        assert_eq!(report, again);
    }
}

#[test]
fn malformed_evidence_is_ignored_with_a_warning() {
    let evidence = Evidence {
        pci: vec![device("0000:00:02.0", "not-a-class", "0x8086", "0x9a49")],
        cpu: CpuEvidence::default(),
        ..Evidence::default()
    };
    let report = detect(evidence, Vec::new());

    assert!(report.profile_ids.is_empty());
    assert!(report.evidence.pci.is_empty());
    assert_eq!(report.warnings.len(), 1);
    assert_eq!(report.warnings[0].source, "pci.0000:00:02.0");
}

#[test]
fn missing_dmi_and_vm_evidence_does_not_panic() {
    let report = detect(Evidence::default(), Vec::new());
    assert!(report.evidence.dmi.product_name.is_none());
    assert!(report.evidence.virtualization.is_none());
    assert!(report.profile_ids.is_empty());
}

#[test]
fn emits_stable_hyperv_profile_without_a_virtual_gpu() {
    let evidence =
        Evidence { virtualization: Some("microsoft".to_string()), ..Evidence::default() };
    let report = detect(evidence, Vec::new());
    assert_eq!(report.profile_ids, vec!["vm.hyperv"]);
}
