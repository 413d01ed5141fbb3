//! Read-only hardware detection: normalises PCI, DMI and CPU evidence and
//! derives the stable profile IDs of the detected hardware classes.
//!
//! The evidence itself is read by the program around this library; the
//! library turns what was read into an `Evidence` value (`collect`) and a
//! deterministic `DetectionReport` (`detect`).
use vstd::prelude::*;

pub mod text;
pub mod order;
pub mod normalize;
pub mod matching;
pub mod collect;
pub mod detection;
pub mod laws;
pub mod invariance;
pub mod profile_laws;
pub mod environment_laws;
pub mod reading_laws;
pub mod warning_laws;
pub mod text_laws;
pub mod report_laws;

pub use collect::{collect, PciEntry, PciReading, Readings};
pub use detection::{collect_and_detect, detect};
pub use matching::unique_graphics_vendors;

verus! {

/// Version of the report's contract.
pub const SCHEMA_VERSION: u32 = 1;

/// The CHWD release whose hardware matching this detector follows.
pub const UPSTREAM_CHWD_VERSION: &'static str = "1.23.0";

/// Name under which the detector reports itself.
pub const DETECTOR_NAME: &'static str = "linxira-chwd-detector";

/// Version of this detector.
pub const DETECTOR_VERSION: &'static str = "0.1.0";

/// Everything the detector knows about the machine.
#[derive(Debug, Clone, Default, PartialEq, Eq)]
pub struct Evidence {
    pub pci: Vec<PciDevice>,
    pub dmi: DmiEvidence,
    pub cpu: CpuEvidence,
    pub virtualization: Option<String>,
}

/// Identity of one PCI function as the kernel exposes it.
#[derive(Debug, Clone, Default, PartialEq, Eq)]
pub struct PciDevice {
    pub bus_id: String,
    pub class_id: String,
    pub vendor_id: String,
    pub device_id: String,
}

/// Firmware (DMI) identity of the system.
#[derive(Debug, Clone, Default, PartialEq, Eq)]
pub struct DmiEvidence {
    pub system_vendor: Option<String>,
    pub product_name: Option<String>,
    pub chassis_type: Option<String>,
}

/// Identity of the processor.
#[derive(Debug, Clone, Default, PartialEq, Eq)]
pub struct CpuEvidence {
    pub vendor: Option<String>,
    pub family: Option<String>,
    pub model: Option<String>,
}

/// A structured note that some evidence was missing or ignored.
#[derive(Debug, Clone, PartialEq, Eq, PartialOrd, Ord)]
pub struct Warning {
    pub source: String,
    pub message: String,
}

/// Who produced a report.
#[derive(Debug, PartialEq, Eq)]
pub struct DetectorMetadata {
    pub name: &'static str,
    pub version: &'static str,
    pub upstream_chwd: &'static str,
}

/// The detector's output.
#[derive(Debug, PartialEq, Eq)]
pub struct DetectionReport {
    pub schema_version: u32,
    pub detector: DetectorMetadata,
    pub evidence: Evidence,
    pub profile_ids: Vec<String>,
    pub warnings: Vec<Warning>,
}

// ---------------------------------------------------------------------------
// Mathematical models
// ---------------------------------------------------------------------------

/// A PCI function, each field as a character sequence.
pub struct PciModel {
    pub bus_id: Seq<char>,
    pub class_id: Seq<char>,
    pub vendor_id: Seq<char>,
    pub device_id: Seq<char>,
}

pub struct DmiModel {
    pub system_vendor: Option<Seq<char>>,
    pub product_name: Option<Seq<char>>,
    pub chassis_type: Option<Seq<char>>,
}

pub struct CpuModel {
    pub vendor: Option<Seq<char>>,
    pub family: Option<Seq<char>>,
    pub model: Option<Seq<char>>,
}

pub struct EvidenceModel {
    pub pci: Seq<PciModel>,
    pub dmi: DmiModel,
    pub cpu: CpuModel,
    pub virtualization: Option<Seq<char>>,
}

pub struct WarningModel {
    pub source: Seq<char>,
    pub message: Seq<char>,
}

impl View for PciDevice {
    type V = PciModel;

    open spec fn view(&self) -> PciModel {
        PciModel {
            bus_id: self.bus_id@,
            class_id: self.class_id@,
            vendor_id: self.vendor_id@,
            device_id: self.device_id@,
        }
    }
}

impl View for DmiEvidence {
    type V = DmiModel;

    open spec fn view(&self) -> DmiModel {
        DmiModel {
            system_vendor: self.system_vendor.deep_view(),
            product_name: self.product_name.deep_view(),
            chassis_type: self.chassis_type.deep_view(),
        }
    }
}

impl View for CpuEvidence {
    type V = CpuModel;

    open spec fn view(&self) -> CpuModel {
        CpuModel {
            vendor: self.vendor.deep_view(),
            family: self.family.deep_view(),
            model: self.model.deep_view(),
        }
    }
}

impl View for Warning {
    type V = WarningModel;

    open spec fn view(&self) -> WarningModel {
        WarningModel { source: self.source@, message: self.message@ }
    }
}

/// The models of a sequence of PCI devices.
pub open spec fn pci_models(s: Seq<PciDevice>) -> Seq<PciModel> {
    s.map_values(|d: PciDevice| d@)
}

/// The models of a sequence of warnings.
pub open spec fn warning_models(s: Seq<Warning>) -> Seq<WarningModel> {
    s.map_values(|w: Warning| w@)
}

impl View for Evidence {
    type V = EvidenceModel;

    open spec fn view(&self) -> EvidenceModel {
        EvidenceModel {
            pci: pci_models(self.pci@),
            dmi: self.dmi@,
            cpu: self.cpu@,
            virtualization: self.virtualization.deep_view(),
        }
    }
}

} // verus!
