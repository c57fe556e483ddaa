//! Physical-disk inventory: one normalized record per attached disk.
//!
//! Each platform exposes disk metadata through a different native source
//! (a block-device listing tool, a storage profiler plus a per-disk detail
//! tool, or a management-instrumentation query). The providers here hold
//! the parsing, identity-reconciliation and normalization logic for each
//! source; the surrounding application performs the actual invocations and
//! hands their raw results in as plain values.

use vstd::prelude::*;

pub mod json;
pub mod linux;
pub mod macos;
pub mod text;
pub mod windows;

verus! {

use crate::linux::{linux_post, LinuxProvider};
use crate::macos::{macos_post, MacosProvider};
use crate::text::is_blank;
use crate::windows::{windows_post, DiskDriveRow, WindowsProvider};

/// The common inventory record: one per physical disk.
///
/// `model` and `serial_number` are absent both when the source reports
/// nothing and when it reports a blank string; `removable` is `None` when
/// the source gives no classification signal at all.
#[derive(Debug, Clone)]
pub struct DiskInfo {
    pub name: String,
    pub model: Option<String>,
    pub serial_number: Option<String>,
    pub removable: Option<bool>,
}

/// Mathematical view of a record: each text field as a sequence of characters.
pub ghost struct DiskRec {
    pub name: Seq<char>,
    pub model: Option<Seq<char>>,
    pub serial: Option<Seq<char>>,
    pub removable: Option<bool>,
}

/// View of an optional text field.
pub open spec fn opt_chars(s: Option<String>) -> Option<Seq<char>> {
    match s {
        Option::None => None,
        Option::Some(v) => Some(v@),
    }
}

impl View for DiskInfo {
    type V = DiskRec;

    open spec fn view(&self) -> DiskRec {
        DiskRec {
            name: self.name@,
            model: opt_chars(self.model),
            serial: opt_chars(self.serial_number),
            removable: self.removable,
        }
    }
}

/// Why an inventory acquisition failed. Acquisition is all-or-nothing:
/// a provider returns the whole list or exactly one of these.
#[derive(Debug, Clone)]
pub enum ProviderError {
    /// The external tool or subsystem could not be started or reached.
    CommandFailed(String),
    /// The external tool ran but exited unsuccessfully; holds its error text.
    CommandUnsuccessful(String),
    /// Output could not be decoded into the expected schema.
    ParsingFailed(String),
    /// A JSON document was malformed or did not match the expected shape.
    JsonError(String),
    /// A lookup targeted a specific device that does not exist.
    DeviceNotFound,
    /// The management-instrumentation layer reported a failure.
    WmiError(String),
}

/// What running an external tool produced: its exit classification and
/// both captured streams, already decoded to text.
pub struct ToolOutput {
    pub success: bool,
    pub stdout: String,
    pub stderr: String,
}

/// Normalizes an optional text field: a missing value stays missing, and a
/// value that is empty or whitespace-only after trimming becomes missing;
/// any other value is kept verbatim.
pub open spec fn norm_str(s: Option<String>) -> Option<String> {
    match s {
        Option::None => None,
        Option::Some(v) => if is_blank(v@) {
            None
        } else {
            Some(v)
        },
    }
}

/// Collapses a blank or absent field into absence, keeping any other value.
pub fn normalize_field(s: Option<String>) -> (r: Option<String>)
    ensures
        r == norm_str(s),
{
    match s {
        None => None,
        Some(v) => {
            let t = crate::text::trim_str(v.as_str());
            if t.is_empty() {
                None
            } else {
                Some(v)
            }
        },
    }
}

/// The raw acquisition of the platform this inventory is taken on: what
/// its native data source produced, already decoded to plain values.
pub enum DiskSource {
    /// The block-device listing tool's outcome.
    Linux(Result<ToolOutput, String>),
    /// The storage profiler's bus-category outcome.
    Macos(Result<ToolOutput, String>),
    /// The disk-drive class query's rows, or the instrumentation failure.
    Windows(Result<Vec<DiskDriveRow>, String>),
}

/// The one public operation: the full inventory from the platform's raw
/// acquisition, or exactly one classified error — never a partial list.
pub fn get_all_disks(source: DiskSource) -> (r: Result<Vec<DiskInfo>, ProviderError>)
    ensures
        match source {
            DiskSource::Linux(listing) => linux_post(listing, r),
            DiskSource::Macos(profiler) => macos_post(profiler, r),
            DiskSource::Windows(rows) => windows_post(rows, r),
        },
{
    match source {
        DiskSource::Linux(listing) => LinuxProvider::get_all_disks(listing),
        DiskSource::Macos(profiler) => MacosProvider::get_all_disks(profiler),
        DiskSource::Windows(rows) => WindowsProvider::get_all_disks(rows),
    }
}

} // verus!
