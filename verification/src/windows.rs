//! Windows provider: maps the rows of a management-instrumentation query
//! over the disk-drive class into common records, deriving the removable
//! flag from the free-text media-type string.

use vstd::prelude::*;

use crate::text::{contains_seq, contains_str, is_blank, trim_str};
use crate::{norm_str, normalize_field, opt_chars, DiskInfo, ProviderError};

verus! {

/// One row of the disk-drive class query.
pub struct DiskDriveRow {
    pub device_id: String,
    pub model: String,
    pub serial_number: Option<String>,
    pub media_type: Option<String>,
}

/// What lower-casing a text yields.
pub uninterp spec fn lowercased(s: Seq<char>) -> Seq<char>;

/// Relies on `str::to_lowercase`: the result depends on the characters
/// alone.
#[verifier::external_body]
fn to_lower(s: &str) -> (r: String)
    ensures
        r@ == lowercased(s@),
{
    s.to_lowercase()
}

/// The tri-state removable classification: `None` without a signal (field
/// absent or blank), otherwise whether the lower-cased media type names
/// removable or external-hard-disk media.
pub open spec fn spec_classify_removable(mt: Option<Seq<char>>) -> Option<bool> {
    match mt {
        Option::None => None,
        Option::Some(s) => if is_blank(s) {
            None
        } else {
            Some(
                contains_seq(lowercased(s), "removable media"@) || contains_seq(
                    lowercased(s),
                    "external hard disk media"@,
                ),
            )
        },
    }
}

/// Classifies the media-type string: absence of signal stays unknown and is
/// never conflated with a negative classification.
pub fn classify_removable(media_type: &Option<String>) -> (r: Option<bool>)
    ensures
        r == spec_classify_removable(opt_chars(*media_type)),
{
    match media_type {
        None => None,
        Some(s) => {
            let t = trim_str(s.as_str());
            if t.is_empty() {
                None
            } else {
                let low = to_lower(s.as_str());
                Some(
                    contains_str(low.as_str(), "removable media") || contains_str(
                        low.as_str(),
                        "external hard disk media",
                    ),
                )
            }
        },
    }
}

/// The record one row maps to: name and model verbatim, serial with blank
/// collapsed to absent, removable classified from the media type.
pub open spec fn windows_record(row: DiskDriveRow) -> DiskInfo {
    DiskInfo {
        name: row.device_id,
        model: Some(row.model),
        serial_number: norm_str(row.serial_number),
        removable: spec_classify_removable(opt_chars(row.media_type)),
    }
}

/// What the Windows provider returns for each query outcome.
pub open spec fn windows_post(
    rows: Result<Vec<DiskDriveRow>, String>,
    r: Result<Vec<DiskInfo>, ProviderError>,
) -> bool {
    &&& (rows matches Err(m) ==> r == Err::<Vec<DiskInfo>, ProviderError>(
        ProviderError::WmiError(m),
    ))
    &&& (rows matches Ok(v) ==> r matches Ok(out) && out@.len() == v@.len() && (forall|i: int|
        0 <= i < v@.len() ==> out@[i] == windows_record(v@[i])))
}

/// The provider for the management-instrumentation platform.
pub struct WindowsProvider;

impl WindowsProvider {
    /// Maps the outcome of the disk-drive class query to the inventory: a
    /// session or query failure is classified as an instrumentation error,
    /// and every returned row becomes one record.
    pub fn get_all_disks(rows: Result<Vec<DiskDriveRow>, String>) -> (r: Result<
        Vec<DiskInfo>,
        ProviderError,
    >)
        ensures
            windows_post(rows, r),
    {
        let rows = match rows {
            Err(m) => {
                return Err(ProviderError::WmiError(m));
            },
            Ok(v) => v,
        };
        let n = rows.len();
        let mut disks: Vec<DiskInfo> = Vec::new();
        let mut i: usize = 0;
        while i < n
            invariant
                n == rows@.len(),
                i <= n,
                disks@.len() == i,
                forall|k: int| 0 <= k < i ==> disks@[k] == windows_record(rows@[k]),
            decreases n - i,
        {
            let row = &rows[i];
            let serial = match &row.serial_number {
                None => None,
                Some(s) => Some(s.clone()),
            };
            disks.push(
                DiskInfo {
                    name: row.device_id.clone(),
                    model: Some(row.model.clone()),
                    serial_number: normalize_field(serial),
                    removable: classify_removable(&row.media_type),
                },
            );
            i += 1;
        }
        Ok(disks)
    }
}

} // verus!
