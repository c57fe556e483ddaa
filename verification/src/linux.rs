//! Linux provider: reads the JSON emitted by the block-device listing tool,
//! keeps the whole-disk entries and maps them into common records.

use vstd::prelude::*;

use crate::json::{get_field, obj_lookup, parse_json, json_doc, JsonValue};
use crate::text::str_eq;
use crate::{normalize_field, norm_str, DiskInfo, ProviderError, ToolOutput};

verus! {

/// One device entry of the listing tool's JSON schema.
pub struct LsblkEntry {
    pub name: String,
    pub model: Option<String>,
    pub serial: Option<String>,
    pub device_type: String,
}

/// An optional text field of a device object: present as text, absent, or
/// `null` (absent); any other shape does not fit the schema.
pub open spec fn entry_opt_field(fields: Seq<(String, JsonValue)>, key: Seq<char>) -> Option<
    Option<String>,
> {
    match obj_lookup(fields, key) {
        Option::None => Some(None),
        Option::Some(JsonValue::Null) => Some(None),
        Option::Some(JsonValue::Text(s)) => Some(Some(s)),
        Option::Some(_) => None,
    }
}

/// The device entry a JSON value describes: an object with required text
/// fields `name` and `type` and optional text fields `model` and `serial`.
pub open spec fn entry_of_value(v: JsonValue) -> Option<LsblkEntry> {
    match v {
        JsonValue::Object(fields) => match (obj_lookup(fields@, "name"@), obj_lookup(
            fields@,
            "type"@,
        )) {
            (Option::Some(JsonValue::Text(n)), Option::Some(JsonValue::Text(t))) => match (
                entry_opt_field(fields@, "model"@),
                entry_opt_field(fields@, "serial"@),
            ) {
                (Option::Some(m), Option::Some(s)) => Some(
                    LsblkEntry { name: n, model: m, serial: s, device_type: t },
                ),
                _ => None,
            },
            _ => None,
        },
        _ => None,
    }
}

/// The device entries of a whole listing document: an object whose
/// `blockdevices` member is an array of device objects.
pub open spec fn entries_of_items(items: Seq<JsonValue>) -> Option<Seq<LsblkEntry>>
    decreases items.len(),
{
    if items.len() == 0 {
        Some(Seq::empty())
    } else {
        match (entries_of_items(items.drop_last()), entry_of_value(items.last())) {
            (Option::Some(rest), Option::Some(e)) => Some(rest.push(e)),
            _ => None,
        }
    }
}

/// The device entries of a listing document.
pub open spec fn lsblk_doc_entries(doc: JsonValue) -> Option<Seq<LsblkEntry>> {
    match doc {
        JsonValue::Object(fields) => match obj_lookup(fields@, "blockdevices"@) {
            Option::Some(JsonValue::Array(items)) => entries_of_items(items@),
            _ => None,
        },
        _ => None,
    }
}

/// The record a whole-disk entry maps to: name verbatim, model and serial
/// with blank collapsed to absent, removable never classified on this path.
pub open spec fn linux_record(e: LsblkEntry) -> DiskInfo {
    DiskInfo {
        name: e.name,
        model: norm_str(e.model),
        serial_number: norm_str(e.serial),
        removable: None,
    }
}

/// The records of a listing: exactly the entries whose declared type is
/// `disk`, in order, each mapped by [`linux_record`].
pub open spec fn linux_records(entries: Seq<LsblkEntry>) -> Seq<DiskInfo>
    decreases entries.len(),
{
    if entries.len() == 0 {
        Seq::empty()
    } else {
        let rest = linux_records(entries.drop_last());
        if entries.last().device_type@ == "disk"@ {
            rest.push(linux_record(entries.last()))
        } else {
            rest
        }
    }
}

/// The Linux records are exactly the entries whose declared type is
/// `disk`, in order, each mapped to its record: every other entry (a
/// partition, a loop device) is dropped, and nothing else appears.
pub proof fn lemma_linux_records_filter_map(entries: Seq<LsblkEntry>)
    ensures
        linux_records(entries) == entries.filter(
            |e: LsblkEntry| e.device_type@ == "disk"@,
        ).map_values(|e: LsblkEntry| linux_record(e)),
    decreases entries.len(),
{
    reveal(Seq::filter);
    let pred = |e: LsblkEntry| e.device_type@ == "disk"@;
    let f = |e: LsblkEntry| linux_record(e);
    if entries.len() == 0 {
        assert(entries.filter(pred).map_values(f) =~= Seq::<DiskInfo>::empty());
    } else {
        let prev = entries.drop_last();
        lemma_linux_records_filter_map(prev);
        if pred(entries.last()) {
            assert(entries.filter(pred) == prev.filter(pred).push(entries.last()));
            assert(prev.filter(pred).push(entries.last()).map_values(f) =~= prev.filter(
                pred,
            ).map_values(f).push(f(entries.last())));
        } else {
            assert(entries.filter(pred) == prev.filter(pred));
        }
    }
}

/// What the Linux provider returns for each acquisition outcome.
pub open spec fn linux_post(
    listing: Result<ToolOutput, String>,
    r: Result<Vec<DiskInfo>, ProviderError>,
) -> bool {
    &&& (listing matches Err(m) ==> r == Err::<Vec<DiskInfo>, ProviderError>(
        ProviderError::CommandFailed(m),
    ))
    &&& (listing matches Ok(o) ==> {
        &&& (!o.success ==> r == Err::<Vec<DiskInfo>, ProviderError>(
            ProviderError::CommandUnsuccessful(o.stderr),
        ))
        &&& (o.success ==> match json_doc(o.stdout@) {
            Option::None => r matches Err(e) && e is JsonError,
            Option::Some(doc) => match lsblk_doc_entries(doc) {
                Option::None => r matches Err(e) && e is JsonError,
                Option::Some(entries) => r matches Ok(v) && v@ == linux_records(entries),
            },
        })
    })
}

fn entry_from(v: &JsonValue) -> (r: Option<LsblkEntry>)
    ensures
        r == entry_of_value(*v),
{
    match v {
        JsonValue::Object(fields) => {
            let name = match get_field(fields, "name") {
                Some(JsonValue::Text(n)) => n.clone(),
                _ => {
                    return None;
                },
            };
            let device_type = match get_field(fields, "type") {
                Some(JsonValue::Text(t)) => t.clone(),
                _ => {
                    return None;
                },
            };
            let model = match get_field(fields, "model") {
                None => None,
                Some(JsonValue::Null) => None,
                Some(JsonValue::Text(s)) => Some(s.clone()),
                Some(_) => {
                    return None;
                },
            };
            let serial = match get_field(fields, "serial") {
                None => None,
                Some(JsonValue::Null) => None,
                Some(JsonValue::Text(s)) => Some(s.clone()),
                Some(_) => {
                    return None;
                },
            };
            Some(LsblkEntry { name, model, serial, device_type })
        },
        _ => None,
    }
}

fn entries_from(items: &Vec<JsonValue>) -> (r: Option<Vec<LsblkEntry>>)
    ensures
        match r {
            Option::None => entries_of_items(items@) is None,
            Option::Some(v) => entries_of_items(items@) == Some(v@),
        },
{
    let n = items.len();
    let mut out: Vec<LsblkEntry> = Vec::new();
    let mut i: usize = 0;
    while i < n
        invariant
            n == items@.len(),
            i <= n,
            entries_of_items(items@.take(i as int)) == Some(out@),
        decreases n - i,
    {
        proof {
            assert(items@.take(i as int + 1).drop_last() =~= items@.take(i as int));
            assert(items@.take(i as int + 1).last() == items@[i as int]);
        }
        match entry_from(&items[i]) {
            None => {
                proof {
                    lemma_entries_prefix_none(items@, i as int + 1);
                }
                return None;
            },
            Some(e) => {
                out.push(e);
            },
        }
        i += 1;
    }
    proof {
        assert(items@.take(n as int) =~= items@);
    }
    Some(out)
}

/// Once a prefix fails the schema, the whole item list does.
proof fn lemma_entries_prefix_none(items: Seq<JsonValue>, k: int)
    requires
        0 <= k <= items.len(),
        entries_of_items(items.take(k)) is None,
    ensures
        entries_of_items(items) is None,
    decreases items.len() - k,
{
    if k < items.len() {
        assert(items.take(k + 1).drop_last() =~= items.take(k));
        lemma_entries_prefix_none(items, k + 1);
    } else {
        assert(items.take(k) =~= items);
    }
}

/// The provider for the block-device listing platform.
pub struct LinuxProvider;

impl LinuxProvider {
    /// Maps an acquisition outcome of the listing tool to the inventory:
    /// an invocation failure or unsuccessful exit is classified as such,
    /// the output is otherwise parsed as JSON and filtered to whole disks.
    pub fn get_all_disks(listing: Result<ToolOutput, String>) -> (r: Result<
        Vec<DiskInfo>,
        ProviderError,
    >)
        ensures
            linux_post(listing, r),
    {
        let out = match listing {
            Err(m) => {
                return Err(ProviderError::CommandFailed(m));
            },
            Ok(o) => o,
        };
        if !out.success {
            return Err(ProviderError::CommandUnsuccessful(out.stderr));
        }
        let doc = match parse_json(out.stdout.as_str()) {
            Err(m) => {
                return Err(ProviderError::JsonError(m));
            },
            Ok(d) => d,
        };
        let entries = match doc {
            JsonValue::Object(fields) => match get_field(&fields, "blockdevices") {
                Some(JsonValue::Array(items)) => match entries_from(items) {
                    Some(v) => v,
                    None => {
                        return Err(
                            ProviderError::JsonError("unexpected block-device schema".to_owned()),
                        );
                    },
                },
                _ => {
                    return Err(
                        ProviderError::JsonError("missing block-device list".to_owned()),
                    );
                },
            },
            _ => {
                return Err(ProviderError::JsonError("expected a JSON object".to_owned()));
            },
        };
        let n = entries.len();
        let mut disks: Vec<DiskInfo> = Vec::new();
        let mut i: usize = 0;
        while i < n
            invariant
                n == entries@.len(),
                i <= n,
                disks@ == linux_records(entries@.take(i as int)),
            decreases n - i,
        {
            proof {
                assert(entries@.take(i as int + 1).drop_last() =~= entries@.take(i as int));
                assert(entries@.take(i as int + 1).last() == entries@[i as int]);
            }
            let e = &entries[i];
            if str_eq(e.device_type.as_str(), "disk") {
                let model = match &e.model {
                    None => None,
                    Some(m) => Some(m.clone()),
                };
                let serial = match &e.serial {
                    None => None,
                    Some(s) => Some(s.clone()),
                };
                disks.push(
                    DiskInfo {
                        name: e.name.clone(),
                        model: normalize_field(model),
                        serial_number: normalize_field(serial),
                        removable: None,
                    },
                );
            }
            i += 1;
        }
        proof {
            assert(entries@.take(n as int) =~= entries@);
        }
        Ok(disks)
    }
}

} // verus!
