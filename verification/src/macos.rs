//! macOS provider: two acquisition strategies over the storage profiler.
//!
//! The bus-category strategy reads the NVMe and SATA categories of the
//! profiler's JSON, whose items already describe physical drives. The
//! volume-based strategy derives physical-disk identifiers from volume
//! identifiers, deduplicates them, and fills each record from the key/value
//! text of a per-disk detail tool, tolerating per-disk failures.

use vstd::prelude::*;

use crate::json::{get_field, json_doc, obj_lookup, parse_json, JsonValue};
use crate::text::{
    find_char, is_blank, is_digit, split_char_spec, split_once_char, split_string, str_eq,
    trim_spec, trim_str,
};
use crate::{opt_chars, DiskInfo, DiskRec, ProviderError, ToolOutput};

verus! {

/// One physical-drive item of a profiler bus category.
pub struct MacDisk {
    pub name: String,
    pub bsd_name: String,
    pub device_model: String,
    pub device_serial: String,
    pub removable_media: String,
}

/// A required text member of an object.
pub open spec fn req_text(fields: Seq<(String, JsonValue)>, key: Seq<char>) -> Option<String> {
    match obj_lookup(fields, key) {
        Option::Some(JsonValue::Text(s)) => Some(s),
        _ => None,
    }
}

/// The drive item a JSON value describes: an object with the five required
/// text members of the bus-category schema.
pub open spec fn disk_of_value(v: JsonValue) -> Option<MacDisk> {
    match v {
        JsonValue::Object(fields) => match (
            req_text(fields@, "_name"@),
            req_text(fields@, "bsd_name"@),
            req_text(fields@, "device_model"@),
            req_text(fields@, "device_serial"@),
            req_text(fields@, "removable_media"@),
        ) {
            (
                Option::Some(n),
                Option::Some(b),
                Option::Some(m),
                Option::Some(s),
                Option::Some(r),
            ) => Some(
                MacDisk {
                    name: n,
                    bsd_name: b,
                    device_model: m,
                    device_serial: s,
                    removable_media: r,
                },
            ),
            _ => None,
        },
        _ => None,
    }
}

/// The drive items of one category group's `_items` array.
pub open spec fn disks_of_items(items: Seq<JsonValue>) -> Option<Seq<MacDisk>>
    decreases items.len(),
{
    if items.len() == 0 {
        Some(Seq::empty())
    } else {
        match (disks_of_items(items.drop_last()), disk_of_value(items.last())) {
            (Option::Some(rest), Option::Some(d)) => Some(rest.push(d)),
            _ => None,
        }
    }
}

/// The drive items of one category group: an object with a required text
/// `_name` and an `_items` array of drive items.
pub open spec fn group_disks(v: JsonValue) -> Option<Seq<MacDisk>> {
    match v {
        JsonValue::Object(fields) => match (req_text(fields@, "_name"@), obj_lookup(
            fields@,
            "_items"@,
        )) {
            (Option::Some(_), Option::Some(JsonValue::Array(items))) => disks_of_items(items@),
            _ => None,
        },
        _ => None,
    }
}

/// All drive items of one bus category, its groups concatenated in order.
pub open spec fn category_disks(groups: Seq<JsonValue>) -> Option<Seq<MacDisk>>
    decreases groups.len(),
{
    if groups.len() == 0 {
        Some(Seq::empty())
    } else {
        match (category_disks(groups.drop_last()), group_disks(groups.last())) {
            (Option::Some(rest), Option::Some(g)) => Some(rest + g),
            _ => None,
        }
    }
}

/// The drive items of a whole profiler document: the NVMe category followed
/// by the SATA category, both required arrays.
pub open spec fn mac_doc_disks(doc: JsonValue) -> Option<Seq<MacDisk>> {
    match doc {
        JsonValue::Object(fields) => match (obj_lookup(fields@, "SPNVMeDataType"@), obj_lookup(
            fields@,
            "SPSerialATADataType"@,
        )) {
            (
                Option::Some(JsonValue::Array(nvme)),
                Option::Some(JsonValue::Array(sata)),
            ) => match (category_disks(nvme@), category_disks(sata@)) {
                (Option::Some(a), Option::Some(b)) => Some(a + b),
                _ => None,
            },
            _ => None,
        },
        _ => None,
    }
}

/// The record a drive item maps to: all text fields trimmed and kept as
/// present, removable resolved by comparing the indicator to the
/// affirmative token.
pub open spec fn mac_record(d: MacDisk) -> DiskRec {
    DiskRec {
        name: trim_spec(d.bsd_name@),
        model: Some(trim_spec(d.device_model@)),
        serial: Some(trim_spec(d.device_serial@)),
        removable: Some(d.removable_media@ == "yes"@),
    }
}

/// What the bus-category strategy returns for each profiler outcome.
pub open spec fn macos_post(
    profiler: Result<ToolOutput, String>,
    r: Result<Vec<DiskInfo>, ProviderError>,
) -> bool {
    &&& (profiler matches Err(m) ==> r == Err::<Vec<DiskInfo>, ProviderError>(
        ProviderError::CommandFailed(m),
    ))
    &&& (profiler matches Ok(o) ==> {
        &&& (!o.success ==> r == Err::<Vec<DiskInfo>, ProviderError>(
            ProviderError::CommandUnsuccessful(o.stderr),
        ))
        &&& (o.success ==> match json_doc(o.stdout@) {
            Option::None => r matches Err(e) && e is JsonError,
            Option::Some(doc) => match mac_doc_disks(doc) {
                Option::None => r matches Err(e) && e is JsonError,
                Option::Some(ds) => r matches Ok(v) && v@.len() == ds.len() && (forall|i: int|
                    0 <= i < ds.len() ==> v@[i]@ == mac_record(ds[i])),
            },
        })
    })
}

fn disk_from(v: &JsonValue) -> (r: Option<MacDisk>)
    ensures
        r == disk_of_value(*v),
{
    match v {
        JsonValue::Object(fields) => {
            let name = match get_field(fields, "_name") {
                Some(JsonValue::Text(s)) => s.clone(),
                _ => {
                    return None;
                },
            };
            let bsd_name = match get_field(fields, "bsd_name") {
                Some(JsonValue::Text(s)) => s.clone(),
                _ => {
                    return None;
                },
            };
            let device_model = match get_field(fields, "device_model") {
                Some(JsonValue::Text(s)) => s.clone(),
                _ => {
                    return None;
                },
            };
            let device_serial = match get_field(fields, "device_serial") {
                Some(JsonValue::Text(s)) => s.clone(),
                _ => {
                    return None;
                },
            };
            let removable_media = match get_field(fields, "removable_media") {
                Some(JsonValue::Text(s)) => s.clone(),
                _ => {
                    return None;
                },
            };
            Some(MacDisk { name, bsd_name, device_model, device_serial, removable_media })
        },
        _ => None,
    }
}

/// Once a prefix of the `_items` array fails the schema, the whole array
/// does.
proof fn lemma_disks_prefix_none(items: Seq<JsonValue>, k: int)
    requires
        0 <= k <= items.len(),
        disks_of_items(items.take(k)) is None,
    ensures
        disks_of_items(items) is None,
    decreases items.len() - k,
{
    if k < items.len() {
        assert(items.take(k + 1).drop_last() =~= items.take(k));
        lemma_disks_prefix_none(items, k + 1);
    } else {
        assert(items.take(k) =~= items);
    }
}

/// Once a prefix of a category's groups fails the schema, the category
/// does.
proof fn lemma_category_prefix_none(groups: Seq<JsonValue>, k: int)
    requires
        0 <= k <= groups.len(),
        category_disks(groups.take(k)) is None,
    ensures
        category_disks(groups) is None,
    decreases groups.len() - k,
{
    if k < groups.len() {
        assert(groups.take(k + 1).drop_last() =~= groups.take(k));
        lemma_category_prefix_none(groups, k + 1);
    } else {
        assert(groups.take(k) =~= groups);
    }
}

#[verifier::loop_isolation(false)]
fn group_disks_from(v: &JsonValue) -> (r: Option<Vec<MacDisk>>)
    ensures
        match group_disks(*v) {
            Option::None => r is None,
            Option::Some(g) => r matches Some(found) && found@ == g,
        },
{
    match v {
        JsonValue::Object(fields) => {
            match get_field(fields, "_name") {
                Some(JsonValue::Text(_)) => {},
                _ => {
                    return None;
                },
            }
            let items = match get_field(fields, "_items") {
                Some(JsonValue::Array(items)) => items,
                _ => {
                    return None;
                },
            };
            let n = items.len();
            let mut out: Vec<MacDisk> = Vec::new();
            let mut i: usize = 0;
            while i < n
                invariant
                    n == items@.len(),
                    i <= n,
                    disks_of_items(items@.take(i as int)) == Some(out@),
                decreases n - i,
            {
                proof {
                    assert(items@.take(i as int + 1).drop_last() =~= items@.take(i as int));
                    assert(items@.take(i as int + 1).last() == items@[i as int]);
                }
                match disk_from(&items[i]) {
                    None => {
                        proof {
                            lemma_disks_prefix_none(items@, i as int + 1);
                        }
                        return None;
                    },
                    Some(d) => {
                        out.push(d);
                    },
                }
                i += 1;
            }
            proof {
                assert(items@.take(n as int) =~= items@);
            }
            Some(out)
        },
        _ => None,
    }
}

fn category_from(groups: &Vec<JsonValue>, out: &mut Vec<MacDisk>) -> (ok: bool)
    ensures
        match category_disks(groups@) {
            Option::None => !ok,
            Option::Some(ds) => ok && final (out)@ == old(out)@ + ds,
        },
{
    let n = groups.len();
    let ghost out0 = out@;
    let mut i: usize = 0;
    proof {
        assert(out@ =~= out0 + Seq::<MacDisk>::empty());
    }
    while i < n
        invariant
            n == groups@.len(),
            i <= n,
            category_disks(groups@.take(i as int)) matches Some(ds) && out@ == out0 + ds,
        decreases n - i,
    {
        proof {
            assert(groups@.take(i as int + 1).drop_last() =~= groups@.take(i as int));
            assert(groups@.take(i as int + 1).last() == groups@[i as int]);
        }
        match group_disks_from(&groups[i]) {
            None => {
                proof {
                    lemma_category_prefix_none(groups@, i as int + 1);
                }
                return false;
            },
            Some(mut g) => {
                let ghost gsnap = g@;
                out.append(&mut g);
                proof {
                    if let Some(ds) = category_disks(groups@.take(i as int)) {
                        assert(out@ =~= out0 + (ds + gsnap));
                    }
                }
            },
        }
        i += 1;
    }
    proof {
        assert(groups@.take(n as int) =~= groups@);
    }
    true
}

/// Length of the run of decimal digits that starts the text.
pub open spec fn digit_run_len(s: Seq<char>) -> int
    decreases s.len(),
{
    if s.len() == 0 || !is_digit(s[0]) {
        0
    } else {
        1 + digit_run_len(s.drop_first())
    }
}

/// A first segment of `k` digits with a non-digit (or the end) after it
/// fixes the run length.
proof fn lemma_digit_run_at(s: Seq<char>, k: int)
    requires
        0 <= k <= s.len(),
        forall|j: int| 0 <= j < k ==> is_digit(s[j]),
        k == s.len() || !is_digit(s[k]),
    ensures
        digit_run_len(s) == k,
    decreases s.len(),
{
    if s.len() > 0 && is_digit(s[0]) {
        assert(k >= 1);
        assert forall|j: int| 0 <= j < k - 1 implies is_digit(s.drop_first()[j]) by {
            assert(s.drop_first()[j] == s[j + 1]);
        }
        if k - 1 < s.drop_first().len() {
            assert(s.drop_first()[k - 1] == s[k]);
        }
        lemma_digit_run_at(s.drop_first(), k - 1);
    }
}

/// The digit run is a prefix of digits that a non-digit (or the end)
/// follows.
pub proof fn lemma_digit_run_props(s: Seq<char>)
    ensures
        0 <= digit_run_len(s) <= s.len(),
        forall|j: int| 0 <= j < digit_run_len(s) ==> is_digit(s[j]),
        digit_run_len(s) < s.len() ==> !is_digit(s[digit_run_len(s)]),
    decreases s.len(),
{
    if s.len() > 0 && is_digit(s[0]) {
        lemma_digit_run_props(s.drop_first());
        assert forall|j: int| 0 <= j < digit_run_len(s) implies is_digit(s[j]) by {
            if j > 0 {
                assert(s.drop_first()[j - 1] == s[j]);
            }
        }
        if digit_run_len(s) < s.len() {
            assert(s.drop_first()[digit_run_len(s) - 1] == s[digit_run_len(s)]);
        }
    }
}

/// The physical-disk identifier a volume identifier derives to: the fixed
/// `disk` prefix followed by the maximal run of decimal digits after it,
/// discarding any suffix. An identifier without the prefix, or with no
/// digit after it, derives to nothing.
pub open spec fn derived_disk_id(vol: Seq<char>) -> Option<Seq<char>> {
    if vol.len() >= 4 && vol.subrange(0, 4) == "disk"@ {
        if digit_run_len(vol.skip(4)) > 0 {
            Some("disk"@ + vol.skip(4).take(digit_run_len(vol.skip(4))))
        } else {
            None
        }
    } else {
        None
    }
}

/// The derivation is idempotent: a derived identifier derives to itself,
/// so all volume identifiers of one physical disk collapse many-to-one
/// onto the same fixed point.
pub proof fn lemma_derive_idempotent(vol: Seq<char>, d: Seq<char>)
    requires
        derived_disk_id(vol) == Some(d),
    ensures
        derived_disk_id(d) == Some(d),
{
    reveal_strlit("disk");
    let rest = vol.skip(4);
    let k = digit_run_len(rest);
    lemma_digit_run_props(rest);
    assert(d.len() == 4 + k);
    assert(d.subrange(0, 4) =~= "disk"@);
    assert(d.skip(4) =~= rest.take(k));
    assert forall|j: int| 0 <= j < k implies is_digit(d.skip(4)[j]) by {
        assert(rest.take(k)[j] == rest[j]);
    }
    lemma_digit_run_at(d.skip(4), k);
    assert(d.skip(4).take(k) =~= d.skip(4));
    assert("disk"@ + d.skip(4) =~= d);
}

/// A derived identifier is never empty: it holds the four prefix
/// characters and at least one digit, so no record of the volume-based
/// path carries a blank name.
pub proof fn lemma_derived_id_nonempty(vol: Seq<char>, d: Seq<char>)
    requires
        derived_disk_id(vol) == Some(d),
    ensures
        d.len() >= 5,
{
    reveal_strlit("disk");
    lemma_digit_run_props(vol.skip(4));
}

fn digit_run_end(s: &str, start: usize) -> (k: usize)
    requires
        start <= s@.len(),
    ensures
        start <= k <= s@.len(),
        forall|j: int| start <= j < k ==> is_digit(s@[j]),
        k < s@.len() ==> !is_digit(s@[k as int]),
{
    let n = s.unicode_len();
    let mut k = start;
    while k < n
        invariant
            start <= k <= n,
            n == s@.len(),
            forall|j: int| start <= j < k ==> is_digit(s@[j]),
        decreases n - k,
    {
        let c = s.get_char(k);
        let u = c as u32;
        if !(0x30 <= u && u <= 0x39) {
            return k;
        }
        k += 1;
    }
    k
}

/// Derives the physical-disk identifier from a volume identifier: strips
/// the `disk` prefix, keeps the maximal run of digits, and discards any
/// partition-slice suffix.
pub fn derive_physical_disk_id(volume: &str) -> (r: Option<String>)
    ensures
        match derived_disk_id(volume@) {
            Option::None => r is None,
            Option::Some(d) => r matches Some(s) && s@ == d,
        },
{
    let n = volume.unicode_len();
    if n < 4 {
        return None;
    }
    let prefix = volume.substring_char(0, 4);
    if !str_eq(prefix, "disk") {
        return None;
    }
    let k = digit_run_end(volume, 4);
    proof {
        assert forall|j: int| 0 <= j < k - 4 implies is_digit(volume@.skip(4)[j]) by {
            assert(volume@.skip(4)[j] == volume@[j + 4]);
        }
        if k < n {
            assert(volume@.skip(4)[k - 4] == volume@[k as int]);
        }
        lemma_digit_run_at(volume@.skip(4), k - 4);
    }
    if k == 4 {
        return None;
    }
    let digits = volume.substring_char(4, k);
    let id = "disk".to_owned().concat(digits);
    proof {
        assert(digits@ =~= volume@.skip(4).take(k - 4));
    }
    Some(id)
}

/// There is an entry of `out` holding exactly the characters `d`.
pub open spec fn has_string(out: Seq<String>, d: Seq<char>) -> bool {
    exists|k: int| 0 <= k < out.len() && #[trigger] out[k]@ == d
}

/// Some volume identifier among the first `n` of `vols` derives to `d`.
pub open spec fn derives_among(vols: Seq<String>, n: int, d: Seq<char>) -> bool {
    exists|t: int| 0 <= t < n && #[trigger] derived_disk_id(vols[t]@) == Some(d)
}

/// `out` holds exactly the identifiers the volume identifiers derive to,
/// each exactly once: no duplicates, every derivable identifier present,
/// and nothing else.
pub open spec fn is_unique_derived_ids(vols: Seq<String>, out: Seq<String>) -> bool {
    &&& (forall|a: int, b: int| 0 <= a < b < out.len() ==> out[a]@ != out[b]@)
    &&& (forall|t: int|
        0 <= t < vols.len() ==> match #[trigger] derived_disk_id(vols[t]@) {
            Option::Some(d) => has_string(out, d),
            Option::None => true,
        })
    &&& (forall|k: int| 0 <= k < out.len() ==> derives_among(vols, vols.len() as int, #[trigger] out[k]@))
}

fn contains_string(v: &Vec<String>, s: &str) -> (r: bool)
    ensures
        r == has_string(v@, s@),
{
    let n = v.len();
    let mut i: usize = 0;
    while i < n
        invariant
            n == v@.len(),
            i <= n,
            forall|k: int| 0 <= k < i ==> v@[k]@ != s@,
        decreases n - i,
    {
        if str_eq(v[i].as_str(), s) {
            return true;
        }
        i += 1;
    }
    false
}

/// Collects the physical-disk identifiers the volume identifiers derive
/// to, eliminating duplicates: volumes of one physical disk collapse to a
/// single identifier, kept in first-appearance order.
pub fn unique_physical_disk_ids(volumes: &Vec<String>) -> (r: Vec<String>)
    ensures
        is_unique_derived_ids(volumes@, r@),
{
    let n = volumes.len();
    let mut out: Vec<String> = Vec::new();
    let mut i: usize = 0;
    while i < n
        invariant
            n == volumes@.len(),
            i <= n,
            forall|a: int, b: int| 0 <= a < b < out@.len() ==> out@[a]@ != out@[b]@,
            forall|t: int|
                0 <= t < i ==> match #[trigger] derived_disk_id(volumes@[t]@) {
                    Option::Some(d) => has_string(out@, d),
                    Option::None => true,
                },
            forall|k: int|
                0 <= k < out@.len() ==> derives_among(volumes@, i as int, #[trigger] out@[k]@),
        decreases n - i,
    {
        let ghost out_before = out@;
        let ghost derived = derived_disk_id(volumes@[i as int]@);
        match derive_physical_disk_id(volumes[i].as_str()) {
            None => {},
            Some(id) => {
                if !contains_string(&out, id.as_str()) {
                    out.push(id);
                    proof {
                        assert(out@[out_before.len() as int]@ == derived->0);
                    }
                }
            },
        }
        proof {
            assert forall|k: int| 0 <= k < out_before.len() implies out@[k] == out_before[k] by {}
            assert forall|t: int| 0 <= t < i + 1 implies match #[trigger] derived_disk_id(
                volumes@[t]@,
            ) {
                Option::Some(d) => has_string(out@, d),
                Option::None => true,
            } by {
                if let Some(d) = derived_disk_id(volumes@[t]@) {
                    if t < i {
                        let k = choose|k: int|
                            0 <= k < out_before.len() && #[trigger] out_before[k]@ == d;
                        assert(out@[k]@ == d);
                    } else {
                        if has_string(out_before, d) {
                            let k = choose|k: int|
                                0 <= k < out_before.len() && #[trigger] out_before[k]@ == d;
                            assert(out@[k]@ == d);
                        } else {
                            assert(out@[out_before.len() as int]@ == d);
                        }
                    }
                }
            }
            assert forall|k: int| 0 <= k < out@.len() implies derives_among(
                volumes@,
                i as int + 1,
                #[trigger] out@[k]@,
            ) by {
                if k < out_before.len() {
                    assert(derives_among(volumes@, i as int, out_before[k]@));
                } else {
                    assert(derived_disk_id(volumes@[i as int]@) == Some(out@[k]@));
                }
            }
        }
        i += 1;
    }
    proof {
        assert(volumes@.take(n as int) =~= volumes@);
    }
    out
}

/// The model and serial substitute read from a per-disk detail output.
pub struct DetailFields {
    pub model: Option<String>,
    pub serial: Option<String>,
}

/// Mathematical view of the detail fields.
pub ghost struct DetailRec {
    pub model: Option<Seq<char>>,
    pub serial: Option<Seq<char>>,
}

impl View for DetailFields {
    type V = DetailRec;

    open spec fn view(&self) -> DetailRec {
        DetailRec { model: opt_chars(self.model), serial: opt_chars(self.serial) }
    }
}

/// How one `key: value` line updates the fields read so far. The line is
/// split at its first colon and both sides are trimmed; a line without a
/// colon, with an unrecognized key, or with a blank value changes nothing.
/// A media-name key overwrites the model; a serial-number, partition-UUID
/// or volume-UUID key overwrites the serial unconditionally, so among those
/// three the last such line in document order wins.
pub open spec fn apply_detail_line(st: DetailRec, line: Seq<char>) -> DetailRec {
    match find_char(line, ':') {
        Option::None => st,
        Option::Some(i) => {
            let key = trim_spec(line.subrange(0, i));
            let val = trim_spec(line.subrange(i + 1, line.len() as int));
            if val.len() == 0 {
                st
            } else if key == "Media Name"@ {
                DetailRec { model: Some(val), serial: st.serial }
            } else if key == "Serial Number"@ || key == "Partition UUID"@ || key
                == "Volume UUID"@ {
                DetailRec { model: st.model, serial: Some(val) }
            } else {
                st
            }
        },
    }
}

/// The fields a whole detail output yields, its lines applied in order.
pub open spec fn detail_result(lines: Seq<Seq<char>>) -> DetailRec
    decreases lines.len(),
{
    if lines.len() == 0 {
        DetailRec { model: None, serial: None }
    } else {
        apply_detail_line(detail_result(lines.drop_last()), lines.last())
    }
}

/// A detail line whose value is blank after trimming changes nothing: it
/// never clears or overwrites a previously read field.
pub proof fn lemma_blank_value_ignored(st: DetailRec, line: Seq<char>)
    requires
        match find_char(line, ':') {
            Option::Some(i) => is_blank(line.subrange(i + 1, line.len() as int)),
            Option::None => true,
        },
    ensures
        apply_detail_line(st, line) == st,
{
}

/// A media-name line with a non-blank value overwrites the model, whatever
/// was read before, and leaves the serial untouched.
pub proof fn lemma_model_line_overwrites(st: DetailRec, line: Seq<char>, i: int)
    requires
        find_char(line, ':') == Some(i),
        trim_spec(line.subrange(0, i)) == "Media Name"@,
        !is_blank(line.subrange(i + 1, line.len() as int)),
    ensures
        apply_detail_line(st, line).model == Some(
            trim_spec(line.subrange(i + 1, line.len() as int)),
        ),
        apply_detail_line(st, line).serial == st.serial,
{
}

/// Parses a detail output as newline-delimited `key: value` lines.
pub fn parse_detail_output(text: &str) -> (r: DetailFields)
    ensures
        r@ == detail_result(split_char_spec(text@, '\n')),
{
    let lines = split_string(text, '\n');
    let n = lines.len();
    let mut model: Option<String> = None;
    let mut serial: Option<String> = None;
    let mut i: usize = 0;
    while i < n
        invariant
            n == lines@.len(),
            lines.deep_view() == split_char_spec(text@, '\n'),
            i <= n,
            detail_result(lines.deep_view().take(i as int)) == (DetailRec {
                model: opt_chars(model),
                serial: opt_chars(serial),
            }),
        decreases n - i,
    {
        proof {
            assert(lines.deep_view().take(i as int + 1).drop_last() =~= lines.deep_view().take(
                i as int,
            ));
            assert(lines.deep_view()[i as int] == lines@[i as int]@);
        }
        let line = &lines[i];
        match split_once_char(line.as_str(), ':') {
            None => {},
            Some((h, t)) => {
                let key = trim_str(h.as_str());
                let val = trim_str(t.as_str());
                if !val.is_empty() {
                    if str_eq(key, "Media Name") {
                        model = Some(val.to_owned());
                    } else if str_eq(key, "Serial Number") || str_eq(key, "Partition UUID")
                        || str_eq(key, "Volume UUID") {
                        serial = Some(val.to_owned());
                    }
                }
            },
        }
        i += 1;
    }
    proof {
        assert(lines.deep_view().take(n as int) =~= lines.deep_view());
    }
    DetailFields { model, serial }
}

/// Builds the record for one physical disk from its detail fields: a disk
/// without a model is dropped, even when a serial substitute was found;
/// removable is never classified on this path.
pub fn assemble_disk(id: String, fields: DetailFields) -> (r: Option<DiskInfo>)
    ensures
        match fields.model {
            Option::None => r is None,
            Option::Some(m) => r == Some(
                DiskInfo {
                    name: id,
                    model: Some(m),
                    serial_number: fields.serial,
                    removable: None,
                },
            ),
        },
{
    match fields.model {
        None => None,
        Some(m) => Some(
            DiskInfo { name: id, model: Some(m), serial_number: fields.serial, removable: None },
        ),
    }
}

/// The record (if any) for one physical disk, from the outcome of its
/// detail query: a failed or unsuccessful invocation skips the disk rather
/// than failing the enumeration, and so does an output without a model.
pub fn detail_disk(id: String, detail: Result<ToolOutput, String>) -> (r: Option<DiskInfo>)
    ensures
        detail matches Ok(o) ==> (o.success ==> {
            let f = detail_result(split_char_spec(o.stdout@, '\n'));
            match f.model {
                Option::None => r is None,
                Option::Some(m) => r matches Some(d) && d@ == (DiskRec {
                    name: id@,
                    model: Some(m),
                    serial: f.serial,
                    removable: None,
                }),
            }
        }),
        detail matches Ok(o) ==> (!o.success ==> r is None),
        detail is Err ==> r is None,
{
    let o = match detail {
        Err(_) => {
            return None;
        },
        Ok(o) => o,
    };
    if !o.success {
        return None;
    }
    let fields = parse_detail_output(o.stdout.as_str());
    assemble_disk(id, fields)
}

/// The volume identifiers of the storage data type's items: each item's
/// required text `bsd_name`; items of another shape carry none.
pub open spec fn volume_ids_of(items: Seq<JsonValue>) -> Seq<String>
    decreases items.len(),
{
    if items.len() == 0 {
        Seq::empty()
    } else {
        let rest = volume_ids_of(items.drop_last());
        match items.last() {
            JsonValue::Object(f) => match obj_lookup(f@, "bsd_name"@) {
                Option::Some(JsonValue::Text(s)) => rest.push(s),
                _ => rest,
            },
            _ => rest,
        }
    }
}

/// The mounted volumes of a storage-profiler document.
pub open spec fn storage_doc_volumes(doc: JsonValue) -> Option<Seq<String>> {
    match doc {
        JsonValue::Object(fields) => match obj_lookup(fields@, "SPStorageDataType"@) {
            Option::Some(JsonValue::Array(items)) => Some(volume_ids_of(items@)),
            _ => None,
        },
        _ => None,
    }
}

/// What the volume-based strategy's planning step returns for each
/// profiler outcome: the identifiers to query, each exactly once.
pub open spec fn plan_post(
    profiler: Result<ToolOutput, String>,
    r: Result<Vec<String>, ProviderError>,
) -> bool {
    &&& (profiler matches Err(m) ==> r == Err::<Vec<String>, ProviderError>(
        ProviderError::CommandFailed(m),
    ))
    &&& (profiler matches Ok(o) ==> {
        &&& (!o.success ==> r == Err::<Vec<String>, ProviderError>(
            ProviderError::CommandUnsuccessful(o.stderr),
        ))
        &&& (o.success ==> match json_doc(o.stdout@) {
            Option::None => r matches Err(e) && e is JsonError,
            Option::Some(doc) => match storage_doc_volumes(doc) {
                Option::None => r matches Err(e) && e is JsonError,
                Option::Some(vols) => r matches Ok(ids) && is_unique_derived_ids(vols, ids@),
            },
        })
    })
}

#[verifier::loop_isolation(false)]
fn volumes_from(items: &Vec<JsonValue>) -> (r: Vec<String>)
    ensures
        r@ == volume_ids_of(items@),
{
    let n = items.len();
    let mut out: Vec<String> = Vec::new();
    let mut i: usize = 0;
    while i < n
        invariant
            i <= n,
            out@ == volume_ids_of(items@.take(i as int)),
        decreases n - i,
    {
        proof {
            assert(items@.take(i as int + 1).drop_last() =~= items@.take(i as int));
            assert(items@.take(i as int + 1).last() == items@[i as int]);
        }
        match &items[i] {
            JsonValue::Object(f) => {
                match get_field(f, "bsd_name") {
                    Some(JsonValue::Text(s)) => {
                        out.push(s.clone());
                    },
                    _ => {},
                }
            },
            _ => {},
        }
        i += 1;
    }
    proof {
        assert(items@.take(n as int) =~= items@);
    }
    out
}

/// The provider for the storage-profiler platform.
pub struct MacosProvider;

impl MacosProvider {
    /// Maps a profiler outcome of the bus-category strategy to the
    /// inventory: an invocation failure or unsuccessful exit is classified
    /// as such, the output is otherwise parsed as JSON and every drive item
    /// of the NVMe and SATA categories becomes one record.
    pub fn get_all_disks(profiler: Result<ToolOutput, String>) -> (r: Result<
        Vec<DiskInfo>,
        ProviderError,
    >)
        ensures
            macos_post(profiler, r),
    {
        let out = match profiler {
            Err(m) => {
                return Err(ProviderError::CommandFailed(m));
            },
            Ok(o) => o,
        };
        if !out.success {
            return Err(ProviderError::CommandUnsuccessful(out.stderr));
        }
        let doc = match parse_json(out.stdout.as_str()) {
            Err(m) => {
                return Err(ProviderError::JsonError(m));
            },
            Ok(d) => d,
        };
        let mut found: Vec<MacDisk> = Vec::new();
        let ok = match &doc {
            JsonValue::Object(fields) => match (
                get_field(fields, "SPNVMeDataType"),
                get_field(fields, "SPSerialATADataType"),
            ) {
                (Some(JsonValue::Array(nvme)), Some(JsonValue::Array(sata))) => {
                    if category_from(nvme, &mut found) {
                        category_from(sata, &mut found)
                    } else {
                        false
                    }
                },
                _ => false,
            },
            _ => false,
        };
        if !ok {
            return Err(ProviderError::JsonError("unexpected profiler schema".to_owned()));
        }
        let n = found.len();
        let mut disks: Vec<DiskInfo> = Vec::new();
        let mut i: usize = 0;
        while i < n
            invariant
                n == found@.len(),
                i <= n,
                disks@.len() == i,
                forall|k: int| 0 <= k < i ==> disks@[k]@ == mac_record(found@[k]),
            decreases n - i,
        {
            let d = &found[i];
            let removable = str_eq(d.removable_media.as_str(), "yes");
            disks.push(
                DiskInfo {
                    name: trim_str(d.bsd_name.as_str()).to_owned(),
                    model: Some(trim_str(d.device_model.as_str()).to_owned()),
                    serial_number: Some(trim_str(d.device_serial.as_str()).to_owned()),
                    removable: Some(removable),
                },
            );
            i += 1;
        }
        Ok(disks)
    }

    /// The planning step of the volume-based strategy: reads the mounted
    /// volumes from a storage-profiler outcome and derives the unique
    /// physical-disk identifiers whose detail is then queried one by one.
    pub fn volume_disk_ids(profiler: Result<ToolOutput, String>) -> (r: Result<
        Vec<String>,
        ProviderError,
    >)
        ensures
            plan_post(profiler, r),
    {
        let out = match profiler {
            Err(m) => {
                return Err(ProviderError::CommandFailed(m));
            },
            Ok(o) => o,
        };
        if !out.success {
            return Err(ProviderError::CommandUnsuccessful(out.stderr));
        }
        let doc = match parse_json(out.stdout.as_str()) {
            Err(m) => {
                return Err(ProviderError::JsonError(m));
            },
            Ok(d) => d,
        };
        let volumes = match &doc {
            JsonValue::Object(fields) => match get_field(fields, "SPStorageDataType") {
                Some(JsonValue::Array(items)) => volumes_from(items),
                _ => {
                    return Err(
                        ProviderError::JsonError("missing storage data type".to_owned()),
                    );
                },
            },
            _ => {
                return Err(ProviderError::JsonError("expected a JSON object".to_owned()));
            },
        };
        Ok(unique_physical_disk_ids(&volumes))
    }
}

} // verus!

