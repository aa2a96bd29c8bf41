//! The state of a Google Fonts server as a push sees it, and the decisions that keep it current.
use vstd::prelude::*;
use chrono::Datelike;
use chrono::Timelike;
use crate::error::GftoolsError;
use crate::json::{
    json_members_debug, json_members_debug_text, json_parse, json_path_parse, member, parse_json, parse_json_with_path,
    parse_toml, toml_parse, Json,
};
use crate::push::items::{push_item_eq, same_item, Axis, Designer, Family, FamilyMeta, PushItem};
use crate::strmap::StrMap;
use crate::text::decimal_text;

verus! {

/// Names what `chrono::DateTime::<Utc>::from_timestamp(secs, 0)` gives: the date and time of
/// day, in UTC, `secs` seconds after the Unix epoch, or `None` when that falls outside chrono's
/// range of dates.
pub uninterp spec fn utc_timestamp(secs: i64) -> Option<DateTime>;

/// Calls `chrono::DateTime::from_timestamp(secs, 0)` and gives the date and the time of day
/// that it holds, in UTC. A time that chrono gives is a valid one.
#[verifier::external_body]
fn utc_from_timestamp(secs: i64) -> (r: Option<DateTime>)
    ensures
        r == utc_timestamp(secs),
        r matches Some(t) ==> t.valid(),
{
    chrono::DateTime::from_timestamp(secs, 0).map(|t| DateTime {
        date: Date { year: t.year(), month: t.month(), day: t.day() },
        hour: t.hour(),
        minute: t.minute(),
        second: t.second(),
        nanosecond: t.nanosecond(),
    })
}

/// Names what `chrono::NaiveDate::parse_from_str(s, fmt)` gives: the year, month and day of
/// the date that `s` spells in the format `fmt`, or the text of chrono's error when it spells
/// none.
pub uninterp spec fn naive_date_parse(s: Seq<char>, fmt: Seq<char>) -> Result<(i32, u32, u32), Seq<char>>;

/// Calls `chrono::NaiveDate::parse_from_str(s, fmt)` and gives the date's year, month and day,
/// or the text of chrono's error. A date that chrono gives is a day of its calendar.
#[verifier::external_body]
fn parse_naive_date(s: &str, fmt: &str) -> (r: Result<(i32, u32, u32), String>)
    ensures
        match naive_date_parse(s@, fmt@) {
            Ok(d) => r == Ok::<(i32, u32, u32), String>(d) && (Date { year: d.0, month: d.1, day: d.2 }).valid(),
            Err(m) => r matches Err(e) && e@ == m,
        },
{
    match chrono::NaiveDate::parse_from_str(s, fmt) {
        Ok(d) => Ok((d.year(), d.month(), d.day())),
        Err(e) => Err(e.to_string()),
    }
}

/// Whether `year` is a leap year of the Gregorian calendar.
pub open spec fn is_leap_year(year: int) -> bool {
    (year % 4 == 0 && year % 100 != 0) || year % 400 == 0
}

/// The number of days of the month `month` of the year `year`.
pub open spec fn days_in_month(year: int, month: int) -> int {
    if month == 2 {
        if is_leap_year(year) {
            29
        } else {
            28
        }
    } else if month == 4 || month == 6 || month == 9 || month == 11 {
        30
    } else {
        31
    }
}

/// A calendar date.
#[derive(Clone, Copy, Debug)]
pub struct Date {
    pub year: i32,
    pub month: u32,
    pub day: u32,
}

/// A date and a time of day, without a time zone.
#[derive(Clone, Copy, Debug)]
pub struct DateTime {
    pub date: Date,
    pub hour: u32,
    pub minute: u32,
    pub second: u32,
    pub nanosecond: u32,
}

impl DateTime {
    /// Whether this is a valid date and time of day; a leap second is written as a nanosecond
    /// count of a billion or more in the last second of a minute.
    pub open spec fn valid(self) -> bool {
        &&& self.date.valid()
        &&& self.hour < 24
        &&& self.minute < 60
        &&& self.second < 60
        &&& self.nanosecond < 2_000_000_000
        &&& self.nanosecond >= 1_000_000_000 ==> self.second == 59
    }
}

/// Whether the date `a` comes after the date `b`.
pub open spec fn date_after(a: Date, b: Date) -> bool {
    a.year > b.year || (a.year == b.year && (a.month > b.month || (a.month == b.month && a.day > b.day)))
}

impl Date {
    /// Whether this is a day of the Gregorian calendar within the years that chrono's dates
    /// span.
    pub open spec fn valid(self) -> bool {
        &&& -262143 <= self.year <= 262142
        &&& 1 <= self.month <= 12
        &&& 1 <= self.day <= days_in_month(self.year as int, self.month as int)
    }

    /// Whether this date comes after `other`.
    pub fn is_after(&self, other: &Date) -> (r: bool)
        ensures
            r == date_after(*self, *other),
    {
        self.year > other.year || (self.year == other.year && (self.month > other.month || (self.month
            == other.month && self.day > other.day)))
    }
}

/// The views of the values of a map of strings.
pub open spec fn string_values(m: Map<Seq<char>, String>) -> Map<Seq<char>, Seq<char>> {
    m.map_values(|s: String| s@)
}

/// The text of an optional JSON string.
pub open spec fn opt_str(o: Option<Json>) -> Option<Seq<char>> {
    match o {
        Some(v) => v.str_spec(),
        None => None,
    }
}

/// The version of the first of the "fontVersions" of a manifest entry.
pub open spec fn first_font_version(item: Json) -> Option<Seq<char>> {
    match item.get_spec("fontVersions"@) {
        Some(fv) => match fv.array_spec() {
            Some(a) => if a.len() > 0 {
                opt_str(a[0].get_spec("version"@))
            } else {
                None
            },
            None => None,
        },
        None => None,
    }
}

/// The family name and version that an entry of a manifest's "familyVersions" gives, when it
/// gives both.
pub open spec fn family_version_entry(item: Json) -> Option<(Seq<char>, Seq<char>)> {
    match (opt_str(item.get_spec("name"@)), first_font_version(item)) {
        (Some(n), Some(v)) => Some((n, v)),
        _ => None,
    }
}

/// The version of each family that the entries give; of two entries for one family, the
/// later one counts.
pub open spec fn family_versions_of(items: Seq<Json>) -> Map<Seq<char>, Seq<char>>
    decreases items.len(),
{
    if items.len() == 0 {
        Map::empty()
    } else {
        let m = family_versions_of(items.drop_last());
        match family_version_entry(items.last()) {
            Some((n, v)) => m.insert(n, v),
            None => m,
        }
    }
}

/// The "seconds" of the "lastUpdate" of a manifest, when it is an integer.
pub open spec fn last_update_seconds(data: Seq<(String, Json)>) -> Option<i64> {
    match member(data, "lastUpdate"@) {
        Some(v) => match v.get_spec("seconds"@) {
            Some(s) => s.i64_spec(),
            None => None,
        },
        None => None,
    }
}

/// The position and the message of the first failure among parsed items, if there is one.
pub open spec fn first_failure<T>(parsed: Seq<Result<T, String>>) -> Option<(int, Seq<char>)>
    decreases parsed.len(),
{
    if parsed.len() == 0 {
        None
    } else {
        match parsed[0] {
            Err(e) => Some((0, e@)),
            Ok(_) => shift_failure(first_failure(parsed.drop_first()), 1),
        }
    }
}

/// A failure's position moved `k` places on.
pub open spec fn shift_failure(f: Option<(int, Seq<char>)>, k: int) -> Option<(int, Seq<char>)> {
    match f {
        Some((i, e)) => Some((i + k, e)),
        None => None,
    }
}

/// The axis registry `m` after each parsed axis, in order and up to the first failure, is
/// stored under its tag.
pub open spec fn axes_applied(m: Map<Seq<char>, Axis>, parsed: Seq<Result<Axis, String>>) -> Map<Seq<char>, Axis>
    decreases parsed.len(),
{
    if parsed.len() == 0 {
        m
    } else {
        match parsed[0] {
            Ok(a) => axes_applied(m.insert(a.tag@, a), parsed.drop_first()),
            Err(_) => m,
        }
    }
}

/// The designers `m` after each parsed designer, in order and up to the first failure, is
/// stored under their name.
pub open spec fn designers_applied(
    m: Map<Seq<char>, Designer>,
    parsed: Seq<Result<Designer, String>>,
) -> Map<Seq<char>, Designer>
    decreases parsed.len(),
{
    if parsed.len() == 0 {
        m
    } else {
        match parsed[0] {
            Ok(d) => designers_applied(m.insert(d.name@, d), parsed.drop_first()),
            Err(_) => m,
        }
    }
}

/// The elements of the "designers" of a family's metadata, when it is an array.
pub open spec fn designers_of(meta: Json) -> Option<Seq<Json>> {
    match meta.get_spec("designers"@) {
        Some(d) => d.array_spec(),
        None => None,
    }
}

/// How `Debug` writes what `serde_json::Value::get` gives: `Some(..)` around the value's
/// `Debug` text, or `None`.
pub open spec fn opt_json_debug(o: Option<Json>) -> Seq<char> {
    match o {
        Some(v) => "Some("@ + crate::json::json_debug(v) + ")"@,
        None => "None"@,
    }
}

/// Storing parsed axes never takes a tag out of the registry.
pub proof fn lemma_axes_applied_keeps(m: Map<Seq<char>, Axis>, parsed: Seq<Result<Axis, String>>)
    ensures
        m.dom().subset_of(axes_applied(m, parsed).dom()),
    decreases parsed.len(),
{
    if parsed.len() > 0 {
        match parsed[0] {
            Ok(a) => lemma_axes_applied_keeps(m.insert(a.tag@, a), parsed.drop_first()),
            Err(_) => {},
        }
    }
}

/// Storing parsed designers never takes a name out of the designers.
pub proof fn lemma_designers_applied_keeps(m: Map<Seq<char>, Designer>, parsed: Seq<Result<Designer, String>>)
    ensures
        m.dom().subset_of(designers_applied(m, parsed).dom()),
    decreases parsed.len(),
{
    if parsed.len() > 0 {
        match parsed[0] {
            Ok(d) => lemma_designers_applied_keeps(m.insert(d.name@, d), parsed.drop_first()),
            Err(_) => {},
        }
    }
}

/// A Google Fonts server: where it is, and the families, designers, family metadata and axes
/// that it serves.
#[derive(Debug)]
pub struct GfServer {
    pub name: String,
    pub url: String,
    pub dl_url: String,
    pub version_url: String,
    pub families: StrMap<Family>,
    pub designers: StrMap<Designer>,
    pub family_meta: StrMap<FamilyMeta>,
    pub axisregistry: StrMap<Axis>,
    /// The members of the server's version manifest.
    pub _family_versions_data: Vec<(String, Json)>,
    /// The version of each family that the manifest lists.
    pub _family_versions: StrMap<String>,
}

impl GfServer {
    /// The maps of the server are well formed.
    pub open spec fn wf(self) -> bool {
        &&& self.families.wf()
        &&& self.designers.wf()
        &&& self.family_meta.wf()
        &&& self.axisregistry.wf()
        &&& self._family_versions.wf()
    }

    /// The version of each family that the manifest lists.
    pub open spec fn family_versions(self) -> Map<Seq<char>, Seq<char>> {
        string_values(self._family_versions@)
    }

    /// The server `name` at `url`, with `dl_url` to download families from and `version_url`
    /// for its version manifest, which answered `text`. The manifest is the JSON that follows
    /// the first five characters of the answer; it must be an object whose "familyVersions" is
    /// an array. Each of its entries that names a family and the version of its first font
    /// version gives that family's version.
    pub fn new(
        name: String,
        url: String,
        dl_url: String,
        version_url: String,
        text: &str,
    ) -> (r: Result<GfServer, GftoolsError>)
        ensures
            match json_parse(manifest_text_of(text@)) {
                Err(m) => r matches Err(e) && e.misc_message() == Some("Failed to parse JSON response: "@ + m),
                Ok(Json::Object(data)) => match member(data@, "familyVersions"@) {
                    Some(Json::Array(items)) => r matches Ok(s) && {
                        &&& s.wf()
                        &&& s.name == name && s.url == url && s.dl_url == dl_url && s.version_url == version_url
                        &&& s.families@ == Map::<Seq<char>, Family>::empty()
                        &&& s.designers@ == Map::<Seq<char>, Designer>::empty()
                        &&& s.family_meta@ == Map::<Seq<char>, FamilyMeta>::empty()
                        &&& s.axisregistry@ == Map::<Seq<char>, Axis>::empty()
                        &&& s._family_versions_data@ == data@
                        &&& s.family_versions() == family_versions_of(items@)
                    },
                    _ => r matches Err(e) && e.misc_message() == Some(
                        "Failed to find familyVersions in manifest: "@ + json_members_debug(data@),
                    ),
                },
                Ok(_) => r matches Err(e) && e.misc_message() == Some("Failed to parse JSON response: "@ + text@),
            },
    {
        let json_text = manifest_json_text(text);
        let manifest = match parse_json(json_text.as_str()) {
            Ok(j) => j,
            Err(e) => {
                let msg = String::from_str("Failed to parse JSON response: ");
                return Err(GftoolsError::Misc(msg.concat(e.as_str())));
            },
        };
        let data = match manifest {
            Json::Object(m) => m,
            _ => {
                let msg = String::from_str("Failed to parse JSON response: ");
                return Err(GftoolsError::Misc(msg.concat(text)));
            },
        };
        let mut versions: StrMap<String> = StrMap::new();
        {
            let items = match crate::json::object_get(&data, "familyVersions") {
                Some(Json::Array(a)) => a,
                _ => {
                    let msg = String::from_str("Failed to find familyVersions in manifest: ");
                    return Err(GftoolsError::Misc(msg.concat(json_members_debug_text(&data).as_str())));
                },
            };
            let mut i: usize = 0;
            while i < items.len()
                invariant
                    versions.wf(),
                    i <= items@.len(),
                    string_values(versions@) == family_versions_of(items@.take(i as int)),
                decreases items@.len() - i,
            {
                assert(items@.take(i + 1).drop_last() =~= items@.take(i as int));
                let item = &items[i];
                let name_opt = match item.get("name") {
                    Some(n) => n.as_str(),
                    None => None,
                };
                let version_opt = match item.get("fontVersions") {
                    Some(fv) => match fv.as_array() {
                        Some(a) => if a.len() > 0 {
                            match a[0].get("version") {
                                Some(v) => v.as_str(),
                                None => None,
                            }
                        } else {
                            None
                        },
                        None => None,
                    },
                    None => None,
                };
                match (name_opt, version_opt) {
                    (Some(n), Some(v)) => {
                        let ghost before = versions@;
                        versions.insert(n.clone(), v.clone());
                        assert(string_values(versions@) =~= string_values(before).insert(n@, v@));
                    },
                    _ => {},
                }
                i = i + 1;
            }
            assert(items@.take(items@.len() as int) =~= items@);
        }
        Ok(GfServer {
            name,
            url,
            dl_url,
            version_url,
            families: StrMap::new(),
            designers: StrMap::new(),
            family_meta: StrMap::new(),
            axisregistry: StrMap::new(),
            _family_versions_data: data,
            _family_versions: versions,
        })
    }

    /// The item that the server holds under the key of `item`: a family under its name, a
    /// designer under their name, family metadata under the family's name, an axis under its
    /// tag. The server holds no axis fallbacks.
    pub open spec fn stored_item(self, item: PushItem) -> Option<PushItem> {
        match item {
            PushItem::Family(f) => if self.families@.contains_key(f.name@) {
                Some(PushItem::Family(self.families@[f.name@]))
            } else {
                None
            },
            PushItem::Designer(d) => if self.designers@.contains_key(d.name@) {
                Some(PushItem::Designer(self.designers@[d.name@]))
            } else {
                None
            },
            PushItem::FamilyMeta(m) => if self.family_meta@.contains_key(m.name@) {
                Some(PushItem::FamilyMeta(self.family_meta@[m.name@]))
            } else {
                None
            },
            PushItem::Axis(a) => if self.axisregistry@.contains_key(a.tag@) {
                Some(PushItem::Axis(self.axisregistry@[a.tag@]))
            } else {
                None
            },
            PushItem::AxisFallback(_) => None,
        }
    }

    /// Whether the server holds `item` as it is: the item under its key is equal to it.
    pub open spec fn holds_item(self, item: PushItem) -> bool {
        self.stored_item(item) matches Some(x) && push_item_eq(x, item)
    }

    /// A copy of the item that the server holds under the key of `item`.
    pub fn find_item(&self, item: &PushItem) -> (r: Option<PushItem>)
        requires
            self.wf(),
        ensures
            r is Some <==> self.stored_item(*item) is Some,
            r matches Some(x) ==> same_item(x, self.stored_item(*item)->Some_0),
    {
        match item {
            PushItem::Family(family) => match self.families.get(family.name.as_str()) {
                Some(x) => Some(PushItem::Family(x.clone())),
                None => None,
            },
            PushItem::Designer(designer) => match self.designers.get(designer.name.as_str()) {
                Some(x) => Some(PushItem::Designer(x.clone())),
                None => None,
            },
            PushItem::FamilyMeta(family_meta) => match self.family_meta.get(family_meta.name.as_str()) {
                Some(x) => Some(PushItem::FamilyMeta(x.clone())),
                None => None,
            },
            PushItem::Axis(axis) => match self.axisregistry.get(axis.tag.as_str()) {
                Some(x) => Some(PushItem::Axis(x.clone())),
                None => None,
            },
            PushItem::AxisFallback(_) => None,
        }
    }

    /// Whether the server already holds `item` as it is.
    pub fn compare_push_item(&self, item: &PushItem) -> (r: bool)
        requires
            self.wf(),
        ensures
            r == self.holds_item(*item),
    {
        match self.find_item(item) {
            Some(found) => found.same_as(item),
            None => false,
        }
    }

    /// The error that the server does not answer at its URL.
    pub fn offline_error(&self) -> (r: GftoolsError)
        ensures
            r.misc_message() == Some("Server "@ + self.name@ + " is offline"@),
    {
        let msg = String::from_str("Server ").concat(self.name.as_str()).concat(" is offline");
        GftoolsError::Misc(msg)
    }

    /// Whether `self` and `other` are the same server with the same manifest.
    pub open spec fn same_origin(self, other: GfServer) -> bool {
        &&& self.name == other.name
        &&& self.url == other.url
        &&& self.dl_url == other.dl_url
        &&& self.version_url == other.version_url
        &&& self._family_versions_data == other._family_versions_data
        &&& self._family_versions == other._family_versions
    }

    /// Whether `self` is the server `before` with entries stored in its maps and none taken
    /// out: the same server with the same manifest, whose families, designers, family metadata
    /// and axes keep every key they had.
    pub open spec fn grows_from(self, before: GfServer) -> bool {
        &&& self.same_origin(before)
        &&& before.families@.dom().subset_of(self.families@.dom())
        &&& before.designers@.dom().subset_of(self.designers@.dom())
        &&& before.family_meta@.dom().subset_of(self.family_meta@.dom())
        &&& before.axisregistry@.dom().subset_of(self.axisregistry@.dom())
    }

    /// Stores the axes of the registry `axis_data` under their tags. `parsed` holds, in order,
    /// the axis that each element of `axis_data` reads as, or the reason it reads as none; the
    /// axes are stored up to the first element that reads as none, which fails the update.
    /// `axis_data` must be an array.
    pub fn update_axis_registry(&mut self, axis_data: &Json, parsed: Vec<Result<Axis, String>>) -> (r: Result<(), GftoolsError>)
        requires
            old(self).wf(),
            axis_data.array_spec() matches Some(elements) ==> parsed@.len() == elements.len(),
        ensures
            final(self).wf(),
            final(self).grows_from(*old(self)),
            final(self).families == old(self).families,
            final(self).designers == old(self).designers,
            final(self).family_meta == old(self).family_meta,
            match axis_data.array_spec() {
                None => {
                    &&& r matches Err(e) && e.misc_message() == Some(
                        "Failed to parse axis registry data: "@ + crate::json::json_display(*axis_data),
                    )
                    &&& final(self).axisregistry == old(self).axisregistry
                },
                Some(elements) => {
                    &&& final(self).axisregistry@ == axes_applied(old(self).axisregistry@, parsed@)
                    &&& match first_failure(parsed@) {
                        None => r is Ok,
                        Some((i, e)) => r matches Err(x) && x.misc_message() == Some(
                            "Failed to parse axis data for "@ + crate::json::json_pretty_debug(elements[i]) + ": "@ + e,
                        ),
                    }
                },
            },
    {
        let elements = match axis_data.as_array() {
            Some(a) => a,
            None => {
                let msg = String::from_str("Failed to parse axis registry data: ");
                let data = crate::json::json_text(axis_data);
                return Err(GftoolsError::Misc(msg.concat(data.as_str())));
            },
        };
        let n = elements.len();
        let mut rest = parsed;
        let mut done: usize = 0;
        while rest.len() > 0
            invariant
                n == elements@.len(),
                self.wf(),
                self.same_origin(*old(self)),
                self.families == old(self).families,
                self.designers == old(self).designers,
                self.family_meta == old(self).family_meta,
                done + rest@.len() == parsed@.len(),
                parsed@.len() == elements@.len(),
                axis_data.array_spec() == Some(elements@),
                axes_applied(old(self).axisregistry@, parsed@) == axes_applied(self.axisregistry@, rest@),
                first_failure(parsed@) == shift_failure(first_failure(rest@), done as int),
                old(self).axisregistry@.dom().subset_of(self.axisregistry@.dom()),
            decreases rest@.len(),
        {
            let ghost before = rest@;
            let next = rest.remove(0);
            assert(rest@ =~= before.drop_first());
            match next {
                Ok(axis) => {
                    let tag = axis.tag.clone();
                    self.axisregistry.insert(tag, axis);
                    done = done + 1;
                },
                Err(e) => {
                    assert(first_failure(before) == Some((0int, e@)));
                    let msg = String::from_str("Failed to parse axis data for ");
                    let shown = crate::json::json_pretty_debug_text(&elements[done]);
                    let msg = msg.concat(shown.as_str()).concat(": ").concat(e.as_str());
                    return Err(GftoolsError::Misc(msg));
                },
            }
        }
        proof {
            lemma_axes_applied_keeps(old(self).axisregistry@, parsed@);
        }
        Ok(())
    }

    /// Records the version of the family `name` that the manifest lists. A family that the
    /// manifest does not list would have to be looked up on the server by name, which is not
    /// available, so the manifest must list `name`.
    pub fn update_family(&mut self, name: &str) -> (r: Result<(), GftoolsError>)
        requires
            old(self).wf(),
            old(self).family_versions().contains_key(name@),
        ensures
            r is Ok,
            final(self).wf(),
            final(self).grows_from(*old(self)),
            final(self).designers == old(self).designers,
            final(self).family_meta == old(self).family_meta,
            final(self).axisregistry == old(self).axisregistry,
            final(self).families@.contains_key(name@),
            final(self).families@[name@]@ == (crate::push::items::FamilyView {
                name: name@,
                version: old(self).family_versions()[name@],
            }),
            forall|k: Seq<char>| k != name@ ==> #[trigger] final(self).families@.contains_key(k)
                == old(self).families@.contains_key(k) && (old(self).families@.contains_key(k)
                ==> final(self).families@[k] == old(self).families@[k]),
    {
        let version = self._family_versions.get(name).unwrap();
        let family = Family { name: String::from_str(name), version: version.clone() };
        self.families.insert(String::from_str(name), family);
        Ok(())
    }

    /// Stores the designers of a family's metadata `meta` under their names. `parsed` holds, in
    /// order, the designer that each element of the "designers" of `meta` reads as, or the
    /// reason it reads as none; the designers are stored up to the first element that reads as
    /// none, which fails the update. The "designers" of `meta` must be an array.
    pub fn update_family_designers(&mut self, meta: &Json, parsed: Vec<Result<Designer, String>>) -> (r: Result<(), GftoolsError>)
        requires
            old(self).wf(),
            designers_of(*meta) matches Some(elements) ==> parsed@.len() == elements.len(),
        ensures
            final(self).wf(),
            final(self).grows_from(*old(self)),
            final(self).families == old(self).families,
            final(self).family_meta == old(self).family_meta,
            final(self).axisregistry == old(self).axisregistry,
            match designers_of(*meta) {
                None => {
                    &&& r matches Err(e) && e.misc_message() == Some(
                        "Failed to parse designers data: "@ + crate::json::json_display(*meta),
                    )
                    &&& final(self).designers == old(self).designers
                },
                Some(elements) => {
                    &&& final(self).designers@ == designers_applied(old(self).designers@, parsed@)
                    &&& match first_failure(parsed@) {
                        None => r is Ok,
                        Some((i, e)) => r matches Err(x) && x.misc_message() == Some(
                            "Failed to parse designer data for "@ + opt_json_debug(elements[i].get_spec("name"@)) + ": "@ + e,
                        ),
                    }
                },
            },
    {
        let listed = match meta.get("designers") {
            Some(d) => d.as_array(),
            None => None,
        };
        let elements = match listed {
            Some(a) => a,
            None => {
                let msg = String::from_str("Failed to parse designers data: ");
                let data = crate::json::json_text(meta);
                return Err(GftoolsError::Misc(msg.concat(data.as_str())));
            },
        };
        let n = elements.len();
        let mut rest = parsed;
        let mut done: usize = 0;
        while rest.len() > 0
            invariant
                n == elements@.len(),
                self.wf(),
                self.same_origin(*old(self)),
                self.families == old(self).families,
                self.family_meta == old(self).family_meta,
                self.axisregistry == old(self).axisregistry,
                done + rest@.len() == parsed@.len(),
                parsed@.len() == elements@.len(),
                designers_of(*meta) == Some(elements@),
                designers_applied(old(self).designers@, parsed@) == designers_applied(self.designers@, rest@),
                first_failure(parsed@) == shift_failure(first_failure(rest@), done as int),
                old(self).designers@.dom().subset_of(self.designers@.dom()),
            decreases rest@.len(),
        {
            let ghost before = rest@;
            let next = rest.remove(0);
            assert(rest@ =~= before.drop_first());
            match next {
                Ok(designer) => {
                    let name = designer.name.clone();
                    self.designers.insert(name, designer);
                    done = done + 1;
                },
                Err(e) => {
                    assert(first_failure(before) == Some((0int, e@)));
                    let shown = match elements[done].get("name") {
                        Some(v) => String::from_str("Some(").concat(crate::json::json_debug_text(v).as_str()).concat(")"),
                        None => String::from_str("None"),
                    };
                    let msg = String::from_str("Failed to parse designer data for ");
                    let msg = msg.concat(shown.as_str()).concat(": ").concat(e.as_str());
                    return Err(GftoolsError::Misc(msg));
                },
            }
        }
        proof {
            lemma_designers_applied_keeps(old(self).designers@, parsed@);
        }
        Ok(())
    }

    /// Stores the metadata of the family `name`, as its JSON read (or failed to read) in
    /// `parsed`.
    pub fn update_metadata(&mut self, name: &str, parsed: Result<FamilyMeta, String>) -> (r: Result<(), GftoolsError>)
        requires
            old(self).wf(),
        ensures
            final(self).wf(),
            final(self).grows_from(*old(self)),
            final(self).families == old(self).families,
            final(self).designers == old(self).designers,
            final(self).axisregistry == old(self).axisregistry,
            match parsed {
                Ok(m) => r is Ok && final(self).family_meta@ == old(self).family_meta@.insert(name@, m),
                Err(e) => (r matches Err(GftoolsError::JsonParse(x)) && x@ == e@) && final(self).family_meta
                    == old(self).family_meta,
            },
    {
        match parsed {
            Ok(meta) => {
                self.family_meta.insert(String::from_str(name), meta);
                Ok(())
            },
            Err(e) => Err(GftoolsError::JsonParse(e)),
        }
    }

    /// The version of the family `name` that the manifest lists.
    pub open spec fn listed_version(self, name: Seq<char>) -> Option<Seq<char>> {
        if self.family_versions().contains_key(name) {
            Some(self.family_versions()[name])
        } else {
            None
        }
    }

    /// The version of the family `name` that the server holds.
    pub open spec fn held_version(self, name: Seq<char>) -> Option<Seq<char>> {
        if self.families@.contains_key(name) {
            Some(self.families@[name].version@)
        } else {
            None
        }
    }

    /// Whether the family `name`, last modified on `modified`, is to be updated after a check on
    /// `last_checked`: the version that the manifest lists is not the one held, or the family
    /// changed since the check.
    pub open spec fn needs_update(self, name: Seq<char>, modified: Date, last_checked: Date) -> bool {
        self.listed_version(name) != self.held_version(name) || date_after(modified, last_checked)
    }

    /// The members of the server's metadata, whose text is `text`: an error of the JSON reader
    /// as it is, or the error that the document is no object.
    pub fn read_manifest(text: &str) -> (r: Result<Vec<(String, Json)>, GftoolsError>)
        ensures
            match json_path_parse(text@) {
                Err(m) => r matches Err(GftoolsError::JsonParse(x)) && x@ == m,
                Ok(j) => match j {
                    Json::Object(members) => r matches Ok(x) && x@ == members@,
                    _ => r matches Err(e) && e.misc_message() == Some("Failed to parse JSON response: "@ + text@),
                },
            },
            r matches Ok(x) ==> crate::json::distinct_names(x@),
    {
        match parse_json_with_path(text) {
            Ok(Json::Object(members)) => Ok(members),
            Ok(_) => {
                let msg = String::from_str("Failed to parse JSON response: ");
                Err(GftoolsError::Misc(msg.concat(text)))
            },
            Err(e) => Err(GftoolsError::JsonParse(e)),
        }
    }

    /// The registry of axes among the members `meta` of the server's metadata.
    pub fn manifest_axis_registry(meta: &Vec<(String, Json)>) -> (r: Result<&Json, GftoolsError>)
        ensures
            match member(meta@, "axisRegistry"@) {
                Some(a) => r matches Ok(x) && *x == a,
                None => r matches Err(e) && e.misc_message() == Some(
                    "Failed to find axisRegistry in manifest: "@ + json_members_debug(meta@),
                ),
            },
    {
        match crate::json::object_get(meta, "axisRegistry") {
            Some(a) => Ok(a),
            None => {
                let msg = String::from_str("Failed to find axisRegistry in manifest: ");
                Err(GftoolsError::Misc(msg.concat(json_members_debug_text(meta).as_str())))
            },
        }
    }

    /// The families that the members `meta` of the server's metadata list, taken out of them.
    pub fn manifest_family_list(meta: Vec<(String, Json)>) -> (r: Result<Vec<Json>, GftoolsError>)
        ensures
            match member(meta@, "familyMetadataList"@) {
                None => r matches Err(e) && e.misc_message() == Some(
                    "Failed to find familyMetadataList in manifest: "@ + json_members_debug(meta@),
                ),
                Some(Json::Array(a)) => r matches Ok(x) && x@ == a@,
                Some(_) => r matches Err(e) && e.misc_message() == Some(
                    "Failed to parse familyMetadataList data: "@ + json_members_debug(meta@),
                ),
            },
    {
        let mut meta = meta;
        match crate::json::member_index(&meta, "familyMetadataList") {
            Some(i) => {
                let is_array = match &meta[i].1 {
                    Json::Array(_) => true,
                    _ => false,
                };
                if !is_array {
                    let msg = String::from_str("Failed to parse familyMetadataList data: ");
                    return Err(GftoolsError::Misc(msg.concat(json_members_debug_text(&meta).as_str())));
                }
                let (_, list) = meta.remove(i);
                match list {
                    Json::Array(a) => Ok(a),
                    _ => Err(GftoolsError::Misc(String::from_str("Failed to parse familyMetadataList data: "))),
                }
            },
            None => {
                let msg = String::from_str("Failed to find familyMetadataList in manifest: ");
                Err(GftoolsError::Misc(msg.concat(json_members_debug_text(&meta).as_str())))
            },
        }
    }

    /// What the server makes of one entry `family_data` of its metadata's family list after a
    /// check on `last_checked`: the family's name when the family is to be updated, `None` when
    /// not, or the error that the entry does not say.
    pub open spec fn family_decision(self, family_data: Json, last_checked: Date) -> Result<Option<Seq<char>>, Seq<char>> {
        match family_data {
            Json::Object(m) => match opt_str(member(m@, "family"@)) {
                None => Err("Failed to parse family name: "@ + json_members_debug(m@)),
                Some(name) => match opt_str(member(m@, "lastModified"@)) {
                    None => Err("Failed to parse lastModified: "@ + json_members_debug(m@)),
                    Some(modified) => match naive_date_parse(modified, "%Y-%m-%d"@) {
                        Err(e) => Err("Failed to parse lastModified: "@ + e),
                        Ok(d) => if self.needs_update(name, Date { year: d.0, month: d.1, day: d.2 }, last_checked) {
                            Ok(Some(name))
                        } else {
                            Ok(None)
                        },
                    },
                },
            },
            _ => Err("Failed to parse familyMetadataList data: "@ + crate::json::json_display(family_data)),
        }
    }

    /// Decides, for one entry `family_data` of the metadata's family list, whether its family is
    /// to be updated after a check on `last_checked`; gives the family's name when it is.
    pub fn family_needs_update(&self, family_data: &Json, last_checked: &Date) -> (r: Result<Option<String>, GftoolsError>)
        requires
            self.wf(),
        ensures
            match self.family_decision(*family_data, *last_checked) {
                Ok(Some(n)) => r matches Ok(Some(x)) && x@ == n,
                Ok(None) => r matches Ok(None),
                Err(m) => r matches Err(e) && e.misc_message() == Some(m),
            },
    {
        let m = match family_data {
            Json::Object(m) => m,
            _ => {
                let msg = String::from_str("Failed to parse familyMetadataList data: ");
                return Err(GftoolsError::Misc(msg.concat(crate::json::json_text(family_data).as_str())));
            },
        };
        let name = match crate::json::object_get(m, "family") {
            Some(Json::String(n)) => n,
            _ => {
                let msg = String::from_str("Failed to parse family name: ");
                return Err(GftoolsError::Misc(msg.concat(json_members_debug_text(m).as_str())));
            },
        };
        let modified_str = match crate::json::object_get(m, "lastModified") {
            Some(Json::String(d)) => d,
            _ => {
                let msg = String::from_str("Failed to parse lastModified: ");
                return Err(GftoolsError::Misc(msg.concat(json_members_debug_text(m).as_str())));
            },
        };
        let modified = match parse_naive_date(modified_str.as_str(), "%Y-%m-%d") {
            Ok(d) => Date { year: d.0, month: d.1, day: d.2 },
            Err(e) => {
                let msg = String::from_str("Failed to parse lastModified: ");
                return Err(GftoolsError::Misc(msg.concat(e.as_str())));
            },
        };
        let listed: Option<String> = match self._family_versions.get(name.as_str()) {
            Some(v) => Some(v.clone()),
            None => None,
        };
        let held: Option<String> = match self.families.get(name.as_str()) {
            Some(f) => Some(f.version.clone()),
            None => None,
        };
        if !crate::text::opt_string_eq(&listed, &held) || modified.is_after(last_checked) {
            Ok(Some(name.clone()))
        } else {
            Ok(None)
        }
    }

    /// The time of the server's last push, in UTC, or the message of the error that it cannot
    /// be found.
    pub open spec fn last_push_spec(self) -> Result<DateTime, Seq<char>> {
        match last_update_seconds(self._family_versions_data@) {
            None => Err("Failed to find lastUpdate in manifest: "@ + json_members_debug(self._family_versions_data@)),
            Some(secs) => match utc_timestamp(secs) {
                Some(t) => Ok(t),
                None => Err("Failed to parse lastUpdate timestamp: "@ + decimal_text(secs as int)),
            },
        }
    }

    /// The time of the server's last push, in UTC: the "seconds" of the "lastUpdate" of its
    /// manifest.
    pub fn last_push(&self) -> (r: Result<DateTime, GftoolsError>)
        ensures
            match self.last_push_spec() {
                Ok(t) => r == Ok::<DateTime, GftoolsError>(t) && t.valid(),
                Err(m) => r matches Err(e) && e.misc_message() == Some(m),
            },
    {
        let seconds = match crate::json::object_get(&self._family_versions_data, "lastUpdate") {
            Some(v) => match v.get("seconds") {
                Some(s) => s.as_i64(),
                None => None,
            },
            None => None,
        };
        let timestamp = match seconds {
            Some(t) => t,
            None => {
                let msg = String::from_str("Failed to find lastUpdate in manifest: ");
                let data = json_members_debug_text(&self._family_versions_data);
                return Err(GftoolsError::Misc(msg.concat(data.as_str())));
            },
        };
        match utc_from_timestamp(timestamp) {
            Some(t) => Ok(t),
            None => {
                let msg = String::from_str("Failed to parse lastUpdate timestamp: ");
                let number = crate::text::decimal_string(timestamp);
                Err(GftoolsError::Misc(msg.concat(number.as_str())))
            },
        }
    }
}

/// Where a run of `update_all` over the family list of a server's metadata stands: the entries
/// of the list, the position of the next one to look at, and the date of the last check.
#[derive(Debug)]
pub struct FamilyRun {
    pub families: Vec<Json>,
    pub next: usize,
    pub last_checked: Date,
}

impl GfServer {
    /// The first entry of `families`, from the position `from` on, that the server decides
    /// anything other than "no update" for, with that decision; past the end, the end and
    /// "no update".
    pub open spec fn pending_from(self, families: Seq<Json>, from: int, last_checked: Date) -> (int, Result<Option<Seq<char>>, Seq<char>>)
        decreases families.len() - from,
    {
        if from < 0 || from >= families.len() {
            (families.len() as int, Ok(None))
        } else {
            match self.family_decision(families[from], last_checked) {
                Ok(None) => self.pending_from(families, from + 1, last_checked),
                d => (from, d),
            }
        }
    }
}

impl FamilyRun {
    /// Looks at the entries from the next one on and stops at the first family that `server`
    /// is to update, giving its name, or at the first entry that fails; `None` when the list
    /// is done. The run then goes on after that entry.
    pub fn next_family(&mut self, server: &GfServer) -> (r: Result<Option<String>, GftoolsError>)
        requires
            server.wf(),
        ensures
            final(self).families == old(self).families,
            final(self).last_checked == old(self).last_checked,
            old(self).next < final(self).next <= final(self).families@.len() || final(self).next == final(self).families@.len(),
            ({
                let (j, d) = server.pending_from(old(self).families@, old(self).next as int, old(self).last_checked);
                &&& final(self).next == if j < old(self).families@.len() { j + 1 } else { old(self).families@.len() as int }
                &&& match d {
                    Ok(Some(n)) => r matches Ok(Some(x)) && x@ == n,
                    Ok(None) => r matches Ok(None),
                    Err(m) => r matches Err(e) && e.misc_message() == Some(m),
                }
            }),
    {
        let ghost start = self.next as int;
        proof {
            lemma_pending_from(*server, self.families@, start, self.last_checked);
        }
        if self.next > self.families.len() {
            self.next = self.families.len();
            return Ok(None);
        }
        while self.next < self.families.len()
            invariant
                self.families == old(self).families,
                self.last_checked == old(self).last_checked,
                server.wf(),
                start == old(self).next,
                start <= self.next <= self.families@.len(),
                server.pending_from(self.families@, start, self.last_checked) == server.pending_from(
                    self.families@,
                    self.next as int,
                    self.last_checked,
                ),
            decreases self.families@.len() - self.next,
        {
            let i = self.next;
            let d = server.family_needs_update(&self.families[i], &self.last_checked);
            self.next = i + 1;
            match d {
                Ok(None) => {},
                Ok(Some(n)) => {
                    return Ok(Some(n));
                },
                Err(e) => {
                    return Err(e);
                },
            }
        }
        Ok(None)
    }
}

/// Whether none of the numbers of an item is a NaN.
pub open spec fn no_nan(item: PushItem) -> bool {
    match item {
        PushItem::Axis(a) => {
            &&& !crate::push::items::is_nan(a.min_value.bits)
            &&& !crate::push::items::is_nan(a.default_value.bits)
            &&& !crate::push::items::is_nan(a.max_value.bits)
            &&& !crate::push::items::is_nan(a.precision.bits)
            &&& forall|i: int| 0 <= i < a.fallback@.len() ==> !crate::push::items::is_nan(#[trigger] a.fallback@[i].value.bits)
        },
        PushItem::AxisFallback(f) => !crate::push::items::is_nan(f.value.bits),
        _ => true,
    }
}

/// Which families an update of a server decides to update: for an entry that names a family
/// and a last-modified date that reads as a date, the family is updated exactly when the
/// version that the manifest lists for it and the version that the server holds differ (one is
/// there and the other not, or both are and are not the same), or the date comes after the
/// last check (a later year, or the same year and a later month, or the same month and a
/// later day).
pub proof fn lemma_family_decision(s: GfServer, family_data: Json, last_checked: Date, name: String, modified: String)
    requires
        family_data matches Json::Object(m) && member(m@, "family"@) == Some(Json::String(name)) && member(m@, "lastModified"@)
            == Some(Json::String(modified)),
        naive_date_parse(modified@, "%Y-%m-%d"@) is Ok,
    ensures
        ({
            let d = naive_date_parse(modified@, "%Y-%m-%d"@)->Ok_0;
            let listed = s.family_versions().contains_key(name@);
            let held = s.families@.contains_key(name@);
            let changed = listed != held || (listed && held && s.family_versions()[name@] != s.families@[name@].version@);
            let later = d.0 > last_checked.year || (d.0 == last_checked.year && (d.1 > last_checked.month || (d.1
                == last_checked.month && d.2 > last_checked.day)));
            s.family_decision(family_data, last_checked) == if changed || later {
                Ok::<Option<Seq<char>>, Seq<char>>(Some(name@))
            } else {
                Ok::<Option<Seq<char>>, Seq<char>>(None)
            }
        }),
{
}

/// A run over a family list stops at the right entry: every entry that it passes over, from
/// where it starts, is decided "no update"; the entry where it stops is decided as it says and
/// not "no update"; and where it runs to the end, it says "no update".
pub proof fn lemma_pending_from(s: GfServer, families: Seq<Json>, from: int, last_checked: Date)
    requires
        0 <= from,
    ensures
        ({
            let (j, d) = s.pending_from(families, from, last_checked);
            &&& forall|i: int| from <= i < j && i < families.len() ==> #[trigger] s.family_decision(families[i], last_checked)
                == Ok::<Option<Seq<char>>, Seq<char>>(None)
            &&& (j < families.len() ==> from <= j && s.family_decision(families[j], last_checked) == d && d
                != Ok::<Option<Seq<char>>, Seq<char>>(None))
            &&& (j >= families.len() ==> j == families.len() && d == Ok::<Option<Seq<char>>, Seq<char>>(None))
        }),
    decreases families.len() - from,
{
    if from < families.len() {
        if s.family_decision(families[from], last_checked) == Ok::<Option<Seq<char>>, Seq<char>>(None) {
            lemma_pending_from(s, families, from + 1, last_checked);
        }
    }
}

/// Storing parsed axes, when none fails, leaves each tag with the last axis parsed for it, and
/// every other tag as it was.
pub proof fn lemma_axes_applied_stores_last(m: Map<Seq<char>, Axis>, parsed: Seq<Result<Axis, String>>)
    requires
        forall|i: int| 0 <= i < parsed.len() ==> (#[trigger] parsed[i]) is Ok,
    ensures
        forall|i: int| 0 <= i < parsed.len() && (forall|j: int| i < j < parsed.len() ==> (#[trigger] parsed[j])->Ok_0.tag@
            != parsed[i]->Ok_0.tag@) ==> {
            &&& axes_applied(m, parsed).contains_key((#[trigger] parsed[i])->Ok_0.tag@)
            &&& axes_applied(m, parsed)[parsed[i]->Ok_0.tag@] == parsed[i]->Ok_0
        },
        forall|k: Seq<char>| (forall|j: int| 0 <= j < parsed.len() ==> (#[trigger] parsed[j])->Ok_0.tag@ != k) ==> {
            &&& #[trigger] axes_applied(m, parsed).contains_key(k) == m.contains_key(k)
            &&& m.contains_key(k) ==> axes_applied(m, parsed)[k] == m[k]
        },
    decreases parsed.len(),
{
    if parsed.len() > 0 {
        let a = parsed[0]->Ok_0;
        let rest = parsed.drop_first();
        assert forall|i: int| 0 <= i < rest.len() implies (#[trigger] rest[i]) is Ok by {
            assert(parsed[i + 1] is Ok);
        }
        lemma_axes_applied_stores_last(m.insert(a.tag@, a), rest);
        assert(axes_applied(m, parsed) == axes_applied(m.insert(a.tag@, a), rest));
        assert forall|i: int| 0 <= i < parsed.len() && (forall|j: int| i < j < parsed.len() ==> (#[trigger] parsed[j])->Ok_0.tag@
            != parsed[i]->Ok_0.tag@) implies {
            &&& axes_applied(m, parsed).contains_key((#[trigger] parsed[i])->Ok_0.tag@)
            &&& axes_applied(m, parsed)[parsed[i]->Ok_0.tag@] == parsed[i]->Ok_0
        } by {
            if i == 0 {
                assert forall|j: int| 0 <= j < rest.len() implies (#[trigger] rest[j])->Ok_0.tag@ != a.tag@ by {
                    assert(parsed[j + 1] == rest[j]);
                }
            } else {
                assert(rest[i - 1] == parsed[i]);
                assert forall|j: int| i - 1 < j < rest.len() implies (#[trigger] rest[j])->Ok_0.tag@ != rest[i - 1]->Ok_0.tag@ by {
                    assert(parsed[j + 1] == rest[j]);
                }
            }
        }
        assert forall|k: Seq<char>| (forall|j: int| 0 <= j < parsed.len() ==> (#[trigger] parsed[j])->Ok_0.tag@ != k) implies {
            &&& #[trigger] axes_applied(m, parsed).contains_key(k) == m.contains_key(k)
            &&& m.contains_key(k) ==> axes_applied(m, parsed)[k] == m[k]
        } by {
            assert(parsed[0]->Ok_0.tag@ != k);
            assert forall|j: int| 0 <= j < rest.len() implies (#[trigger] rest[j])->Ok_0.tag@ != k by {
                assert(parsed[j + 1] == rest[j]);
            }
        }
    }
}

/// Storing parsed axes stops at the first failure: what it comes to is what the axes before
/// that failure come to, and nothing after it counts.
pub proof fn lemma_axes_applied_stops_at_failure(m: Map<Seq<char>, Axis>, parsed: Seq<Result<Axis, String>>, f: int)
    requires
        0 <= f < parsed.len(),
        parsed[f] is Err,
        forall|j: int| 0 <= j < f ==> (#[trigger] parsed[j]) is Ok,
    ensures
        axes_applied(m, parsed) == axes_applied(m, parsed.take(f)),
    decreases f,
{
    if f > 0 {
        let a = parsed[0]->Ok_0;
        let rest = parsed.drop_first();
        assert forall|j: int| 0 <= j < f - 1 implies (#[trigger] rest[j]) is Ok by {
            assert(parsed[j + 1] is Ok);
        }
        lemma_axes_applied_stops_at_failure(m.insert(a.tag@, a), rest, f - 1);
        assert(parsed.take(f).drop_first() =~= rest.take(f - 1));
    } else {
        assert(parsed.take(0) =~= Seq::<Result<Axis, String>>::empty());
    }
}

/// Storing parsed designers, when none fails, leaves each name with the last designer parsed
/// for it, and every other name as it was.
pub proof fn lemma_designers_applied_stores_last(m: Map<Seq<char>, Designer>, parsed: Seq<Result<Designer, String>>)
    requires
        forall|i: int| 0 <= i < parsed.len() ==> (#[trigger] parsed[i]) is Ok,
    ensures
        forall|i: int| 0 <= i < parsed.len() && (forall|j: int| i < j < parsed.len() ==> (#[trigger] parsed[j])->Ok_0.name@
            != parsed[i]->Ok_0.name@) ==> {
            &&& designers_applied(m, parsed).contains_key((#[trigger] parsed[i])->Ok_0.name@)
            &&& designers_applied(m, parsed)[parsed[i]->Ok_0.name@] == parsed[i]->Ok_0
        },
        forall|k: Seq<char>| (forall|j: int| 0 <= j < parsed.len() ==> (#[trigger] parsed[j])->Ok_0.name@ != k) ==> {
            &&& #[trigger] designers_applied(m, parsed).contains_key(k) == m.contains_key(k)
            &&& m.contains_key(k) ==> designers_applied(m, parsed)[k] == m[k]
        },
    decreases parsed.len(),
{
    if parsed.len() > 0 {
        let a = parsed[0]->Ok_0;
        let rest = parsed.drop_first();
        assert forall|i: int| 0 <= i < rest.len() implies (#[trigger] rest[i]) is Ok by {
            assert(parsed[i + 1] is Ok);
        }
        lemma_designers_applied_stores_last(m.insert(a.name@, a), rest);
        assert(designers_applied(m, parsed) == designers_applied(m.insert(a.name@, a), rest));
        assert forall|i: int| 0 <= i < parsed.len() && (forall|j: int| i < j < parsed.len() ==> (#[trigger] parsed[j])->Ok_0.name@
            != parsed[i]->Ok_0.name@) implies {
            &&& designers_applied(m, parsed).contains_key((#[trigger] parsed[i])->Ok_0.name@)
            &&& designers_applied(m, parsed)[parsed[i]->Ok_0.name@] == parsed[i]->Ok_0
        } by {
            if i == 0 {
                assert forall|j: int| 0 <= j < rest.len() implies (#[trigger] rest[j])->Ok_0.name@ != a.name@ by {
                    assert(parsed[j + 1] == rest[j]);
                }
            } else {
                assert(rest[i - 1] == parsed[i]);
                assert forall|j: int| i - 1 < j < rest.len() implies (#[trigger] rest[j])->Ok_0.name@ != rest[i - 1]->Ok_0.name@ by {
                    assert(parsed[j + 1] == rest[j]);
                }
            }
        }
        assert forall|k: Seq<char>| (forall|j: int| 0 <= j < parsed.len() ==> (#[trigger] parsed[j])->Ok_0.name@ != k) implies {
            &&& #[trigger] designers_applied(m, parsed).contains_key(k) == m.contains_key(k)
            &&& m.contains_key(k) ==> designers_applied(m, parsed)[k] == m[k]
        } by {
            assert(parsed[0]->Ok_0.name@ != k);
            assert forall|j: int| 0 <= j < rest.len() implies (#[trigger] rest[j])->Ok_0.name@ != k by {
                assert(parsed[j + 1] == rest[j]);
            }
        }
    }
}

/// Storing parsed designers stops at the first failure: what it comes to is what the designers
/// before that failure come to, and nothing after it counts.
pub proof fn lemma_designers_applied_stops_at_failure(m: Map<Seq<char>, Designer>, parsed: Seq<Result<Designer, String>>, f: int)
    requires
        0 <= f < parsed.len(),
        parsed[f] is Err,
        forall|j: int| 0 <= j < f ==> (#[trigger] parsed[j]) is Ok,
    ensures
        designers_applied(m, parsed) == designers_applied(m, parsed.take(f)),
    decreases f,
{
    if f > 0 {
        let a = parsed[0]->Ok_0;
        let rest = parsed.drop_first();
        assert forall|j: int| 0 <= j < f - 1 implies (#[trigger] rest[j]) is Ok by {
            assert(parsed[j + 1] is Ok);
        }
        lemma_designers_applied_stops_at_failure(m.insert(a.name@, a), rest, f - 1);
        assert(parsed.take(f).drop_first() =~= rest.take(f - 1));
    } else {
        assert(parsed.take(0) =~= Seq::<Result<Designer, String>>::empty());
    }
}

/// The version that a manifest records for a family is the "version" of the first element of
/// the "fontVersions" of the last entry that names the family: for an entry whose "name" is the
/// string `name` and whose "fontVersions" is an array whose first element has the string
/// "version" `version`, where no later entry names `name`, the family gets `version`.
pub proof fn lemma_family_version_recorded(items: Seq<Json>, i: int, name: Seq<char>, version: Seq<char>)
    requires
        0 <= i < items.len(),
        items[i].get_spec("name"@) matches Some(Json::String(n)) && n@ == name,
        items[i].get_spec("fontVersions"@) matches Some(Json::Array(fv)) && fv@.len() > 0 && (fv@[0].get_spec("version"@) matches Some(
            Json::String(v),
        ) && v@ == version),
        forall|j: int| i < j < items.len() ==> opt_str((#[trigger] items[j]).get_spec("name"@)) != Some(name),
    ensures
        family_versions_of(items).contains_key(name),
        family_versions_of(items)[name] == version,
    decreases items.len(),
{
    let last = items.len() - 1;
    if i < last {
        assert forall|j: int| i < j < items.drop_last().len() implies opt_str((#[trigger] items.drop_last()[j]).get_spec("name"@))
            != Some(name) by {
            assert(items.drop_last()[j] == items[j]);
        }
        assert(items.drop_last()[i] == items[i]);
        lemma_family_version_recorded(items.drop_last(), i, name, version);
        assert(opt_str(items[last].get_spec("name"@)) != Some(name));
    }
}

/// A family that no entry of a manifest names gets no version.
pub proof fn lemma_family_version_absent(items: Seq<Json>, name: Seq<char>)
    requires
        forall|j: int| 0 <= j < items.len() ==> opt_str((#[trigger] items[j]).get_spec("name"@)) != Some(name),
    ensures
        !family_versions_of(items).contains_key(name),
    decreases items.len(),
{
    if items.len() > 0 {
        assert forall|j: int| 0 <= j < items.drop_last().len() implies opt_str((#[trigger] items.drop_last()[j]).get_spec("name"@))
            != Some(name) by {
            assert(items.drop_last()[j] == items[j]);
        }
        lemma_family_version_absent(items.drop_last(), name);
        assert(opt_str(items[items.len() - 1].get_spec("name"@)) != Some(name));
    }
}

/// What it means for a server to hold an item as it is: a family, a designer or family
/// metadata exactly when the server stores under its name a record equal to it in every field
/// (by the records' views); an axis exactly when the axis stored under its tag is equal to it,
/// numbers as `f32`s; an axis fallback never.
pub proof fn lemma_holds_item(s: GfServer, item: PushItem)
    ensures
        item matches PushItem::Family(f) ==> (s.holds_item(item) <==> (s.families@.contains_key(f.name@)
            && s.families@[f.name@].name@ == f.name@ && s.families@[f.name@].version@ == f.version@)),
        item matches PushItem::Designer(d) ==> (s.holds_item(item) <==> (s.designers@.contains_key(d.name@)
            && s.designers@[d.name@].name@ == d.name@ && s.designers@[d.name@].bio@ == d.bio@)),
        item matches PushItem::FamilyMeta(m) ==> (s.holds_item(item) <==> (s.family_meta@.contains_key(m.name@)
            && s.family_meta@[m.name@]@ == m@)),
        item matches PushItem::Axis(a) ==> (s.holds_item(item) <==> (s.axisregistry@.contains_key(a.tag@)
            && crate::push::items::axis_eq(s.axisregistry@[a.tag@]@, a@))),
        item is AxisFallback ==> !s.holds_item(item),
{
}

/// A server holds, as it is, any item that says the same as what it stores under the item's
/// key, unless a number of the item is a NaN (which `f32` never finds equal to anything).
pub proof fn lemma_stored_item_is_held(s: GfServer, item: PushItem)
    requires
        s.stored_item(item) matches Some(x) && same_item(x, item),
        no_nan(item),
    ensures
        s.holds_item(item),
{
    let x = s.stored_item(item)->Some_0;
    match (x, item) {
        (PushItem::Axis(a), PushItem::Axis(b)) => {
            assert(a@ == b@);
            assert forall|i: int| 0 <= i < a@.fallback.len() implies #[trigger] crate::push::items::fallback_eq(
                a@.fallback[i],
                b@.fallback[i],
            ) by {
                assert(b@.fallback[i] == b.fallback@[i]@);
                assert(!crate::push::items::is_nan(b.fallback@[i].value.bits));
            }
        },
        _ => {},
    }
}

/// Once `update_family` has recorded the listed version of a family, the server holds that
/// family as the manifest lists it, and the family needs an update again only when it changes
/// after the last check.
pub proof fn lemma_updated_family_is_current(before: GfServer, after: GfServer, family: Family, modified: Date, last_checked: Date)
    requires
        before.wf(),
        after.same_origin(before),
        before.family_versions().contains_key(family.name@),
        family.version@ == before.family_versions()[family.name@],
        after.families@.contains_key(family.name@),
        after.families@[family.name@]@ == family@,
    ensures
        after.holds_item(PushItem::Family(family)),
        after.needs_update(family.name@, modified, last_checked) == date_after(modified, last_checked),
{
    assert(after.family_versions() == before.family_versions());
}

/// Metadata that `update_metadata` stored under its family's own name is held by the server as
/// it is, and so are designers stored under their own names.
pub proof fn lemma_stored_metadata_is_held(s: GfServer, meta: FamilyMeta, designer: Designer)
    requires
        s.family_meta@.contains_key(meta.name@) && s.family_meta@[meta.name@] == meta,
        s.designers@.contains_key(designer.name@) && s.designers@[designer.name@] == designer,
    ensures
        s.holds_item(PushItem::FamilyMeta(meta)),
        s.holds_item(PushItem::Designer(designer)),
{
}

/// What the cache gives for a family and server, it gives on every later lookup: across a run
/// of caches, each keeping the entries of the one before (as `record` does, whatever it is
/// handed), metadata once cached is never fetched or read again and stays as it was.
pub proof fn lemma_cached_metadata_stays(run: Seq<MetadataCache>, name: Seq<char>, url: Seq<char>)
    requires
        run.len() > 0,
        forall|i: int| 0 <= i < run.len() - 1 ==> #[trigger] run[i + 1].keeps(run[i]),
        run[0].map().contains_key((name, url)),
    ensures
        forall|i: int| 0 <= i < run.len() ==> #[trigger] run[i].map().contains_key((name, url)) && run[i].map()[(name, url)]
            == run[0].map()[(name, url)],
    decreases run.len(),
{
    if run.len() > 1 {
        let shorter = run.drop_last();
        assert forall|i: int| 0 <= i < shorter.len() - 1 implies #[trigger] shorter[i + 1].keeps(shorter[i]) by {
            assert(run[i + 1].keeps(run[i]));
        }
        lemma_cached_metadata_stays(shorter, name, url);
        let n = run.len() - 1;
        assert(shorter[n - 1].map().contains_key((name, url)));
        assert(run[(n - 1) + 1].keeps(run[n - 1]));
        assert forall|i: int| 0 <= i < run.len() implies #[trigger] run[i].map().contains_key((name, url)) && run[i].map()[(name, url)]
            == run[0].map()[(name, url)] by {
            if i < n {
                assert(shorter[i].map().contains_key((name, url)));
            }
        }
    }
}

/// No update takes anything out of a server: across a whole run of updates (as `update_all`
/// makes them: the axis registry, then for each family that needs it the family, its designers
/// and its metadata, up to the first error), in which each state grows from the one before,
/// every state grows from the first. Its name, URLs and manifest stay as they were, and its
/// families, designers, family metadata and axes keep every key they had.
pub proof fn lemma_grows_over_run(run: Seq<GfServer>)
    requires
        run.len() > 0,
        forall|i: int| 0 <= i < run.len() - 1 ==> #[trigger] run[i + 1].grows_from(run[i]),
    ensures
        forall|i: int| 0 <= i < run.len() ==> #[trigger] run[i].grows_from(run[0]),
    decreases run.len(),
{
    if run.len() > 1 {
        let shorter = run.drop_last();
        assert forall|i: int| 0 <= i < shorter.len() - 1 implies #[trigger] shorter[i + 1].grows_from(shorter[i]) by {
            assert(run[i + 1].grows_from(run[i]));
        }
        lemma_grows_over_run(shorter);
        assert forall|i: int| 0 <= i < run.len() implies #[trigger] run[i].grows_from(run[0]) by {
            if i < run.len() - 1 {
                assert(shorter[i].grows_from(shorter[0]));
            } else {
                let p = run[i - 1];
                assert(p == shorter[i - 1]);
                assert(shorter[0] == run[0]);
                assert(shorter[i - 1].grows_from(shorter[0]));
                assert(run[(i - 1) + 1].grows_from(run[i - 1]));
                assert(run[0].families@.dom().subset_of(run[i].families@.dom()));
                assert(run[0].designers@.dom().subset_of(run[i].designers@.dom()));
                assert(run[0].family_meta@.dom().subset_of(run[i].family_meta@.dom()));
                assert(run[0].axisregistry@.dom().subset_of(run[i].axisregistry@.dom()));
            }
        }
    }
}


/// Where the production server's families are downloaded from.
pub open spec fn prod_family_download() -> Seq<char> {
    "https://fonts.google.com/download?family={}"@
}

/// The three servers that a push goes through.
#[derive(Debug)]
pub enum ServerKind {
    Dev,
    Sandbox,
    Production,
}

/// The name of a server of the given kind, which also begins the names of its settings.
pub open spec fn kind_name(kind: ServerKind) -> Seq<char> {
    match kind {
        ServerKind::Dev => "dev"@,
        ServerKind::Sandbox => "sandbox"@,
        ServerKind::Production => "production"@,
    }
}

/// The message of the error for a missing setting `key`.
pub open spec fn missing_setting(key: Seq<char>) -> Seq<char> {
    "Failed to find "@ + key + " in config file"@
}

/// The text of the setting `key` among the `urls` of a configuration, when it is a string.
pub open spec fn url_setting(urls: Seq<(String, Json)>, key: Seq<char>) -> Option<Seq<char>> {
    opt_str(member(urls, key))
}

/// Where a server is: its name, its metadata URL, its download URL and its version manifest
/// URL, or the message for the first of its settings that is missing.
pub open spec fn server_urls_of(urls: Seq<(String, Json)>, kind: ServerKind) -> Result<(Seq<char>, Seq<char>, Seq<char>, Seq<char>), Seq<char>> {
    let n = kind_name(kind);
    let meta_key = n + "_meta"@;
    let download_key = n + "_family_download"@;
    let versions_key = n + "_versions"@;
    match url_setting(urls, meta_key) {
        None => Err(missing_setting(meta_key)),
        Some(meta) => {
            let download = match kind {
                ServerKind::Production => Ok(prod_family_download()),
                _ => match url_setting(urls, download_key) {
                    Some(d) => Ok(d),
                    None => Err(missing_setting(download_key)),
                },
            };
            match download {
                Err(m) => Err(m),
                Ok(d) => match url_setting(urls, versions_key) {
                    Some(v) => Ok((n, meta, d, v)),
                    None => Err(missing_setting(versions_key)),
                },
            }
        },
    }
}

/// Where a server is.
#[derive(Debug)]
pub struct ServerUrls {
    pub name: String,
    pub url: String,
    pub dl_url: String,
    pub version_url: String,
}

/// The setting `key` among the `urls`, or the error that it is missing.
fn url_setting_of(urls: &Vec<(String, Json)>, key: &str) -> (r: Result<String, GftoolsError>)
    ensures
        match url_setting(urls@, key@) {
            Some(u) => r matches Ok(s) && s@ == u,
            None => r matches Err(e) && e.misc_message() == Some(missing_setting(key@)),
        },
{
    match crate::json::object_get(urls, key) {
        Some(v) => match v.as_str() {
            Some(u) => {
                return Ok(u.clone());
            },
            None => {},
        },
        None => {},
    }
    let msg = String::from_str("Failed to find ").concat(key).concat(" in config file");
    Err(GftoolsError::Misc(msg))
}

/// The servers that a push goes through, and when they were last checked.
#[derive(Debug)]
pub struct GfServers {
    pub dev: GfServer,
    pub sandbox: GfServer,
    pub production: GfServer,
    pub last_checked: DateTime,
}

impl GfServers {
    /// The servers are well formed.
    pub open spec fn wf(self) -> bool {
        self.dev.wf() && self.sandbox.wf() && self.production.wf() && self.last_checked.valid()
    }

    /// The `urls` table of the configuration file whose text is `text`.
    pub fn config_urls(text: &str) -> (r: Result<Vec<(String, Json)>, GftoolsError>)
        ensures
            match toml_parse(text@) {
                Err(m) => r matches Err(e) && e.misc_message() == Some("Failed to parse config file: "@ + m),
                Ok(config) => match config.get_spec("urls"@) {
                    Some(Json::Object(u)) => r matches Ok(x) && x@ == u@,
                    _ => r matches Err(e) && e.misc_message() == Some("Failed to find urls in config file"@),
                },
            },
    {
        let mut table = match parse_toml(text) {
            Ok(Json::Object(m)) => m,
            Ok(_) => {
                return Err(GftoolsError::Misc(String::from_str("Failed to find urls in config file")));
            },
            Err(e) => {
                let msg = String::from_str("Failed to parse config file: ");
                return Err(GftoolsError::Misc(msg.concat(e.as_str())));
            },
        };
        match crate::json::member_index(&table, "urls") {
            Some(i) => {
                let (_, urls) = table.remove(i);
                match urls {
                    Json::Object(u) => Ok(u),
                    _ => Err(GftoolsError::Misc(String::from_str("Failed to find urls in config file"))),
                }
            },
            None => Err(GftoolsError::Misc(String::from_str("Failed to find urls in config file"))),
        }
    }

    /// Where the server of the given kind is, by the settings among `urls`: `<name>_meta`,
    /// `<name>_family_download` (the production server downloads from Google Fonts) and
    /// `<name>_versions`.
    pub fn server_urls(urls: &Vec<(String, Json)>, kind: ServerKind) -> (r: Result<ServerUrls, GftoolsError>)
        ensures
            match server_urls_of(urls@, kind) {
                Ok((n, u, d, v)) => r matches Ok(s) && s.name@ == n && s.url@ == u && s.dl_url@ == d && s.version_url@ == v,
                Err(m) => r matches Err(e) && e.misc_message() == Some(m),
            },
    {
        let name = match kind {
            ServerKind::Dev => String::from_str("dev"),
            ServerKind::Sandbox => String::from_str("sandbox"),
            ServerKind::Production => String::from_str("production"),
        };
        let meta_key = name.clone().concat("_meta");
        let url = url_setting_of(urls, meta_key.as_str())?;
        let dl_url = match kind {
            ServerKind::Production => String::from_str("https://fonts.google.com/download?family={}"),
            _ => {
                let download_key = name.clone().concat("_family_download");
                url_setting_of(urls, download_key.as_str())?
            },
        };
        let versions_key = name.clone().concat("_versions");
        let version_url = url_setting_of(urls, versions_key.as_str())?;
        Ok(ServerUrls { name, url, dl_url, version_url })
    }

    /// The times of the last pushes to the dev, sandbox and production servers, in UTC; the
    /// first server whose time cannot be found fails them all.
    pub fn last_pushes(&self) -> (r: Result<(DateTime, DateTime, DateTime), GftoolsError>)
        ensures
            match (self.dev.last_push_spec(), self.sandbox.last_push_spec(), self.production.last_push_spec()) {
                (Ok(a), Ok(b), Ok(c)) => r matches Ok(t) && t == (a, b, c),
                (Err(m), _, _) => r matches Err(e) && e.misc_message() == Some(m),
                (Ok(_), Err(m), _) => r matches Err(e) && e.misc_message() == Some(m),
                (Ok(_), Ok(_), Err(m)) => r matches Err(e) && e.misc_message() == Some(m),
            },
    {
        let a = self.dev.last_push()?;
        let b = self.sandbox.last_push()?;
        let c = self.production.last_push()?;
        Ok((a, b, c))
    }

    /// The date on which the servers were last checked.
    pub fn last_checked_date(&self) -> (r: Date)
        ensures
            r == self.last_checked.date,
    {
        self.last_checked.date
    }
}

/// The address of the metadata of the family `name` on the server at `url`, spaces in the name
/// written "%20".
pub open spec fn family_metadata_address(url: Seq<char>, name: Seq<char>) -> Seq<char> {
    url + "/"@ + crate::text::replace_all(name, " "@, "%20"@)
}

/// The address of the metadata of the family `name` on the server at `url`.
pub fn family_metadata_url(url: &str, name: &str) -> (r: String)
    ensures
        r@ == family_metadata_address(url@, name@),
{
    proof {
        reveal_strlit(" ");
    }
    let escaped = crate::text::replace_str(name, " ", "%20");
    String::from_str(url).concat("/").concat(escaped.as_str())
}

/// The JSON text of a metadata response: the response with every ")]}'" guard taken out.
pub fn strip_json_guard(text: &str) -> (r: String)
    ensures
        r@ == crate::text::replace_all(text@, ")]}'"@, ""@),
{
    proof {
        reveal_strlit(")]}'");
    }
    crate::text::replace_str(text, ")]}'", "")
}

/// The metadata of a family that a server answered `text`: the JSON of the answer once every
/// ")]}'" guard is taken out.
pub fn family_metadata_json(text: &str) -> (r: Result<Json, GftoolsError>)
    ensures
        match json_parse(crate::text::replace_all(text@, ")]}'"@, ""@)) {
            Ok(j) => r matches Ok(x) && x == j,
            Err(m) => r matches Err(e) && e.misc_message() == Some("Failed to parse JSON response: "@ + m),
        },
{
    let stripped = strip_json_guard(text);
    match parse_json(stripped.as_str()) {
        Ok(j) => Ok(j),
        Err(e) => {
            let msg = String::from_str("Failed to parse JSON response: ");
            Err(GftoolsError::Misc(msg.concat(e.as_str())))
        },
    }
}

/// The JSON text of a version manifest response: the response without its first five
/// characters, which guard it.
pub open spec fn manifest_text_of(text: Seq<char>) -> Seq<char> {
    text.subrange(if 5 <= text.len() { 5 } else { text.len() as int }, text.len() as int)
}

/// The JSON text of a version manifest response: the response without its first five
/// characters, which guard it.
pub fn manifest_json_text(text: &str) -> (r: String)
    ensures
        r@ == manifest_text_of(text@),
{
    crate::text::skip_chars(text, 5)
}

/// The family metadata already fetched, by family name and server URL.
#[derive(Debug)]
pub struct MetadataCache {
    entries: Vec<(String, String, Json)>,
}

impl MetadataCache {
    /// No two entries are for the same family and server.
    pub closed spec fn wf(self) -> bool {
        forall|i: int, j: int|
            0 <= i < self.entries@.len() && 0 <= j < self.entries@.len() && i != j
                ==> (#[trigger] self.entries@[i].0@ != #[trigger] self.entries@[j].0@ || self.entries@[i].1@ != self.entries@[j].1@)
    }

    /// The metadata fetched for each family name and server URL.
    pub closed spec fn map(self) -> Map<(Seq<char>, Seq<char>), Json> {
        Map::new(
            |k: (Seq<char>, Seq<char>)| exists|i: int| 0 <= i < self.entries@.len() && #[trigger] self.entries@[i].0@ == k.0 && self.entries@[i].1@ == k.1,
            |k: (Seq<char>, Seq<char>)| self.entries@[choose|i: int| 0 <= i < self.entries@.len() && #[trigger] self.entries@[i].0@ == k.0 && self.entries@[i].1@ == k.1].2,
        )
    }

    /// An empty cache.
    pub fn new() -> (r: Self)
        ensures
            r.wf(),
            r.map() == Map::<(Seq<char>, Seq<char>), Json>::empty(),
    {
        let r = MetadataCache { entries: Vec::new() };
        assert(r.map() =~= Map::<(Seq<char>, Seq<char>), Json>::empty());
        r
    }

    /// The metadata fetched for the family `name` from the server at `url`.
    pub fn get(&self, name: &str, url: &str) -> (r: Option<&Json>)
        requires
            self.wf(),
        ensures
            match r {
                Some(v) => self.map().contains_key((name@, url@)) && self.map()[(name@, url@)] == *v,
                None => !self.map().contains_key((name@, url@)),
            },
    {
        let mut i: usize = 0;
        while i < self.entries.len()
            invariant
                self.wf(),
                i <= self.entries@.len(),
                forall|j: int| 0 <= j < i ==> !(self.entries@[j].0@ == name@ && self.entries@[j].1@ == url@),
            decreases self.entries@.len() - i,
        {
            if crate::text::str_eq(self.entries[i].0.as_str(), name) && crate::text::str_eq(self.entries[i].1.as_str(), url) {
                proof {
                    let k = (name@, url@);
                    assert(self.map().contains_key(k));
                    let p = choose|p: int| 0 <= p < self.entries@.len() && #[trigger] self.entries@[p].0@ == k.0 && self.entries@[p].1@ == k.1;
                    assert(p == i);
                }
                return Some(&self.entries[i].2);
            }
            i = i + 1;
        }
        None
    }

    /// Whether this cache holds every entry of `before`, unchanged.
    pub open spec fn keeps(self, before: MetadataCache) -> bool {
        forall|k: (Seq<char>, Seq<char>)| #[trigger] before.map().contains_key(k)
            ==> self.map().contains_key(k) && self.map()[k] == before.map()[k]
    }

    /// Records the metadata of the family `name` that the server at `url` answered `text` with,
    /// unless the cache holds that family's metadata from that server already: then the
    /// cache stays as it is and the answer is not read. An answer that is no JSON is not
    /// recorded and fails.
    pub fn record(&mut self, name: String, url: String, text: &str) -> (r: Result<(), GftoolsError>)
        requires
            old(self).wf(),
        ensures
            final(self).wf(),
            final(self).keeps(*old(self)),
            old(self).map().contains_key((name@, url@)) ==> r is Ok && final(self).map() == old(self).map(),
            !old(self).map().contains_key((name@, url@)) ==> match json_parse(crate::text::replace_all(text@, ")]}'"@, ""@)) {
                Ok(j) => r is Ok && final(self).map() == old(self).map().insert((name@, url@), j),
                Err(m) => (r matches Err(e) && e.misc_message() == Some("Failed to parse JSON response: "@ + m))
                    && final(self).map() == old(self).map(),
            },
    {
        if self.get(name.as_str(), url.as_str()).is_some() {
            return Ok(());
        }
        let value = family_metadata_json(text)?;
        self.insert(name, url, value);
        Ok(())
    }

    /// Records `value` as the metadata of the family `name` from the server at `url`, which
    /// the cache does not hold yet.
    fn insert(&mut self, name: String, url: String, value: Json)
        requires
            old(self).wf(),
            !old(self).map().contains_key((name@, url@)),
        ensures
            final(self).keeps(*old(self)),
            final(self).wf(),
            final(self).map() == old(self).map().insert((name@, url@), value),
            final(self).map().contains_key((name@, url@)) && final(self).map()[(name@, url@)] == value,
    {
        let ghost old_self = *self;
        let ghost k = (name@, url@);
        let ghost v = value;
        self.entries.push((name, url, value));
        proof {
            let n = old_self.entries@.len() as int;
            assert(self.wf()) by {
                assert forall|a: int, b: int|
                    0 <= a < self.entries@.len() && 0 <= b < self.entries@.len() && a != b
                    implies (#[trigger] self.entries@[a].0@ != #[trigger] self.entries@[b].0@ || self.entries@[a].1@ != self.entries@[b].1@) by {
                    if a < n && b < n {
                        assert(old_self.entries@[a] == self.entries@[a]);
                        assert(old_self.entries@[b] == self.entries@[b]);
                    } else if a == n {
                        if self.entries@[b].0@ == k.0 && self.entries@[b].1@ == k.1 {
                            assert(old_self.entries@[b] == self.entries@[b]);
                            assert(old_self.map().contains_key(k));
                        }
                    } else {
                        if self.entries@[a].0@ == k.0 && self.entries@[a].1@ == k.1 {
                            assert(old_self.entries@[a] == self.entries@[a]);
                            assert(old_self.map().contains_key(k));
                        }
                    }
                }
            }
            assert(self.map() =~= old_self.map().insert(k, v)) by {
                assert forall|q: (Seq<char>, Seq<char>)| #[trigger] self.map().contains_key(q)
                    <==> old_self.map().insert(k, v).contains_key(q) by {
                    if self.map().contains_key(q) {
                        let p = choose|p: int| 0 <= p < self.entries@.len() && #[trigger] self.entries@[p].0@ == q.0 && self.entries@[p].1@ == q.1;
                        if p < n {
                            assert(old_self.entries@[p] == self.entries@[p]);
                        }
                    }
                    if old_self.map().contains_key(q) {
                        let p = choose|p: int| 0 <= p < old_self.entries@.len() && #[trigger] old_self.entries@[p].0@ == q.0 && old_self.entries@[p].1@ == q.1;
                        assert(old_self.entries@[p] == self.entries@[p]);
                    }
                    if q == k {
                        assert(self.entries@[n].0@ == q.0 && self.entries@[n].1@ == q.1);
                    }
                }
                assert forall|q: (Seq<char>, Seq<char>)| #[trigger] self.map().contains_key(q)
                    implies self.map()[q] == old_self.map().insert(k, v)[q] by {
                    let p = choose|p: int| 0 <= p < self.entries@.len() && #[trigger] self.entries@[p].0@ == q.0 && self.entries@[p].1@ == q.1;
                    if q == k {
                        assert(self.entries@[n].0@ == q.0 && self.entries@[n].1@ == q.1);
                        assert(p == n);
                    } else {
                        assert(p != n);
                        assert(old_self.entries@[p] == self.entries@[p]);
                        let p0 = choose|p0: int| 0 <= p0 < old_self.entries@.len() && #[trigger] old_self.entries@[p0].0@ == q.0 && old_self.entries@[p0].1@ == q.1;
                        assert(old_self.entries@[p0] == self.entries@[p0]);
                        assert(p0 == p);
                    }
                }
            }
        }
    }
}

} // verus!
