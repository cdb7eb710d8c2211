//! Which input device to filter, and how large it is.

use vstd::prelude::*;
use vstd::string::*;

use crate::codes::{ABS_MT_POSITION_X, ABS_MT_POSITION_Y, ABS_X, ABS_Y};
use crate::pattern::{pattern_accepts, wildcard_match};

verus! {

/// What an input device says of itself.
#[derive(Debug)]
pub struct DeviceProfile {
    pub name: Option<String>,
    /// It moves a pointer.
    pub pointer: bool,
    /// It is touched where it shows something, as a touchscreen is.
    pub direct: bool,
    /// The absolute axes that it reports, if it reports any.
    pub axes: Option<Vec<u16>>,
}

/// The largest value that an absolute axis reports.
#[derive(Debug, Clone, Copy)]
pub struct AxisRange {
    pub code: u16,
    pub maximum: i32,
}

/// How the device is found.
#[derive(Debug, Clone, Copy, PartialEq, Eq, Structural)]
pub enum Lookup {
    /// The device file that was given is opened.
    Open,
    /// A device is searched by its name.
    ByName,
    /// The only touchpad is taken.
    AutoDetect,
}

/// What came of opening the device file that was given.
#[derive(Debug)]
pub struct OpenAttempt<D> {
    /// The path of the file.
    pub path: String,
    /// The device, or the text of the error.
    pub result: Result<D, String>,
}

/// The device that was found.
#[derive(Debug)]
pub enum Found<D> {
    /// The device whose file was given.
    Opened(D),
    /// The device at this place in the list.
    Listed(usize),
}

/// Why no device was found.
#[derive(Debug)]
pub enum FindError {
    /// The device file at this path cannot be opened, with this error.
    CannotOpen(String, String),
    /// No device has a name that the pattern accepts.
    NoMatch(String),
    /// The devices at these places have a name that the pattern accepts.
    ManyMatches(String, Vec<usize>),
    /// There is no touchpad.
    NoTouchpad,
    /// The devices at these places are touchpads.
    ManyTouchpads(Vec<usize>),
}

/// Whether a list of axes holds both axes of a position.
pub open spec fn has_position(axes: Seq<u16>) -> bool {
    ||| axes.contains(ABS_MT_POSITION_X) && axes.contains(ABS_MT_POSITION_Y)
    ||| axes.contains(ABS_X) && axes.contains(ABS_Y)
}

impl DeviceProfile {
    /// Whether the device is a touchpad: it moves a pointer, is not touched where it shows
    /// something, and reports a position.
    pub open spec fn touchpad(self) -> bool {
        self.pointer && !self.direct && self.axes is Some && has_position(self.axes->0@)
    }

    /// Whether the device has a name that the pattern accepts.
    pub open spec fn named(self, pattern: Seq<char>) -> bool {
        self.name is Some && pattern_accepts(pattern, self.name->0@)
    }
}

impl FindError {
    /// The message for the user.
    pub open spec fn text(self) -> Seq<char> {
        match self {
            FindError::CannotOpen(path, error) => "Failed to open device file "@ + path@ + ": "@
                + error@,
            FindError::NoMatch(pattern) => "No device found matching pattern: "@ + pattern@,
            FindError::ManyMatches(pattern, _) => "Multiple devices found matching pattern: "@
                + pattern@,
            FindError::NoTouchpad => "No touchpads found"@,
            FindError::ManyTouchpads(_) => "Multiple touchpads found"@,
        }
    }

    /// The message for the user.
    pub fn message(&self) -> (message: String)
        ensures
            message@ == self.text(),
    {
        match self {
            FindError::CannotOpen(path, error) => {
                let mut message = "Failed to open device file ".to_string();
                message.append(path.as_str());
                message.append(": ");
                message.append(error.as_str());
                message
            },
            FindError::NoMatch(pattern) => {
                let mut message = "No device found matching pattern: ".to_string();
                message.append(pattern.as_str());
                message
            },
            FindError::ManyMatches(pattern, _) => {
                let mut message = "Multiple devices found matching pattern: ".to_string();
                message.append(pattern.as_str());
                message
            },
            FindError::NoTouchpad => "No touchpads found".to_string(),
            FindError::ManyTouchpads(_) => "Multiple touchpads found".to_string(),
        }
    }
}

/// The numbers below `n` that `keep` holds of, in ascending order.
pub open spec fn places(n: int, keep: spec_fn(int) -> bool) -> Seq<usize>
    decreases n,
{
    if n <= 0 {
        Seq::empty()
    } else if keep(n - 1) {
        places(n - 1, keep).push((n - 1) as usize)
    } else {
        places(n - 1, keep)
    }
}

/// The places of the touchpads among the devices.
pub open spec fn touchpad_places(devices: Seq<DeviceProfile>) -> Seq<usize> {
    places(devices.len() as int, |i: int| devices[i].touchpad())
}

/// The places of the devices with a name that the pattern accepts.
pub open spec fn named_places(devices: Seq<DeviceProfile>, pattern: Seq<char>) -> Seq<usize> {
    places(devices.len() as int, |i: int| devices[i].named(pattern))
}

/// Whether `axes` holds `code`.
fn has_axis(axes: &Vec<u16>, code: u16) -> (found: bool)
    ensures
        found == axes@.contains(code),
{
    for i in 0..axes.len()
        invariant
            forall|k: int| 0 <= k < i ==> axes@[k] != code,
    {
        if axes[i] == code {
            return true;
        }
    }
    false
}

/// Whether a device is a touchpad.
pub fn is_touchpad(device: &DeviceProfile) -> (yes: bool)
    ensures
        yes == device.touchpad(),
{
    // It must move a pointer and be no touchscreen.
    if !device.pointer || device.direct {
        return false;
    }
    match &device.axes {
        Some(axes) => {
            let has_mt = has_axis(axes, ABS_MT_POSITION_X) && has_axis(axes, ABS_MT_POSITION_Y);
            let has_st = has_axis(axes, ABS_X) && has_axis(axes, ABS_Y);
            has_mt || has_st
        },
        None => false,
    }
}

/// The places of the touchpads among the devices.
pub fn find_all_touchpads(devices: &Vec<DeviceProfile>) -> (found: Vec<usize>)
    ensures
        found@ == touchpad_places(devices@),
{
    let ghost keep = |i: int| devices@[i].touchpad();
    let mut found: Vec<usize> = Vec::new();
    for i in 0..devices.len()
        invariant
            keep == (|i: int| devices@[i].touchpad()),
            found@ == places(i as int, keep),
    {
        if is_touchpad(&devices[i]) {
            found.push(i);
        }
    }
    found
}

/// The places of the devices with a name that the pattern accepts.
pub fn find_by_name(pattern: &str, devices: &Vec<DeviceProfile>) -> (found: Vec<usize>)
    ensures
        found@ == named_places(devices@, pattern@),
{
    let ghost keep = |i: int| devices@[i].named(pattern@);
    let mut found: Vec<usize> = Vec::new();
    for i in 0..devices.len()
        invariant
            keep == (|i: int| devices@[i].named(pattern@)),
            found@ == places(i as int, keep),
    {
        if let Some(name) = &devices[i].name {
            if wildcard_match(pattern, name.as_str()) {
                found.push(i);
            }
        }
    }
    found
}

/// How to find the device: a device file goes before a name, a name before auto-detection.
pub fn choose_lookup(name_given: bool, file_given: bool) -> (lookup: Lookup)
    ensures
        lookup == if file_given {
            Lookup::Open
        } else if name_given {
            Lookup::ByName
        } else {
            Lookup::AutoDetect
        },
{
    if file_given {
        Lookup::Open
    } else if name_given {
        Lookup::ByName
    } else {
        Lookup::AutoDetect
    }
}

/// Whether `r` is what a search of the listed devices gives: by name if there is a pattern, else for
/// the only touchpad.
pub open spec fn search_gives(
    device_name: Option<&str>,
    devices: Seq<DeviceProfile>,
    r: Result<usize, FindError>,
) -> bool {
    match device_name {
        Some(pattern) => {
            let found = named_places(devices, pattern@);
            match r {
                Ok(place) => found == seq![place],
                Err(FindError::NoMatch(text)) => found.len() == 0 && text@ == pattern@,
                Err(FindError::ManyMatches(text, list)) => found.len() > 1 && text@ == pattern@
                    && list@ == found,
                _ => false,
            }
        },
        None => {
            let found = touchpad_places(devices);
            match r {
                Ok(place) => found == seq![place],
                Err(FindError::NoTouchpad) => found.len() == 0,
                Err(FindError::ManyTouchpads(list)) => found.len() > 1 && list@ == found,
                _ => false,
            }
        },
    }
}

/// The place of the only device with a name that the pattern accepts, or, without a pattern, of the
/// only touchpad.
pub fn search_device(device_name: Option<&str>, devices: &Vec<DeviceProfile>) -> (r: Result<
    usize,
    FindError,
>)
    ensures
        search_gives(device_name, devices@, r),
        r matches Ok(place) ==> place < devices.len(),
{
    match device_name {
        Some(pattern) => {
            let found = find_by_name(pattern, devices);
            if found.len() == 0 {
                Err(FindError::NoMatch(pattern.to_string()))
            } else if found.len() == 1 {
                let place = found[0];
                assert(found@ =~= seq![place]);
                proof {
                    assert(found@.contains(place));
                    assert(devices.len() == devices@.len());
                    law_places_are_complete(
                        devices@.len() as int,
                        |i: int| devices@[i].named(pattern@),
                        place,
                    );
                }
                Ok(place)
            } else {
                Err(FindError::ManyMatches(pattern.to_string(), found))
            }
        },
        None => {
            let found = find_all_touchpads(devices);
            if found.len() == 0 {
                Err(FindError::NoTouchpad)
            } else if found.len() == 1 {
                let place = found[0];
                assert(found@ =~= seq![place]);
                proof {
                    assert(found@.contains(place));
                    assert(devices.len() == devices@.len());
                    law_places_are_complete(
                        devices@.len() as int,
                        |i: int| devices@[i].touchpad(),
                        place,
                    );
                }
                Ok(place)
            } else {
                Err(FindError::ManyTouchpads(found))
            }
        },
    }
}

/// The device to filter. Where a device file was given, `device_file` says what came of opening it,
/// and nothing else counts. Else it is the only listed device with a name that the pattern accepts,
/// or, without a pattern, the only touchpad.
pub fn find_device<D>(
    device_name: Option<&str>,
    device_file: Option<OpenAttempt<D>>,
    devices: &Vec<DeviceProfile>,
) -> (r: Result<Found<D>, FindError>)
    ensures
        match device_file {
            Some(attempt) => match attempt.result {
                Ok(device) => r == Ok::<Found<D>, FindError>(Found::Opened(device)),
                Err(error) => {
                    &&& r matches Err(FindError::CannotOpen(path, text))
                    &&& path@ == attempt.path@
                    &&& text@ == error@
                },
            },
            None => match r {
                Ok(Found::Listed(place)) => place < devices.len() && search_gives(
                    device_name,
                    devices@,
                    Ok(place),
                ),
                Ok(Found::Opened(_)) => false,
                Err(error) => search_gives(device_name, devices@, Err(error)),
            },
        },
{
    match device_file {
        Some(attempt) => match attempt.result {
            Ok(device) => Ok(Found::Opened(device)),
            Err(error) => Err(FindError::CannotOpen(attempt.path, error)),
        },
        None => match search_device(device_name, devices) {
            Ok(place) => Ok(Found::Listed(place)),
            Err(error) => Err(error),
        },
    }
}

/// The largest value of the axis `code`. If the axis is listed more than once, the last entry
/// counts.
pub open spec fn axis_maximum(axes: Seq<AxisRange>, code: u16) -> Option<i32>
    decreases axes.len(),
{
    if axes.len() == 0 {
        None
    } else if axes.last().code == code {
        Some(axes.last().maximum)
    } else {
        axis_maximum(axes.drop_last(), code)
    }
}

/// The first of two values that is there.
pub open spec fn first_of(a: Option<i32>, b: Option<i32>) -> Option<i32> {
    if a is Some {
        a
    } else {
        b
    }
}

/// The width of the touchpad: the multitouch axis goes before the other.
pub open spec fn width_of(axes: Seq<AxisRange>) -> Option<i32> {
    first_of(axis_maximum(axes, ABS_MT_POSITION_X), axis_maximum(axes, ABS_X))
}

/// The height of the touchpad: the multitouch axis goes before the other.
pub open spec fn height_of(axes: Seq<AxisRange>) -> Option<i32> {
    first_of(axis_maximum(axes, ABS_MT_POSITION_Y), axis_maximum(axes, ABS_Y))
}

/// The largest value of the axis `code`.
fn find_maximum(axes: &Vec<AxisRange>, code: u16) -> (maximum: Option<i32>)
    ensures
        maximum == axis_maximum(axes@, code),
{
    let mut n = axes.len();
    assert(axes@.take(n as int) =~= axes@);
    while n > 0
        invariant
            n <= axes.len(),
            axis_maximum(axes@.take(n as int), code) == axis_maximum(axes@, code),
        decreases n,
    {
        assert(axes@.take(n as int).drop_last() =~= axes@.take(n - 1));
        assert(axes@.take(n as int).last() == axes@[n - 1]);
        n -= 1;
        if axes[n].code == code {
            return Some(axes[n].maximum);
        }
    }
    assert(axes@.take(0).len() == 0);
    None
}

/// The width and the height of the touchpad.
pub fn touchpad_dimensions(axes: &Vec<AxisRange>) -> (r: Result<(i32, i32), String>)
    ensures
        match r {
            Ok((x_max, y_max)) => width_of(axes@) == Some(x_max) && height_of(axes@) == Some(y_max),
            Err(message) => {
                ||| width_of(axes@) is None && message@ == "No X axis found"@
                ||| width_of(axes@) is Some && height_of(axes@) is None && message@
                    == "No Y axis found"@
            },
        },
{
    let x_max = match find_maximum(axes, ABS_MT_POSITION_X) {
        Some(maximum) => maximum,
        None => match find_maximum(axes, ABS_X) {
            Some(maximum) => maximum,
            None => {
                return Err("No X axis found".to_string());
            },
        },
    };
    let y_max = match find_maximum(axes, ABS_MT_POSITION_Y) {
        Some(maximum) => maximum,
        None => match find_maximum(axes, ABS_Y) {
            Some(maximum) => maximum,
            None => {
                return Err("No Y axis found".to_string());
            },
        },
    };
    Ok((x_max, y_max))
}

/// The listed places are exactly those that `keep` holds of.
pub proof fn law_places_are_complete(n: int, keep: spec_fn(int) -> bool, i: usize)
    requires
        n <= usize::MAX,
    ensures
        places(n, keep).contains(i) <==> i < n && keep(i as int),
    decreases n,
{
    if n > 0 {
        law_places_are_complete(n - 1, keep, i);
        let before = places(n - 1, keep);
        if keep(n - 1) {
            let all = places(n, keep);
            if before.contains(i) {
                let k = choose|k: int| 0 <= k < before.len() && before[k] == i;
                assert(all[k] == i);
            }
            if i == n - 1 {
                assert(all[all.len() - 1] == i);
            }
            if all.contains(i) {
                let k = choose|k: int| 0 <= k < all.len() && all[k] == i;
                if k < before.len() {
                    assert(before[k] == i);
                }
            }
        }
    }
}

/// The places are listed in ascending order, each once.
pub proof fn law_places_ascend(n: int, keep: spec_fn(int) -> bool, j: int, k: int)
    requires
        n <= usize::MAX,
        0 <= j < k < places(n, keep).len(),
    ensures
        places(n, keep)[j] < places(n, keep)[k],
    decreases n,
{
    let before = places(n - 1, keep);
    if keep(n - 1) && k == before.len() {
        assert(before.contains(before[j]));
        law_places_are_complete(n - 1, keep, before[j]);
    } else {
        law_places_ascend(n - 1, keep, j, k);
    }
}

/// A touchscreen is never taken for a touchpad.
pub proof fn law_touchscreen_is_no_touchpad(device: DeviceProfile)
    requires
        device.direct,
    ensures
        !device.touchpad(),
{
}

/// What makes a touchpad: it moves a pointer, is no touchscreen, and has both multitouch axes of a
/// position or both plain ones.
pub proof fn law_what_makes_a_touchpad(device: DeviceProfile)
    ensures
        device.touchpad() <==> {
            &&& device.pointer
            &&& !device.direct
            &&& device.axes is Some
            &&& {
                ||| (exists|i: int| 0 <= i < device.axes->0@.len() && device.axes->0@[i] == 0x35)
                    && exists|i: int| 0 <= i < device.axes->0@.len() && device.axes->0@[i] == 0x36
                ||| (exists|i: int| 0 <= i < device.axes->0@.len() && device.axes->0@[i] == 0x00)
                    && exists|i: int| 0 <= i < device.axes->0@.len() && device.axes->0@[i] == 0x01
            }
        },
{
}

/// Whether a listed device is one that a search is for: with a pattern one whose name the pattern
/// accepts, else a touchpad.
pub open spec fn sought(device_name: Option<&str>, device: DeviceProfile) -> bool {
    match device_name {
        Some(pattern) => device.name is Some && pattern_accepts(pattern@, device.name->0@),
        None => device.touchpad(),
    }
}

proof fn lemma_one_place(n: int, keep: spec_fn(int) -> bool, place: usize)
    requires
        0 <= n <= usize::MAX,
        places(n, keep) == seq![place],
    ensures
        place < n,
        forall|i: int| 0 <= i < n ==> (#[trigger] keep(i) <==> i == place),
{
    let list = places(n, keep);
    assert(list[0] == place);
    assert(list.contains(place));
    law_places_are_complete(n, keep, place);
    assert forall|i: int| 0 <= i < n implies (#[trigger] keep(i) <==> i == place) by {
        law_places_are_complete(n, keep, i as usize);
    }
}

proof fn lemma_no_place(n: int, keep: spec_fn(int) -> bool)
    requires
        0 <= n <= usize::MAX,
        places(n, keep).len() == 0,
    ensures
        forall|i: int| 0 <= i < n ==> !#[trigger] keep(i),
{
    assert forall|i: int| 0 <= i < n implies !#[trigger] keep(i) by {
        law_places_are_complete(n, keep, i as usize);
    }
}

proof fn lemma_many_places(n: int, keep: spec_fn(int) -> bool)
    requires
        0 <= n <= usize::MAX,
    ensures
        forall|j: int, k: int|
            0 <= j < k < places(n, keep).len() ==> #[trigger] places(n, keep)[j]
                < #[trigger] places(n, keep)[k],
        forall|i: usize| #[trigger] places(n, keep).contains(i) <==> i < n && keep(i as int),
{
    assert forall|j: int, k: int| 0 <= j < k < places(n, keep).len() implies #[trigger] places(
        n,
        keep,
    )[j] < #[trigger] places(n, keep)[k] by {
        law_places_ascend(n, keep, j, k);
    }
    assert forall|i: usize| #[trigger]
        places(n, keep).contains(i) <==> i < n && keep(i as int) by {
        law_places_are_complete(n, keep, i);
    }
}

/// A search finds a device exactly if it is the only one that the search is for. Else it says that
/// there is none, or lists the places of all of them in ascending order, and there are at least two.
pub proof fn law_search_finds_the_only_one(
    device_name: Option<&str>,
    devices: Seq<DeviceProfile>,
    r: Result<usize, FindError>,
)
    requires
        devices.len() <= usize::MAX,
        search_gives(device_name, devices, r),
    ensures
        match r {
            Ok(place) => place < devices.len() && forall|i: int|
                0 <= i < devices.len() ==> (sought(device_name, #[trigger] devices[i]) <==> i
                    == place),
            Err(FindError::NoMatch(text)) => device_name is Some && text@ == device_name->0@
                && forall|i: int|
                0 <= i < devices.len() ==> !sought(device_name, #[trigger] devices[i]),
            Err(FindError::NoTouchpad) => device_name is None && forall|i: int|
                0 <= i < devices.len() ==> !sought(device_name, #[trigger] devices[i]),
            Err(FindError::ManyMatches(text, list)) => device_name is Some && text@
                == device_name->0@ && lists_sought(device_name, devices, list@),
            Err(FindError::ManyTouchpads(list)) => device_name is None && lists_sought(
                device_name,
                devices,
                list@,
            ),
            Err(FindError::CannotOpen(_, _)) => false,
        },
{
    let n = devices.len() as int;
    match device_name {
        Some(pattern) => {
            let keep = |i: int| devices[i].named(pattern@);
            lemma_many_places(n, keep);
            match r {
                Ok(place) => {
                    lemma_one_place(n, keep, place);
                    assert forall|i: int| 0 <= i < n implies (sought(
                        device_name,
                        #[trigger] devices[i],
                    ) <==> i == place) by {
                        assert(keep(i) <==> i == place);
                    }
                },
                Err(FindError::NoMatch(_)) => {
                    lemma_no_place(n, keep);
                    assert forall|i: int| 0 <= i < n implies !sought(
                        device_name,
                        #[trigger] devices[i],
                    ) by {
                        assert(!keep(i));
                    }
                },
                _ => {},
            }
        },
        None => {
            let keep = |i: int| devices[i].touchpad();
            lemma_many_places(n, keep);
            match r {
                Ok(place) => {
                    lemma_one_place(n, keep, place);
                    assert forall|i: int| 0 <= i < n implies (sought(
                        device_name,
                        #[trigger] devices[i],
                    ) <==> i == place) by {
                        assert(keep(i) <==> i == place);
                    }
                },
                Err(FindError::NoTouchpad) => {
                    lemma_no_place(n, keep);
                    assert forall|i: int| 0 <= i < n implies !sought(
                        device_name,
                        #[trigger] devices[i],
                    ) by {
                        assert(!keep(i));
                    }
                },
                _ => {},
            }
        },
    }
}

/// Whether `list` holds, in ascending order, the places of all devices that a search is for, and
/// there are at least two.
pub open spec fn lists_sought(
    device_name: Option<&str>,
    devices: Seq<DeviceProfile>,
    list: Seq<usize>,
) -> bool {
    &&& list.len() >= 2
    &&& forall|j: int, k: int|
        0 <= j < k < list.len() ==> #[trigger] list[j] < #[trigger] list[k]
    &&& forall|i: usize| #[trigger]
        list.contains(i) <==> i < devices.len() && sought(device_name, devices[i as int])
}

/// The messages about a failed search.
pub proof fn law_messages(error: FindError)
    ensures
        match error {
            FindError::CannotOpen(path, reason) => error.text() == "Failed to open device file "@
                + path@ + ": "@ + reason@,
            FindError::NoMatch(pattern) => error.text() == "No device found matching pattern: "@
                + pattern@,
            FindError::ManyMatches(pattern, _) => error.text()
                == "Multiple devices found matching pattern: "@ + pattern@,
            FindError::NoTouchpad => error.text() == "No touchpads found"@,
            FindError::ManyTouchpads(_) => error.text() == "Multiple touchpads found"@,
        },
{
}

/// The maximum of an axis is that of its last entry, and there is none if there is no entry.
pub proof fn law_last_entry_of_an_axis_counts(axes: Seq<AxisRange>, code: u16)
    ensures
        axis_maximum(axes, code) matches Some(maximum) ==> exists|i: int|
            0 <= i < axes.len() && (#[trigger] axes[i]).code == code && axes[i].maximum == maximum
                && forall|j: int| i < j < axes.len() ==> (#[trigger] axes[j]).code != code,
        axis_maximum(axes, code) is None ==> forall|i: int|
            0 <= i < axes.len() ==> (#[trigger] axes[i]).code != code,
    decreases axes.len(),
{
    if axes.len() > 0 {
        let before = axes.drop_last();
        let n = before.len() as int;
        law_last_entry_of_an_axis_counts(before, code);
        if axes.last().code == code {
            assert(axes[n].code == code);
        } else if let Some(maximum) = axis_maximum(before, code) {
            let i = choose|i: int|
                0 <= i < before.len() && (#[trigger] before[i]).code == code && before[i].maximum
                    == maximum && forall|j: int|
                    i < j < before.len() ==> (#[trigger] before[j]).code != code;
            assert(axes[i] == before[i]);
            assert forall|j: int| i < j < axes.len() implies (#[trigger] axes[j]).code != code by {
                if j < n {
                    assert(before[j].code != code);
                }
            }
        } else {
            assert forall|j: int| 0 <= j < axes.len() implies (#[trigger] axes[j]).code != code by {
                if j < n {
                    assert(before[j].code != code);
                }
            }
        }
    }
}

/// The size of the touchpad is that of the multitouch axes; a plain axis counts only where its
/// multitouch axis is missing.
pub proof fn law_multitouch_axes_go_first(axes: Seq<AxisRange>)
    ensures
        axis_maximum(axes, 0x35) is Some ==> width_of(axes) == axis_maximum(axes, 0x35),
        axis_maximum(axes, 0x35) is None ==> width_of(axes) == axis_maximum(axes, 0x00),
        axis_maximum(axes, 0x36) is Some ==> height_of(axes) == axis_maximum(axes, 0x36),
        axis_maximum(axes, 0x36) is None ==> height_of(axes) == axis_maximum(axes, 0x01),
{
}

} // verus!
