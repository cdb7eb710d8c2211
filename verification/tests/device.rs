use evdev::{AbsoluteAxisCode, EventType};
use unpalm::codes;
use unpalm::device::{
    choose_lookup, find_all_touchpads, find_by_name, find_device, is_touchpad, search_device,
    touchpad_dimensions, AxisRange, DeviceProfile, FindError, Found, Lookup, OpenAttempt,
};

fn device(name: Option<&str>, pointer: bool, direct: bool, axes: Option<Vec<u16>>) -> DeviceProfile {
    DeviceProfile {
        name: name.map(|n| n.to_string()),
        pointer,
        direct,
        axes,
    }
}

fn devices() -> Vec<DeviceProfile> {
    vec![
        device(Some("Keyboard"), false, false, None),
        device(Some("ELAN Touchpad 4448"), true, false, Some(vec![0x00, 0x01, 0x35, 0x36])),
        device(Some("ELAN Touchscreen"), false, true, Some(vec![0x00, 0x01])),
        device(None, true, false, Some(vec![0x35])),
    ]
}

#[test]
fn axis_codes_are_those_of_the_kernel() {
    assert_eq!(codes::EV_ABS, EventType::ABSOLUTE.0);
    assert_eq!(codes::ABS_X, AbsoluteAxisCode::ABS_X.0);
    assert_eq!(codes::ABS_Y, AbsoluteAxisCode::ABS_Y.0);
    assert_eq!(codes::ABS_MT_SLOT, AbsoluteAxisCode::ABS_MT_SLOT.0);
    assert_eq!(codes::ABS_MT_TOUCH_MAJOR, AbsoluteAxisCode::ABS_MT_TOUCH_MAJOR.0);
    assert_eq!(codes::ABS_MT_TOUCH_MINOR, AbsoluteAxisCode::ABS_MT_TOUCH_MINOR.0);
    assert_eq!(codes::ABS_MT_POSITION_X, AbsoluteAxisCode::ABS_MT_POSITION_X.0);
    assert_eq!(codes::ABS_MT_POSITION_Y, AbsoluteAxisCode::ABS_MT_POSITION_Y.0);
    assert_eq!(codes::ABS_MT_TRACKING_ID, AbsoluteAxisCode::ABS_MT_TRACKING_ID.0);
    assert_eq!(codes::ABS_MT_PRESSURE, AbsoluteAxisCode::ABS_MT_PRESSURE.0);
}

#[test]
fn touchpads_are_recognised() {
    let st = Some(vec![codes::ABS_X, codes::ABS_Y]);
    let mt = Some(vec![codes::ABS_MT_POSITION_Y, codes::ABS_MT_POSITION_X]);
    assert!(is_touchpad(&device(None, true, false, st.clone())));
    assert!(is_touchpad(&device(None, true, false, mt.clone())));
    assert!(!is_touchpad(&device(None, true, true, mt.clone())));
    assert!(!is_touchpad(&device(None, false, false, mt)));
    assert!(!is_touchpad(&device(None, true, false, None)));
    assert!(!is_touchpad(&device(None, true, false, Some(vec![codes::ABS_X, codes::ABS_MT_POSITION_Y]))));
}

#[test]
fn lookup_order() {
    assert_eq!(choose_lookup(true, true), Lookup::Open);
    assert_eq!(choose_lookup(false, true), Lookup::Open);
    assert_eq!(choose_lookup(true, false), Lookup::ByName);
    assert_eq!(choose_lookup(false, false), Lookup::AutoDetect);
}

#[test]
fn the_only_touchpad_is_found() {
    assert_eq!(find_all_touchpads(&devices()), vec![1]);
    assert!(matches!(search_device(None, &devices()), Ok(1)));
}

#[test]
fn no_touchpad_or_many() {
    let error = search_device(None, &vec![]).unwrap_err();
    assert!(matches!(error, FindError::NoTouchpad));
    assert_eq!(error.message(), "No touchpads found");
    let mut many = devices();
    many.push(device(None, true, false, Some(vec![0x00, 0x01])));
    let error = search_device(None, &many).unwrap_err();
    assert_eq!(error.message(), "Multiple touchpads found");
    match error {
        FindError::ManyTouchpads(list) => assert_eq!(list, vec![1, 4]),
        _ => panic!("wrong error"),
    }
}

#[test]
fn devices_are_found_by_name() {
    assert_eq!(find_by_name("*ELAN*", &devices()), vec![1, 2]);
    assert!(matches!(search_device(Some("*4448"), &devices()), Ok(1)));
    assert!(matches!(search_device(Some("Key*"), &devices()), Ok(0)));
    let none = search_device(Some("*foo*"), &devices()).unwrap_err();
    assert_eq!(none.message(), "No device found matching pattern: *foo*");
    let many = search_device(Some("ELAN*"), &devices()).unwrap_err();
    assert_eq!(many.message(), "Multiple devices found matching pattern: ELAN*");
    match many {
        FindError::ManyMatches(pattern, list) => {
            assert_eq!(pattern, "ELAN*");
            assert_eq!(list, vec![1, 2]);
        }
        _ => panic!("wrong error"),
    }
}

fn axis(code: u16, maximum: i32) -> AxisRange {
    AxisRange { code, maximum }
}

#[test]
fn multitouch_axes_give_the_dimensions() {
    let axes = vec![axis(0x00, 10), axis(0x01, 20), axis(0x35, 1000), axis(0x36, 2000)];
    assert_eq!(touchpad_dimensions(&axes), Ok((1000, 2000)));
    let axes = vec![axis(0x00, 10), axis(0x01, 20), axis(0x36, 2000)];
    assert_eq!(touchpad_dimensions(&axes), Ok((10, 2000)));
    let axes = vec![axis(0x01, 20), axis(0x00, 10), axis(0x00, 11)];
    assert_eq!(touchpad_dimensions(&axes), Ok((11, 20)));
}

#[test]
fn missing_axes_are_errors() {
    assert_eq!(touchpad_dimensions(&vec![]), Err("No X axis found".to_string()));
    assert_eq!(
        touchpad_dimensions(&vec![axis(0x36, 5)]),
        Err("No X axis found".to_string())
    );
    assert_eq!(
        touchpad_dimensions(&vec![axis(0x35, 5)]),
        Err("No Y axis found".to_string())
    );
}

fn attempt(result: Result<u8, String>) -> Option<OpenAttempt<u8>> {
    Some(OpenAttempt {
        path: "/dev/input/event5".to_string(),
        result,
    })
}

#[test]
fn given_device_file_is_all_that_counts() {
    for name in [None, Some("*4448"), Some("*foo*")] {
        assert!(matches!(
            find_device(name, attempt(Ok(7)), &devices()),
            Ok(Found::Opened(7))
        ));
        let denied = attempt(Err("Permission denied".to_string()));
        let error = find_device(name, denied, &devices()).unwrap_err();
        assert!(matches!(error, FindError::CannotOpen(_, _)));
        assert_eq!(
            error.message(),
            "Failed to open device file /dev/input/event5: Permission denied"
        );
    }
}

#[test]
fn without_a_device_file_the_list_is_searched() {
    let none: Option<OpenAttempt<u8>> = None;
    assert!(matches!(
        find_device(Some("Key*"), none, &devices()),
        Ok(Found::Listed(0))
    ));
    let none: Option<OpenAttempt<u8>> = None;
    assert!(matches!(
        find_device(None, none, &devices()),
        Ok(Found::Listed(1))
    ));
    let none: Option<OpenAttempt<u8>> = None;
    let error = find_device(None, none, &vec![]).unwrap_err();
    assert_eq!(error.message(), "No touchpads found");
}
