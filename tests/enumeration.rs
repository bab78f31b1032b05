use tablet_info::devices::{get_device_list, DeviceList};
use tablet_info::error::InfoError;
use tablet_info::record::{
    convert_id, capability, device_has_styli_support, device_has_touch_support, device_has_touch_switch,
    device_is_reversible, get_device, get_device_hardware_id, get_device_height, get_device_layout_name,
    get_device_model_name, get_device_name, get_device_num_rings, get_device_num_strips,
    get_device_product_id, get_device_size, get_device_vendor_id, get_device_width, DeviceRecord,
    ForeignRecord, MatchKind,
};
use tablet_info::scan::{is_candidate_name, join_path, list_candidates};

fn intuos() -> ForeignRecord {
    ForeignRecord {
        name: "Wacom Intuos Pro M".to_string(),
        model_name: Some("PTH-660".to_string()),
        layout_name: Some("wacom-intuos-pro-2-m.svg".to_string()),
        vendor_id: 1386,
        product_id: 0x0001,
        width: 9,
        height: 6,
        stylus: 1,
        touch: 0,
        ring: 1,
        ring2: 0,
        touch_switch: 1,
        reversible: 1,
        num_strips: 0,
    }
}

fn names(v: &[&str]) -> Vec<String> {
    v.iter().map(|s| s.to_string()).collect()
}

fn exact(f: ForeignRecord) -> DeviceRecord {
    get_device(Some(f), None).unwrap()
}

#[test]
fn candidate_names_need_event_prefix() {
    assert!(is_candidate_name("event0"));
    assert!(is_candidate_name("event12"));
    assert!(is_candidate_name("event"));
    assert!(!is_candidate_name("even"));
    assert!(!is_candidate_name("mouse0"));
    assert!(!is_candidate_name("by-id"));
    assert!(!is_candidate_name("Event0"));
    assert!(!is_candidate_name(""));
    assert!(!is_candidate_name("xevent0"));
}

#[test]
fn join_path_inserts_separator() {
    assert_eq!(join_path("/dev/input", "event3"), "/dev/input/event3");
}

#[test]
fn list_candidates_keeps_event_entries_in_order() {
    let listing = names(&["event0", "random_file", "mice", "event1", "by-path", "event12"]);
    let r = list_candidates("/dev/input", Some(listing));
    assert_eq!(r, vec!["/dev/input/event0", "/dev/input/event1", "/dev/input/event12"]);
}

#[test]
fn list_candidates_excludes_non_event_names() {
    let listing = names(&["js0", "mouse1", "by-id", "eventual_link_not", "evnt0"]);
    let r = list_candidates("/dev/input", Some(listing));
    assert_eq!(r, vec!["/dev/input/eventual_link_not"]);
    let r = list_candidates("/dev/input", Some(names(&["js0", "mouse1", "by-id"])));
    assert!(r.is_empty());
}

#[test]
fn unlistable_namespace_gives_empty_result() {
    let r = list_candidates("/does/not/exist", None);
    assert!(r.is_empty());
    let resolutions: Vec<(String, Option<DeviceRecord>)> = r.into_iter().map(|p| (p, None)).collect();
    let list = get_device_list(resolutions);
    assert_eq!(list.len(), 0);
    assert!(list.paths().is_empty());
}

#[test]
fn enumerate_scenario_single_tablet() {
    let listing = names(&["event0", "random_file", "event1"]);
    let candidates = list_candidates("/dev/input", Some(listing));
    assert_eq!(candidates, vec!["/dev/input/event0", "/dev/input/event1"]);
    let mut resolutions: Vec<(String, Option<DeviceRecord>)> = Vec::new();
    for path in candidates {
        let resolved = if path.ends_with("event0") { get_device(Some(intuos()), None) } else { get_device(None, None) };
        resolutions.push((path, resolved));
    }
    let list = get_device_list(resolutions);
    assert_eq!(list.len(), 1);
    assert_eq!(list.paths(), vec!["/dev/input/event0".to_string()]);
    assert!(!list.contains(&"/dev/input/event1".to_string()));
    assert!(list.get(&"/dev/input/event1".to_string()).is_none());
    let d = list.get(&"/dev/input/event0".to_string()).unwrap();
    assert_eq!(get_device_name(d), "Wacom Intuos Pro M");
    assert_eq!(get_device_vendor_id(d), Ok(1386));
    assert_eq!(get_device_product_id(d), Ok(0x0001));
    assert!(device_has_styli_support(d));
    assert!(!device_has_touch_support(d));
}

#[test]
fn unresolved_candidates_are_dropped() {
    let resolutions: Vec<(String, Option<DeviceRecord>)> = vec![
        ("/dev/input/event0".to_string(), None),
        ("/dev/input/event1".to_string(), get_device(Some(intuos()), None)),
        ("/dev/input/event2".to_string(), None),
    ];
    let list = get_device_list(resolutions);
    assert_eq!(list.len(), 1);
    assert!(!list.contains(&"/dev/input/event0".to_string()));
    assert!(list.contains(&"/dev/input/event1".to_string()));
    assert!(!list.contains(&"/dev/input/event2".to_string()));
}

#[test]
fn later_record_replaces_earlier_for_same_path() {
    let mut second = intuos();
    second.name = "Second".to_string();
    let resolutions: Vec<(String, Option<DeviceRecord>)> = vec![
        ("/dev/input/event0".to_string(), get_device(Some(intuos()), None)),
        ("/dev/input/event0".to_string(), get_device(Some(second), None)),
        ("/dev/input/event0".to_string(), None),
    ];
    let list = get_device_list(resolutions);
    assert_eq!(list.len(), 1);
    assert_eq!(get_device_name(list.get(&"/dev/input/event0".to_string()).unwrap()), "Second");
}

#[test]
fn record_resolution_step_by_step() {
    let mut list = DeviceList::new();
    assert_eq!(list.len(), 0);
    list.record_resolution("/dev/input/event4".to_string(), None);
    assert_eq!(list.len(), 0);
    list.record_resolution("/dev/input/event5".to_string(), get_device(None, Some(intuos())));
    assert_eq!(list.len(), 1);
    list.record_resolution("/dev/input/event6".to_string(), get_device(Some(intuos()), None));
    assert_eq!(list.len(), 2);
    let d = list.get(&"/dev/input/event5".to_string()).unwrap();
    assert_eq!(d.match_kind(), MatchKind::Generic);
}

#[test]
fn enumeration_is_repeatable() {
    let run = || {
        let candidates = list_candidates("/dev/input", Some(names(&["event0", "mice", "event1"])));
        let resolutions: Vec<(String, Option<DeviceRecord>)> = candidates
            .into_iter()
            .map(|p| {
                let r = if p.ends_with("event1") { get_device(Some(intuos()), None) } else { None };
                (p, r)
            })
            .collect();
        get_device_list(resolutions)
    };
    let (a, b) = (run(), run());
    assert_eq!(a.paths(), b.paths());
    let p = "/dev/input/event1".to_string();
    let (da, db) = (a.get(&p).unwrap(), b.get(&p).unwrap());
    assert_eq!(get_device_name(da), get_device_name(db));
    assert_eq!(get_device_hardware_id(da), get_device_hardware_id(db));
    assert_eq!(get_device_size(da), get_device_size(db));
}

#[test]
fn exact_match_preferred_over_generic() {
    let mut generic = intuos();
    generic.name = "Generic".to_string();
    let d = get_device(Some(intuos()), Some(generic)).unwrap();
    assert_eq!(d.match_kind(), MatchKind::Exact);
    assert_eq!(get_device_name(&d), "Wacom Intuos Pro M");
    assert_eq!(get_device_model_name(&d), Some("PTH-660".to_string()));
    assert_eq!(get_device_layout_name(&d), Some("wacom-intuos-pro-2-m.svg".to_string()));
}

#[test]
fn generic_fallback_has_no_model_or_layout() {
    let d = get_device(None, Some(intuos())).unwrap();
    assert_eq!(d.match_kind(), MatchKind::Generic);
    assert_eq!(get_device_name(&d), "Wacom Intuos Pro M");
    assert_eq!(get_device_model_name(&d), None);
    assert_eq!(get_device_layout_name(&d), None);
    assert_eq!(get_device_vendor_id(&d), Ok(1386));
}

#[test]
fn exact_match_optional_fields_independent() {
    let mut f = intuos();
    f.model_name = None;
    let d = exact(f);
    assert_eq!(get_device_model_name(&d), None);
    assert_eq!(get_device_layout_name(&d), Some("wacom-intuos-pro-2-m.svg".to_string()));
    let mut f = intuos();
    f.layout_name = None;
    let d = exact(f);
    assert_eq!(get_device_model_name(&d), Some("PTH-660".to_string()));
    assert_eq!(get_device_layout_name(&d), None);
}

#[test]
fn no_profile_resolves_to_nothing() {
    assert!(get_device(None, None).is_none());
}

#[test]
fn identifiers_are_checked() {
    assert_eq!(convert_id(0), Ok(0));
    assert_eq!(convert_id(1386), Ok(1386));
    assert_eq!(convert_id(i32::MAX), Ok(2147483647));
    assert_eq!(convert_id(-1), Err(InfoError::ConversionError));
    assert_eq!(convert_id(i32::MIN), Err(InfoError::ConversionError));
}

#[test]
fn negative_identifiers_are_conversion_errors() {
    let mut f = intuos();
    f.vendor_id = -5;
    let d = exact(f);
    assert_eq!(get_device_vendor_id(&d), Err(InfoError::ConversionError));
    assert_eq!(get_device_product_id(&d), Ok(1));
    assert_eq!(get_device_hardware_id(&d), Err(InfoError::ConversionError));
    let mut f = intuos();
    f.product_id = -1;
    let d = exact(f);
    assert_eq!(get_device_vendor_id(&d), Ok(1386));
    assert_eq!(get_device_product_id(&d), Err(InfoError::ConversionError));
    assert_eq!(get_device_hardware_id(&d), Err(InfoError::ConversionError));
    assert_eq!(get_device_hardware_id(&exact(intuos())), Ok((1386, 1)));
}

#[test]
fn capabilities_are_positive_values() {
    assert!(capability(1));
    assert!(capability(7));
    assert!(!capability(0));
    assert!(!capability(-1));
    assert!(!capability(i32::MIN));
    let mut f = intuos();
    f.stylus = -1;
    f.touch = 2;
    f.touch_switch = 0;
    f.reversible = -3;
    let d = exact(f);
    assert!(!device_has_styli_support(&d));
    assert!(device_has_touch_support(&d));
    assert!(!device_has_touch_switch(&d));
    assert!(!device_is_reversible(&d));
    let d = exact(intuos());
    assert!(device_has_touch_switch(&d));
    assert!(device_is_reversible(&d));
}

#[test]
fn ring_count_counts_present_rings() {
    let mut f = intuos();
    assert_eq!(get_device_num_rings(&exact(f.clone())), 1);
    f.ring2 = 3;
    assert_eq!(get_device_num_rings(&exact(f.clone())), 2);
    f.ring = 0;
    f.ring2 = -1;
    assert_eq!(get_device_num_rings(&exact(f)), 0);
}

#[test]
fn dimensions_pass_through() {
    let mut f = intuos();
    f.width = -1;
    f.height = -1;
    f.num_strips = 2;
    let d = exact(f);
    assert_eq!(get_device_width(&d), -1);
    assert_eq!(get_device_height(&d), -1);
    assert_eq!(get_device_size(&d), (-1, -1));
    assert_eq!(get_device_num_strips(&d), 2);
    let d = exact(intuos());
    assert_eq!(get_device_size(&d), (9, 6));
}
