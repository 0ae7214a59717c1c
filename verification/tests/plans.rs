use std::io;

use ddc_hi::VcpValue;
use mccs_db::Database;
use spotlight::{
    build_os_to_ddc_map, BaselineStore, Command, DisplayReport, Feature, IdentityMap, Monitors,
    OutputReport, VCP_CONTRAST, VCP_DELAY_MILLIS, VCP_LUMINANCE,
};

fn database(codes: &[u8]) -> Database {
    let mut caps = mccs::Capabilities::default();
    for code in codes {
        caps.vcp_features.insert(*code, mccs::VcpDescriptor::default());
    }
    let mut database = Database::default();
    database.apply_capabilities(&caps);
    database
}

fn report(id: &str, codes: Option<&[u8]>, luminance: Option<u16>, contrast: Option<u16>) -> DisplayReport {
    DisplayReport {
        id: id.to_string(),
        capabilities: codes.map(database),
        luminance: luminance.map(VcpValue::from_value),
        contrast: contrast.map(VcpValue::from_value),
    }
}

fn output(name: Option<&str>, attached: Option<&[&str]>) -> OutputReport {
    OutputReport {
        name: name.map(|name| name.to_string()),
        attached: attached.map(|list| list.iter().map(|id| id.to_string()).collect()),
    }
}

fn monitors(reports: Vec<DisplayReport>, outputs: Vec<OutputReport>) -> Monitors {
    match Monitors::new(reports, build_os_to_ddc_map(Ok::<_, io::Error>(outputs))) {
        Ok(monitors) => monitors,
        Err(error) => panic!("no monitors: {error:?}"),
    }
}

fn read(display: &str, code: u8) -> Command {
    Command::Read { display: display.to_string(), code }
}

fn write(display: &str, code: u8, value: u16) -> Command {
    Command::Write { display: display.to_string(), code, value }
}

fn paced(plan: &[Command]) -> bool {
    plan.windows(2).all(|pair| pair[0] == Command::Pause || pair[1] == Command::Pause)
}

const BOTH: &[u8] = &[VCP_LUMINANCE, VCP_CONTRAST];

#[test]
fn feature_codes_are_those_of_the_standard() {
    assert_eq!(VCP_LUMINANCE, 0x10);
    assert_eq!(VCP_CONTRAST, 0x12);
    assert_eq!(Feature::Luminance.code(), 0x10);
    assert_eq!(Feature::Contrast.code(), 0x12);
    assert_eq!(VCP_DELAY_MILLIS, 10);
}

#[test]
fn probe_plan_reads_what_the_display_supports() {
    let both = DisplayReport::new("A".to_string(), Some(database(BOTH)));
    assert_eq!(
        both.plan(),
        vec![read("A", VCP_LUMINANCE), Command::Pause, read("A", VCP_CONTRAST), Command::Pause]
    );
    let contrast_only = DisplayReport::new("A".to_string(), Some(database(&[VCP_CONTRAST, 0x60])));
    assert_eq!(
        contrast_only.plan(),
        vec![Command::Pause, read("A", VCP_CONTRAST), Command::Pause]
    );
    let nothing = DisplayReport::new("A".to_string(), Some(Database::default()));
    assert_eq!(nothing.plan(), vec![Command::Pause, Command::Pause]);
}

#[test]
fn probe_plan_is_empty_after_a_failed_probe() {
    let failed = DisplayReport::new("A".to_string(), None);
    assert_eq!(failed.plan(), vec![]);
    assert!(failed.luminance.is_none());
    assert!(failed.contrast.is_none());
}

#[test]
fn record_keeps_the_reply_under_its_feature() {
    let mut report = DisplayReport::new("A".to_string(), Some(database(BOTH)));
    report.record(VCP_LUMINANCE, VcpValue::from_value(41));
    assert_eq!(report.luminance, Some(VcpValue::from_value(41)));
    assert_eq!(report.contrast, None);
    report.record(VCP_CONTRAST, VcpValue::from_value(17));
    report.record(0x60, VcpValue::from_value(3));
    assert_eq!(report.luminance, Some(VcpValue::from_value(41)));
    assert_eq!(report.contrast, Some(VcpValue::from_value(17)));
    assert_eq!(report.id, "A");
}

#[test]
fn dim_writes_zero_to_each_supported_feature() {
    let monitors = monitors(
        vec![
            report("A", Some(BOTH), Some(50), Some(60)),
            report("B", Some(&[VCP_LUMINANCE]), Some(50), None),
            report("C", Some(&[VCP_CONTRAST]), None, Some(60)),
        ],
        vec![],
    );
    assert_eq!(
        monitors.dim(&"A".to_string()),
        vec![write("A", VCP_LUMINANCE, 0), Command::Pause, write("A", VCP_CONTRAST, 0)]
    );
    assert_eq!(monitors.dim(&"B".to_string()), vec![write("B", VCP_LUMINANCE, 0), Command::Pause]);
    assert_eq!(monitors.dim(&"C".to_string()), vec![Command::Pause, write("C", VCP_CONTRAST, 0)]);
}

#[test]
fn dim_and_restore_of_an_unknown_display_are_empty() {
    let monitors = monitors(vec![report("A", Some(BOTH), Some(50), Some(60))], vec![]);
    assert_eq!(monitors.dim(&"Z".to_string()), vec![]);
    assert_eq!(monitors.restore(&"Z".to_string()), vec![]);
}

#[test]
fn restore_writes_the_value_that_the_reply_carries() {
    let reply = VcpValue { ty: 0, mh: 0xff, ml: 0xff, sh: 0x01, sl: 0x32 };
    let monitors = monitors(
        vec![DisplayReport {
            id: "A".to_string(),
            capabilities: Some(database(BOTH)),
            luminance: Some(reply),
            contrast: Some(VcpValue { ty: 0, mh: 0, ml: 100, sh: 0, sl: 75 }),
        }],
        vec![],
    );
    assert_eq!(
        monitors.restore(&"A".to_string()),
        vec![write("A", VCP_LUMINANCE, 306), Command::Pause, write("A", VCP_CONTRAST, 75)]
    );
}

#[test]
fn restore_skips_a_feature_without_a_baseline() {
    let monitors = monitors(vec![report("A", Some(BOTH), None, Some(60))], vec![]);
    assert_eq!(
        monitors.restore(&"A".to_string()),
        vec![Command::Pause, write("A", VCP_CONTRAST, 60)]
    );
    assert_eq!(
        monitors.dim(&"A".to_string()),
        vec![write("A", VCP_LUMINANCE, 0), Command::Pause, write("A", VCP_CONTRAST, 0)]
    );
}

#[test]
fn reading_of_an_unsupported_feature_is_no_baseline() {
    let monitors = monitors(
        vec![
            report("A", Some(&[VCP_LUMINANCE]), Some(50), Some(60)),
            report("B", None, Some(50), Some(60)),
        ],
        vec![],
    );
    assert_eq!(monitors.restore(&"A".to_string()), vec![write("A", VCP_LUMINANCE, 50), Command::Pause]);
    assert_eq!(monitors.restore(&"B".to_string()), vec![Command::Pause]);
}

#[test]
fn first_baseline_of_an_identity_stays() {
    let monitors = monitors(
        vec![report("A", Some(BOTH), Some(50), None), report("A", Some(BOTH), Some(99), Some(60))],
        vec![],
    );
    assert_eq!(
        monitors.restore(&"A".to_string()),
        vec![write("A", VCP_LUMINANCE, 50), Command::Pause, write("A", VCP_CONTRAST, 60)]
    );
    assert_eq!(
        monitors.restore_all(),
        vec![
            write("A", VCP_LUMINANCE, 50),
            Command::Pause,
            write("A", VCP_CONTRAST, 60),
            Command::Pause,
        ]
    );
}

#[test]
fn later_capabilities_of_an_identity_replace_the_earlier() {
    let monitors = monitors(
        vec![report("A", Some(BOTH), Some(50), Some(60)), report("A", None, None, None)],
        vec![],
    );
    assert_eq!(monitors.dim(&"A".to_string()), vec![Command::Pause]);
    assert_eq!(monitors.restore(&"A".to_string()), vec![Command::Pause]);
}

#[test]
fn bulk_plans_follow_the_order_of_the_reports() {
    let monitors = monitors(
        vec![
            report("B", Some(&[VCP_LUMINANCE]), Some(7), None),
            report("A", Some(BOTH), Some(50), Some(60)),
        ],
        vec![],
    );
    assert_eq!(
        monitors.dim_all(),
        vec![
            write("B", VCP_LUMINANCE, 0),
            Command::Pause,
            Command::Pause,
            write("A", VCP_LUMINANCE, 0),
            Command::Pause,
            write("A", VCP_CONTRAST, 0),
            Command::Pause,
        ]
    );
    assert_eq!(
        monitors.restore_all(),
        vec![
            write("B", VCP_LUMINANCE, 7),
            Command::Pause,
            Command::Pause,
            write("A", VCP_LUMINANCE, 50),
            Command::Pause,
            write("A", VCP_CONTRAST, 60),
            Command::Pause,
        ]
    );
}

#[test]
fn bulk_plans_of_no_display_are_empty() {
    let monitors = monitors(vec![], vec![]);
    assert_eq!(monitors.dim_all(), vec![]);
    assert_eq!(monitors.restore_all(), vec![]);
    assert_eq!(monitors.spotlight(vec!["OS1"]), vec![]);
}

#[test]
fn every_plan_pauses_between_two_commands() {
    let monitors = monitors(
        vec![
            report("A", Some(BOTH), Some(50), Some(60)),
            report("B", Some(BOTH), Some(70), Some(30)),
            report("C", Some(&[VCP_CONTRAST]), None, Some(30)),
        ],
        vec![output(Some("OS1"), Some(&["A", "C"])), output(Some("OS2"), Some(&["B"]))],
    );
    for plan in [
        monitors.dim_all(),
        monitors.restore_all(),
        monitors.spotlight(vec![]),
        monitors.spotlight(vec!["OS1"]),
        monitors.spotlight(vec!["OS2", "OS1"]),
        monitors.dim(&"A".to_string()),
        monitors.restore(&"B".to_string()),
    ] {
        assert!(paced(&plan));
    }
    for plan in [monitors.dim_all(), monitors.restore_all(), monitors.spotlight(vec!["OS1"])] {
        assert_eq!(plan.last(), Some(&Command::Pause));
    }
}

#[test]
fn spotlight_restores_in_the_order_of_the_names() {
    let monitors = monitors(
        vec![
            report("A", Some(&[VCP_LUMINANCE]), Some(1), None),
            report("B", Some(&[VCP_LUMINANCE]), Some(2), None),
            report("C", Some(&[VCP_LUMINANCE]), Some(3), None),
        ],
        vec![output(Some("OS1"), Some(&["A"])), output(Some("OS2"), Some(&["C"]))],
    );
    assert_eq!(
        monitors.spotlight(vec!["OS2", "OS1"]),
        vec![
            write("B", VCP_LUMINANCE, 0),
            Command::Pause,
            Command::Pause,
            write("C", VCP_LUMINANCE, 3),
            Command::Pause,
            Command::Pause,
            write("A", VCP_LUMINANCE, 1),
            Command::Pause,
            Command::Pause,
        ]
    );
}

#[test]
fn spotlight_restores_a_display_once_for_each_time_it_is_named() {
    let monitors = monitors(
        vec![report("A", Some(&[VCP_LUMINANCE]), Some(1), None)],
        vec![output(Some("OS1"), Some(&["A"]))],
    );
    assert_eq!(
        monitors.spotlight(vec!["OS1", "OS1"]),
        vec![
            write("A", VCP_LUMINANCE, 1),
            Command::Pause,
            Command::Pause,
            write("A", VCP_LUMINANCE, 1),
            Command::Pause,
            Command::Pause,
        ]
    );
}

#[test]
fn identity_without_a_display_is_inert() {
    let monitors = monitors(
        vec![report("A", Some(&[VCP_LUMINANCE]), Some(1), None)],
        vec![output(Some("OS1"), Some(&["ghost"]))],
    );
    assert_eq!(
        monitors.spotlight(vec!["OS1"]),
        vec![write("A", VCP_LUMINANCE, 0), Command::Pause, Command::Pause, Command::Pause]
    );
}

#[test]
fn output_without_name_or_displays_adds_no_mapping() {
    let built = build_os_to_ddc_map(Ok::<_, io::Error>(vec![
        output(None, Some(&["A"])),
        output(Some("OS2"), None),
        output(Some("OS3"), Some(&[])),
        output(Some("OS4"), Some(&["B", "C"])),
    ]));
    let map = match built {
        Ok(map) => map,
        Err(error) => panic!("no map: {error:?}"),
    };
    assert_eq!(map.get(&"OS2".to_string()), None);
    assert_eq!(map.get(&"OS3".to_string()), Some(&vec![]));
    assert_eq!(map.get(&"OS4".to_string()), Some(&vec!["B".to_string(), "C".to_string()]));
    assert_eq!(map.get(&"A".to_string()), None);
}

#[test]
fn output_reported_again_takes_the_later_list() {
    let built = build_os_to_ddc_map(Ok::<_, io::Error>(vec![
        output(Some("OS1"), Some(&["A"])),
        output(Some("OS1"), Some(&["B"])),
        output(Some("OS1"), None),
    ]));
    let map = match built {
        Ok(map) => map,
        Err(error) => panic!("no map: {error:?}"),
    };
    assert_eq!(map.get(&"OS1".to_string()), Some(&vec!["B".to_string()]));
}

#[test]
fn failed_enumeration_of_the_outputs_is_handed_on() {
    let failed = io::Error::new(io::ErrorKind::NotFound, "no transport");
    let built = build_os_to_ddc_map(Err::<Vec<OutputReport>, _>(failed));
    let error = match built {
        Ok(_) => panic!("a map without an enumeration"),
        Err(error) => error,
    };
    assert_eq!(error.kind(), io::ErrorKind::NotFound);
    assert_eq!(error.to_string(), "no transport");
}

#[test]
fn monitors_are_not_built_without_an_identity_map() {
    let failed = io::Error::new(io::ErrorKind::Unsupported, "no transport");
    let built = Monitors::new(
        vec![report("A", Some(BOTH), Some(50), Some(60))],
        build_os_to_ddc_map(Err::<Vec<OutputReport>, _>(failed)),
    );
    match built {
        Ok(_) => panic!("monitors without an identity map"),
        Err(error) => assert_eq!(error.kind(), io::ErrorKind::Unsupported),
    }
}

#[test]
fn identity_map_replaces_on_insert() {
    let mut map = IdentityMap::new();
    assert_eq!(map.get(&"OS1".to_string()), None);
    map.insert("OS1".to_string(), vec!["A".to_string()]);
    map.insert("OS2".to_string(), vec!["B".to_string()]);
    map.insert("OS1".to_string(), vec!["C".to_string(), "A".to_string()]);
    assert_eq!(map.get(&"OS1".to_string()), Some(&vec!["C".to_string(), "A".to_string()]));
    assert_eq!(map.get(&"OS2".to_string()), Some(&vec!["B".to_string()]));
}

#[test]
fn second_capture_does_not_change_the_baseline() {
    let mut store = BaselineStore::new();
    assert_eq!(store.lookup(&"A".to_string(), Feature::Luminance), None);
    assert!(store.capture("A".to_string(), Feature::Luminance, VcpValue::from_value(50)));
    assert!(!store.capture("A".to_string(), Feature::Luminance, VcpValue::from_value(80)));
    assert_eq!(
        store.lookup(&"A".to_string(), Feature::Luminance),
        Some(VcpValue::from_value(50))
    );
    assert_eq!(store.lookup(&"A".to_string(), Feature::Contrast), None);
    assert!(store.capture("A".to_string(), Feature::Contrast, VcpValue::from_value(80)));
    assert!(store.capture("B".to_string(), Feature::Luminance, VcpValue::from_value(9)));
    assert_eq!(store.lookup(&"A".to_string(), Feature::Contrast), Some(VcpValue::from_value(80)));
    assert_eq!(store.lookup(&"B".to_string(), Feature::Luminance), Some(VcpValue::from_value(9)));
    assert_eq!(
        store.lookup(&"A".to_string(), Feature::Luminance),
        Some(VcpValue::from_value(50))
    );
}
