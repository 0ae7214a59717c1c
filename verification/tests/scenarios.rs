use std::collections::HashMap;
use std::io;

use ddc_hi::VcpValue;
use mccs_db::Database;
use spotlight::{
    build_os_to_ddc_map, Command, DisplayReport, Monitors, OutputReport, VCP_CONTRAST,
    VCP_LUMINANCE,
};

type Levels = HashMap<(String, u8), u16>;

fn database(codes: &[u8]) -> Database {
    let mut caps = mccs::Capabilities::default();
    for code in codes {
        caps.vcp_features.insert(*code, mccs::VcpDescriptor::default());
    }
    let mut database = Database::default();
    database.apply_capabilities(&caps);
    database
}

fn probed(id: &str, luminance: u16, contrast: u16) -> DisplayReport {
    DisplayReport {
        id: id.to_string(),
        capabilities: Some(database(&[VCP_LUMINANCE, VCP_CONTRAST])),
        luminance: Some(VcpValue::from_value(luminance)),
        contrast: Some(VcpValue::from_value(contrast)),
    }
}

fn unprobed(id: &str) -> DisplayReport {
    DisplayReport { id: id.to_string(), capabilities: None, luminance: None, contrast: None }
}

fn output(name: &str, attached: &[&str]) -> OutputReport {
    OutputReport {
        name: Some(name.to_string()),
        attached: Some(attached.iter().map(|id| id.to_string()).collect()),
    }
}

fn monitors(reports: Vec<DisplayReport>, outputs: Vec<OutputReport>) -> Monitors {
    match Monitors::new(reports, build_os_to_ddc_map(Ok::<_, io::Error>(outputs))) {
        Ok(monitors) => monitors,
        Err(error) => panic!("no monitors: {error:?}"),
    }
}

fn run(levels: &mut Levels, plan: &[Command]) {
    for command in plan {
        if let Command::Write { display, code, value } = command {
            levels.insert((display.clone(), *code), *value);
        }
    }
}

fn write(display: &str, code: u8, value: u16) -> Command {
    Command::Write { display: display.to_string(), code, value }
}

fn level(levels: &Levels, display: &str, code: u8) -> Option<u16> {
    levels.get(&(display.to_string(), code)).copied()
}

fn two_displays() -> (Monitors, Levels) {
    let monitors = monitors(
        vec![probed("A", 50, 50), probed("B", 70, 30)],
        vec![output("OS1", &["A"])],
    );
    let mut levels = Levels::new();
    levels.insert(("A".to_string(), VCP_LUMINANCE), 50);
    levels.insert(("A".to_string(), VCP_CONTRAST), 50);
    levels.insert(("B".to_string(), VCP_LUMINANCE), 70);
    levels.insert(("B".to_string(), VCP_CONTRAST), 30);
    (monitors, levels)
}

#[test]
fn spotlight_dims_the_other_display_and_keeps_the_active_one() {
    let (monitors, mut levels) = two_displays();
    let plan = monitors.spotlight(vec!["OS1"]);
    assert_eq!(
        plan,
        vec![
            write("B", VCP_LUMINANCE, 0),
            Command::Pause,
            write("B", VCP_CONTRAST, 0),
            Command::Pause,
            write("A", VCP_LUMINANCE, 50),
            Command::Pause,
            write("A", VCP_CONTRAST, 50),
            Command::Pause,
        ]
    );
    run(&mut levels, &plan);
    assert_eq!(level(&levels, "B", VCP_LUMINANCE), Some(0));
    assert_eq!(level(&levels, "B", VCP_CONTRAST), Some(0));
    assert_eq!(level(&levels, "A", VCP_LUMINANCE), Some(50));
    assert_eq!(level(&levels, "A", VCP_CONTRAST), Some(50));
}

#[test]
fn spotlight_on_nothing_dims_every_display_and_restore_all_brings_them_back() {
    let (monitors, mut levels) = two_displays();
    run(&mut levels, &monitors.spotlight(vec!["OS1"]));
    run(&mut levels, &monitors.spotlight(vec![]));
    assert_eq!(level(&levels, "A", VCP_LUMINANCE), Some(0));
    assert_eq!(level(&levels, "A", VCP_CONTRAST), Some(0));
    assert_eq!(level(&levels, "B", VCP_LUMINANCE), Some(0));
    assert_eq!(level(&levels, "B", VCP_CONTRAST), Some(0));
    run(&mut levels, &monitors.restore_all());
    assert_eq!(level(&levels, "A", VCP_LUMINANCE), Some(50));
    assert_eq!(level(&levels, "A", VCP_CONTRAST), Some(50));
    assert_eq!(level(&levels, "B", VCP_LUMINANCE), Some(70));
    assert_eq!(level(&levels, "B", VCP_CONTRAST), Some(30));
}

#[test]
fn display_whose_probe_failed_is_never_written_to() {
    let monitors = monitors(
        vec![unprobed("A"), probed("B", 70, 30)],
        vec![output("OS1", &["A"])],
    );
    let id = "A".to_string();
    assert_eq!(monitors.dim(&id), vec![Command::Pause]);
    assert_eq!(monitors.restore(&id), vec![Command::Pause]);
    let mut levels = Levels::new();
    levels.insert(("A".to_string(), VCP_LUMINANCE), 42);
    run(&mut levels, &monitors.dim(&id));
    run(&mut levels, &monitors.restore(&id));
    assert_eq!(level(&levels, "A", VCP_LUMINANCE), Some(42));
    assert_eq!(level(&levels, "A", VCP_CONTRAST), None);
    let other = "B".to_string();
    assert_eq!(
        monitors.restore(&other),
        vec![write("B", VCP_LUMINANCE, 70), Command::Pause, write("B", VCP_CONTRAST, 30)]
    );
}

#[test]
fn dim_then_restore_returns_to_the_captured_value() {
    let (monitors, mut levels) = two_displays();
    let id = "B".to_string();
    run(&mut levels, &monitors.dim(&id));
    assert_eq!(level(&levels, "B", VCP_LUMINANCE), Some(0));
    assert_eq!(level(&levels, "B", VCP_CONTRAST), Some(0));
    run(&mut levels, &monitors.restore(&id));
    assert_eq!(level(&levels, "B", VCP_LUMINANCE), Some(70));
    assert_eq!(level(&levels, "B", VCP_CONTRAST), Some(30));
}

#[test]
fn restore_all_twice_is_restore_all_once() {
    let (monitors, mut levels) = two_displays();
    run(&mut levels, &monitors.dim_all());
    run(&mut levels, &monitors.restore_all());
    let once = levels.clone();
    run(&mut levels, &monitors.restore_all());
    assert_eq!(levels, once);
    assert_eq!(level(&levels, "A", VCP_LUMINANCE), Some(50));
    assert_eq!(level(&levels, "B", VCP_CONTRAST), Some(30));
}

#[test]
fn name_that_the_map_lacks_changes_nothing() {
    let (monitors, _) = two_displays();
    assert_eq!(monitors.spotlight(vec!["OS9"]), monitors.spotlight(vec![]));
    assert_eq!(monitors.spotlight(vec!["OS9", "OS1", ""]), monitors.spotlight(vec!["OS1"]));
}

#[test]
fn dimmed_and_kept_displays_split_the_known_ones() {
    let monitors = monitors(
        vec![probed("A", 1, 2), probed("B", 3, 4), probed("C", 5, 6)],
        vec![output("OS1", &["A"]), output("OS2", &["C", "B"])],
    );
    let plan = monitors.spotlight(vec!["OS2"]);
    let mut dimmed = Vec::new();
    let mut kept = Vec::new();
    for command in &plan {
        if let Command::Write { display, value, .. } = command {
            let list = if *value == 0 { &mut dimmed } else { &mut kept };
            if !list.contains(display) {
                list.push(display.clone());
            }
        }
    }
    assert_eq!(dimmed, vec!["A".to_string()]);
    assert_eq!(kept, vec!["C".to_string(), "B".to_string()]);
}
