use ui::sctk::error::SctkError;
use ui::sctk::options::{Anchor, KeyboardInteractivity, Layer, LayerOptions, Options, WindowDecorations, XdgOptions, ANCHOR_LEFT, ANCHOR_RIGHT, ANCHOR_TOP};
use ui::sctk::options::{LockOptions, OutputSelector, OutputSet};
use ui::sctk::output::{pick_output, pick_outputs, starts_with, OutputInfo, OutputPickError, PickedOutput};
use ui::sctk::{LoopSignal, SctkLoop};

fn info(name: Option<&str>, model: &str, make: &str, scale: i32) -> Option<OutputInfo> {
    Some(OutputInfo {
        name: name.map(|s| s.to_string()),
        model: model.to_string(),
        make: make.to_string(),
        scale_factor: scale,
    })
}

fn outputs() -> Vec<Option<OutputInfo>> {
    vec![
        info(Some("DP-1"), "U2720Q", "Dell", 2),
        None,
        info(Some("eDP-1"), "0x0A1B", "BOE", 2),
        info(None, "LG HDR", "Goldstar", 1),
    ]
}

#[test]
fn loop_exit_flag() {
    let mut l = SctkLoop::new();
    assert!(!l.should_exit());
    l.exit();
    assert!(l.should_exit());
    assert!(!SctkLoop::default().should_exit());
}

#[test]
fn error_constructors_and_messages() {
    let e = SctkError::connect("no socket".to_string());
    assert!(matches!(&e, SctkError::Connect(s) if s == "no socket"));
    assert_eq!(e.message(), "failed to connect to wayland");
    assert_eq!(e.source().map(|s| s.as_str()), Some("no socket"));
    assert_eq!(SctkError::SurfaceSetup.message(), "failed to setup surface");
    assert!(SctkError::SurfaceSetup.source().is_none());
    assert_eq!(SctkError::registry_init(String::new()).message(), "failed to initialize registry");
    assert_eq!(SctkError::bind_global(String::new()).message(), "failed to bind global");
    assert_eq!(SctkError::dispatch(String::new()).message(), "wayland dispatch failed");
    assert_eq!(SctkError::flush(String::new()).message(), "wayland flush failed");
    assert_eq!(SctkError::roundtrip(String::new()).message(), "wayland roundtrip failed");
    assert_eq!(SctkError::session_lock(String::new()).message(), "wayland session lock failed");
    assert_eq!(SctkError::event_loop("x".to_string()).message(), "event loop error");
}

#[test]
fn lock_options_default() {
    let o = LockOptions::default();
    assert_eq!((o.size.width, o.size.height), (640, 360));
    assert!(o.output.is_none());
}

#[test]
fn starts_with_compares_bytes() {
    assert!(starts_with("eDP-1", "eDP"));
    assert!(starts_with("abc", ""));
    assert!(!starts_with("ab", "abc"));
    assert!(!starts_with("DP-1", "eDP"));
    assert!(starts_with("été", "é"));
}

#[test]
fn pick_single_outputs() {
    let outs = outputs();
    assert_eq!(pick_output(&outs, &OutputSelector::First), Ok(0));
    assert_eq!(pick_output(&outs, &OutputSelector::Index(3)), Ok(3));
    assert_eq!(pick_output(&outs, &OutputSelector::Index(4)), Err(OutputPickError::NoMatch));
    assert_eq!(pick_output(&outs, &OutputSelector::NamePrefix("LG".to_string())), Ok(3));
    assert_eq!(pick_output(&outs, &OutputSelector::NamePrefix("BO".to_string())), Ok(2));
    assert_eq!(pick_output(&outs, &OutputSelector::NamePrefix("DP".to_string())), Ok(0));
    assert_eq!(pick_output(&outs, &OutputSelector::NamePrefix("HDMI".to_string())), Err(OutputPickError::NoMatch));
    assert_eq!(pick_output(&outs, &OutputSelector::InternalPrefer), Ok(2));
    // Equal highest scales: the last one wins; no info counts as scale 1.
    assert_eq!(pick_output(&outs, &OutputSelector::HighestScale), Ok(2));
}

#[test]
fn pick_without_outputs() {
    let none: Vec<Option<OutputInfo>> = Vec::new();
    assert_eq!(pick_output(&none, &OutputSelector::First), Err(OutputPickError::NoOutputs));
    assert_eq!(pick_output(&none, &OutputSelector::InternalPrefer), Err(OutputPickError::NoOutputs));
    assert_eq!(pick_output(&none, &OutputSelector::HighestScale), Err(OutputPickError::NoOutputs));
    assert_eq!(pick_outputs(&none, &OutputSet::All), vec![PickedOutput::Active]);
}

#[test]
fn internal_prefer_falls_back_to_first() {
    let outs = vec![info(Some("HDMI-A-1"), "m", "k", 1), info(Some("DP-2"), "m", "k", 1)];
    assert_eq!(pick_output(&outs, &OutputSelector::InternalPrefer), Ok(0));
    let lvds = vec![info(Some("HDMI-A-1"), "m", "k", 1), info(Some("LVDS-1"), "m", "k", 1)];
    assert_eq!(pick_output(&lvds, &OutputSelector::InternalPrefer), Ok(1));
}

#[test]
fn pick_output_sets() {
    let outs = outputs();
    assert_eq!(pick_outputs(&outs, &OutputSet::Active), vec![PickedOutput::Active]);
    assert_eq!(
        pick_outputs(&outs, &OutputSet::All),
        vec![PickedOutput::Output(0), PickedOutput::Output(1), PickedOutput::Output(2), PickedOutput::Output(3)]
    );
    assert_eq!(pick_outputs(&outs, &OutputSet::One(OutputSelector::Index(1))), vec![PickedOutput::Output(1)]);
    assert_eq!(pick_outputs(&outs, &OutputSet::One(OutputSelector::Index(9))), vec![PickedOutput::Active]);
    let list = OutputSet::List(vec![
        OutputSelector::NamePrefix("Gold".to_string()),
        OutputSelector::Index(9),
        OutputSelector::First,
    ]);
    assert_eq!(pick_outputs(&outs, &list), vec![PickedOutput::Output(3), PickedOutput::Output(0)]);
    let empty = OutputSet::List(vec![OutputSelector::Index(9)]);
    assert_eq!(pick_outputs(&outs, &empty), vec![PickedOutput::Active]);
}

#[test]
fn layer_and_window_defaults() {
    let l = LayerOptions::default();
    assert_eq!(l.layer, Layer::Top);
    assert_eq!(l.size, ui::model::Size::new(640, 360));
    assert_eq!(l.anchors, Anchor(ANCHOR_TOP | ANCHOR_LEFT | ANCHOR_RIGHT));
    assert_eq!(l.exclusive_zone, -1);
    assert!(l.sets_exclusive_zone());
    assert_eq!(l.keyboard_interactivity, KeyboardInteractivity::Off);
    assert_eq!(l.namespace.as_deref(), Some("ui"));
    assert!(l.output.is_none());
    let none = LayerOptions { exclusive_zone: 0, ..LayerOptions::default() };
    assert!(!none.sets_exclusive_zone());

    let x = XdgOptions::default();
    assert_eq!(x.title, "my_app");
    assert_eq!(x.app_id.as_deref(), Some("ui"));
    assert_eq!(x.decorations, WindowDecorations::RequestClient);
    assert!(matches!(Options::Xdg(x), Options::Xdg(_)));
}

#[test]
fn loop_exits_on_close_only_when_asked() {
    let mut l = SctkLoop::new();
    l.observe(LoopSignal::EventDelivered { closed: false }, true);
    assert!(!l.should_exit());
    l.observe(LoopSignal::EventDelivered { closed: true }, false);
    assert!(!l.should_exit());
    l.observe(LoopSignal::SurfaceDestroyed { targets_left: true }, true);
    assert!(!l.should_exit());
    l.observe(LoopSignal::EventDelivered { closed: true }, true);
    assert!(l.should_exit());

    let mut last = SctkLoop::new();
    last.observe(LoopSignal::SurfaceDestroyed { targets_left: false }, false);
    assert!(last.should_exit());
    let mut lock = SctkLoop::new();
    lock.observe(LoopSignal::LockFinished, false);
    assert!(lock.should_exit());
}
