use pctrl::applier::{Action, Effect};
use pctrl::catalog::DeviceCatalog;
use pctrl::device::{contains_monitor_word, ignore_monitor_devs, Device};
use pctrl::selector::{Current, Direction, Selection};

fn dev(index: u32, name: &str) -> Device {
    Device {
        index,
        name: Some(name.to_string()),
        description: Some(format!("{} description", name)),
        mute: false,
    }
}

fn catalog(devices: Vec<Device>) -> DeviceCatalog {
    DeviceCatalog::new(devices).expect("indices are distinct")
}

fn switch(index: u32, name: &str) -> Vec<Effect> {
    vec![
        Effect::SetDefaultDevice { index, name: Some(name.to_string()) },
        Effect::MoveStreams(index),
        Effect::WriteIndex(index),
    ]
}

#[test]
fn monitor_word_found_in_any_case() {
    assert!(contains_monitor_word("alsa_output.monitor"));
    assert!(!contains_monitor_word("Monitor"));
    assert!(!contains_monitor_word("monito"));
    assert!(!contains_monitor_word(""));
    assert!(!ignore_monitor_devs(&dev(1, "Speakers MONITOR")));
    assert!(!ignore_monitor_devs(&dev(1, "Monitor of Built-in Audio")));
    assert!(ignore_monitor_devs(&dev(1, "Built-in Audio")));
    let unnamed = Device { index: 2, name: None, description: None, mute: true };
    assert!(ignore_monitor_devs(&unnamed));
}

#[test]
fn catalog_refuses_shared_index() {
    assert!(DeviceCatalog::new(vec![dev(1, "a"), dev(1, "b")]).is_none());
    let c = catalog(vec![dev(1, "a"), dev(2, "b")]);
    assert_eq!(c.len(), 2);
    assert_eq!(c.by_index(2), Some(1));
    assert_eq!(c.by_index(9), None);
}

#[test]
fn eligible_keeps_order_and_drops_monitors() {
    let c = catalog(vec![dev(4, "a"), dev(5, "a.Monitor"), dev(6, "c")]);
    let e = c.eligible();
    assert_eq!(e.len(), 2);
    assert_eq!(e[0].index, 4);
    assert_eq!(e[1].index, 6);
    assert_eq!(c.eligible_positions(), vec![0, 2]);
}

#[test]
fn next_skips_monitor_and_moves_pointer() {
    let c = catalog(vec![dev(10, "A"), dev(11, "B monitor"), dev(12, "C")]);
    assert_eq!(c.plan(Some(10), Some(Action::Next)), switch(12, "C"));
}

#[test]
fn fresh_state_next_selects_sole_device() {
    let c = catalog(vec![dev(3, "A")]);
    assert_eq!(c.resolve_current(None), Current::Fallback(0));
    assert_eq!(c.plan(None, Some(Action::Next)), switch(3, "A"));
}

#[test]
fn stale_index_prev_falls_back_to_first_eligible() {
    let c = catalog(vec![dev(20, "x.monitor"), dev(21, "B"), dev(22, "C")]);
    assert_eq!(c.resolve_current(Some(99)), Current::Fallback(1));
    assert_eq!(c.plan(Some(99), Some(Action::Prev)), switch(21, "B"));
}

#[test]
fn mute_toggles_once_without_write() {
    let c = catalog(vec![dev(1, "A"), dev(2, "B")]);
    assert_eq!(
        c.plan(Some(2), Some(Action::Mute)),
        vec![Effect::SetMute { index: 2, mute: true }]
    );
}

#[test]
fn volume_steps_touch_only_the_device() {
    let c = catalog(vec![dev(1, "A"), dev(2, "B")]);
    assert_eq!(c.plan(Some(1), Some(Action::Inc)), vec![Effect::IncreaseVolume(1)]);
    assert_eq!(c.plan(Some(1), Some(Action::Dec)), vec![Effect::DecreaseVolume(1)]);
    assert_eq!(c.plan(Some(1), None), vec![]);
}

#[test]
fn fallback_is_remembered_before_other_actions() {
    let c = catalog(vec![dev(1, "A"), dev(2, "B")]);
    assert_eq!(c.plan(None, None), vec![Effect::WriteIndex(1)]);
    assert_eq!(
        c.plan(Some(5), Some(Action::Mute)),
        vec![Effect::WriteIndex(1), Effect::SetMute { index: 1, mute: true }]
    );
}

#[test]
fn singleton_cycle_is_a_no_op() {
    let c = catalog(vec![dev(1, "A"), dev(2, "B.monitor")]);
    assert_eq!(c.cycle(0, Direction::Forward), Selection::Singleton(0));
    assert_eq!(c.cycle(1, Direction::Backward), Selection::Singleton(1));
    assert_eq!(c.plan(Some(1), Some(Action::Next)), vec![]);
    assert_eq!(c.plan(Some(2), Some(Action::Prev)), vec![]);
}

#[test]
fn empty_catalog_has_no_effects() {
    let c = catalog(vec![]);
    assert!(c.is_empty());
    assert_eq!(c.resolve_current(Some(1)), Current::NoDevices);
    for a in [None, Some(Action::Next), Some(Action::Prev), Some(Action::Mute), Some(Action::Inc)] {
        assert_eq!(c.plan(None, a), vec![]);
        assert_eq!(c.plan(Some(4), a), vec![]);
    }
}

#[test]
fn only_monitors_means_no_devices() {
    let c = catalog(vec![dev(1, "a.monitor"), dev(2, "b.monitor")]);
    assert_eq!(c.resolve_current(None), Current::NoDevices);
    assert_eq!(c.cycle(0, Direction::Forward), Selection::NoDevices);
    assert_eq!(c.plan(None, Some(Action::Next)), vec![]);
}

fn step(c: &DeviceCatalog, pos: usize, dir: Direction) -> usize {
    match c.cycle(pos, dir) {
        Selection::Target(t) => t,
        other => panic!("expected a target, got {:?}", other),
    }
}

#[test]
fn forward_cycle_returns_after_n_steps() {
    let c = catalog(vec![dev(1, "A"), dev(2, "m.monitor"), dev(3, "B"), dev(4, "C")]);
    for start in [0usize, 2, 3] {
        let mut p = start;
        for _ in 0..3 {
            p = step(&c, p, Direction::Forward);
            assert_ne!(p, 1);
        }
        assert_eq!(p, start);
    }
    assert_eq!(step(&c, 0, Direction::Forward), 2);
    assert_eq!(step(&c, 3, Direction::Forward), 0);
}

#[test]
fn prev_then_next_is_identity() {
    let c = catalog(vec![dev(1, "A"), dev(2, "m.monitor"), dev(3, "B"), dev(4, "C")]);
    for start in [0usize, 2, 3] {
        let back = step(&c, start, Direction::Backward);
        assert_ne!(back, 1);
        assert_eq!(step(&c, back, Direction::Forward), start);
    }
    assert_eq!(step(&c, 0, Direction::Backward), 3);
}

#[test]
fn cycle_from_monitor_start() {
    let c = catalog(vec![dev(1, "A"), dev(2, "m.monitor"), dev(3, "B")]);
    assert_eq!(step(&c, 1, Direction::Forward), 2);
    assert_eq!(step(&c, 1, Direction::Backward), 0);
    assert_eq!(c.plan(Some(2), Some(Action::Prev)), switch(1, "A"));
}
