use remoteio::coordinator::{DeviceCoordinator, DeviceCoordinatorOpts};
use remoteio::device::{
    Device, DeviceError, Host, SupportedBufferSize, SupportedStreamConfig,
};
use remoteio::switchboard::{SwitchBoard, SwitchBoardOpts};

fn format(channels: u16, sample_rate: u32) -> SupportedStreamConfig {
    SupportedStreamConfig { channels, sample_rate, buffer_size: SupportedBufferSize::Unknown }
}

fn microphone(name: &str) -> Device {
    Device::new(name, Some(format(2, 48000)), None)
}

fn speakers(name: &str) -> Device {
    Device::new(name, None, Some(format(2, 48000)))
}

fn studio() -> DeviceCoordinator {
    DeviceCoordinator::new(Host::new(vec![
        microphone("Mic 1"),
        microphone("Mic 2"),
        speakers("Speakers (Realtek(R) Audio)"),
        speakers("CABLE Input (VB-Audio Virtual Cable)"),
    ]))
}

fn pairs(coordinator: &DeviceCoordinator) -> Vec<(String, String)> {
    coordinator.state().mapping.iter().map(|(from, to)| (from.name(), to.name())).collect()
}

fn wanted(pairs: &[(&str, &str)]) -> Vec<(String, String)> {
    pairs.iter().map(|(from, to)| (from.to_string(), to.to_string())).collect()
}

#[test]
fn devicecoordinator_correct_state_local() {
    let host = Host::new(vec![microphone("default in"), speakers("default out")]);
    let mut coordinator = DeviceCoordinator::new(host.clone());
    let input = host.input_devices().into_iter().next().expect("");
    let output = host.output_devices().into_iter().next().expect("");
    coordinator.switch_board.connect((input, output)).expect("fail!");
    assert_eq!(pairs(&coordinator), vec![("default in".to_string(), "default out".to_string())]);
}

#[test]
fn devicecoordold_correct_state_local() {
    let host = Host::new(vec![microphone("default in"), speakers("default out")]);
    let mut coordinator = DeviceCoordinator::new(host.clone());
    assert!(host.input_devices().len() > 0);
    assert!(host.output_devices().len() > 0);
    let input = host.input_devices().into_iter().next().expect("");
    let output = host.output_devices().into_iter().next().expect("");
    coordinator.connect((input, output)).expect("fail!");
    assert_eq!(coordinator.state().mapping.len(), 1);
}

#[test]
fn a_new_coordinator_has_nothing_connected() {
    let coordinator = studio();
    assert!(coordinator.state().mapping.is_empty());
    assert_eq!(coordinator.devices().len(), 4);
    assert_eq!(coordinator.switch_board.device_map().len(), 2);
}

#[test]
fn a_coordinator_is_made_from_its_parts() {
    let host = Host::new(vec![microphone("mic")]);
    let switch_board = SwitchBoard::new_from(SwitchBoardOpts { host: host.clone() });
    let coordinator = DeviceCoordinator::new_from(DeviceCoordinatorOpts { host, switch_board });
    assert_eq!(coordinator.devices().len(), 1);
    assert_eq!(coordinator.switch_board.device_map().len(), 1);
}

#[test]
fn correct_state_connects_what_the_target_names() {
    let mut coordinator = studio();
    let done = coordinator.correct_state(wanted(&[
        ("mic 1", "speakers (realtek(r) audio)"),
        ("MIC 2", "CABLE INPUT (VB-AUDIO VIRTUAL CABLE)"),
    ]));
    assert_eq!(done.failure, None);
    assert_eq!(done.plans.len(), 2);
    assert!(done.plans.iter().all(|p| p.replaced.is_none()));
    assert_eq!(
        pairs(&coordinator),
        vec![
            ("Mic 1".to_string(), "Speakers (Realtek(R) Audio)".to_string()),
            ("Mic 2".to_string(), "CABLE Input (VB-Audio Virtual Cable)".to_string()),
        ]
    );
}

#[test]
fn correct_state_leaves_alone_what_already_is_as_wanted() {
    let mut coordinator = studio();
    let target = wanted(&[("Mic 1", "Speakers (Realtek(R) Audio)")]);
    assert_eq!(coordinator.correct_state(target.clone()).plans.len(), 1);
    let again = coordinator.correct_state(target);
    assert_eq!(again.failure, None);
    assert!(again.plans.is_empty());
    assert_eq!(pairs(&coordinator).len(), 1);
}

#[test]
fn correct_state_replaces_a_bridge_that_differs() {
    let mut coordinator = studio();
    coordinator.correct_state(wanted(&[("Mic 1", "Speakers (Realtek(R) Audio)")]));
    let done =
        coordinator.correct_state(wanted(&[("Mic 1", "CABLE Input (VB-Audio Virtual Cable)")]));
    assert_eq!(done.plans.len(), 1);
    assert_eq!(done.plans[0].replaced.as_ref().unwrap().name(), "Speakers (Realtek(R) Audio)");
    assert_eq!(
        pairs(&coordinator),
        vec![("Mic 1".to_string(), "CABLE Input (VB-Audio Virtual Cable)".to_string())]
    );
}

#[test]
fn correct_state_keeps_what_the_target_does_not_name() {
    let mut coordinator = studio();
    coordinator.correct_state(wanted(&[("Mic 1", "Speakers (Realtek(R) Audio)")]));
    let done =
        coordinator.correct_state(wanted(&[("Mic 2", "CABLE Input (VB-Audio Virtual Cable)")]));
    assert_eq!(done.failure, None);
    assert_eq!(pairs(&coordinator).len(), 2);
    let done = coordinator.correct_state(vec![]);
    assert_eq!(done.failure, None);
    assert!(done.plans.is_empty());
    assert_eq!(pairs(&coordinator).len(), 2);
}

#[test]
fn correct_state_ends_at_the_first_name_that_no_device_has() {
    let mut coordinator = studio();
    let done = coordinator.correct_state(wanted(&[
        ("Mic 1", "Speakers (Realtek(R) Audio)"),
        ("Mic 3", "Speakers (Realtek(R) Audio)"),
        ("Mic 2", "Speakers (Realtek(R) Audio)"),
    ]));
    assert_eq!(done.failure, Some(DeviceError::NotFound));
    assert_eq!(done.plans.len(), 1);
    assert_eq!(
        pairs(&coordinator),
        vec![("Mic 1".to_string(), "Speakers (Realtek(R) Audio)".to_string())]
    );
    let done = coordinator.correct_state(wanted(&[("Mic 2", "nowhere")]));
    assert_eq!(done.failure, Some(DeviceError::NotFound));
    assert!(done.plans.is_empty());
}

#[test]
fn correct_state_ends_at_a_pair_that_cannot_be_connected() {
    let mut coordinator = studio();
    let done = coordinator.correct_state(wanted(&[("Mic 1", "Mic 2")]));
    assert_eq!(done.failure, Some(DeviceError::NoOutputConfig));
    let done = coordinator.correct_state(wanted(&[(
        "Speakers (Realtek(R) Audio)",
        "CABLE Input (VB-Audio Virtual Cable)",
    )]));
    assert_eq!(done.failure, Some(DeviceError::NoInputConfig));
    assert!(pairs(&coordinator).is_empty());
}

#[test]
fn a_later_assignment_of_one_producer_wins() {
    let mut coordinator = studio();
    let done = coordinator.correct_state(wanted(&[
        ("Mic 1", "Speakers (Realtek(R) Audio)"),
        ("Mic 1", "CABLE Input (VB-Audio Virtual Cable)"),
    ]));
    assert_eq!(done.plans.len(), 2);
    assert!(done.plans[0].replaced.is_none());
    assert_eq!(done.plans[1].replaced.as_ref().unwrap().name(), "Speakers (Realtek(R) Audio)");
    assert_eq!(
        pairs(&coordinator),
        vec![("Mic 1".to_string(), "CABLE Input (VB-Audio Virtual Cable)".to_string())]
    );
}
