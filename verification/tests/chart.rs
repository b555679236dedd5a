use rhythm_engine::play::chart::{HitInfo, Response, SignalResponse, Translation};

fn on(layer: u8, time: u32) -> Option<HitInfo<u32>> {
    Some(HitInfo { obj_time: time, layer })
}

#[test]
fn signal_response_new_keeps_parts() {
    let sr = SignalResponse::new(2, "target", Response::<u32>::Ignore);
    assert_eq!(sr.layer, 2);
    assert_eq!(sr.target, "target");
    assert_eq!(sr.response, Response::Ignore);
}

#[test]
fn commence_starts_on_hit() {
    let mut sr = SignalResponse::new(0, (), Response::<u32>::Commence { started: false });
    assert_eq!(sr.translate(), Translation::Zero);
    sr.respond(&[None, on(1, 5), None, None]);
    assert_eq!(sr.response, Response::Commence { started: false });
    sr.respond(&[None, None, on(0, 5), None]);
    assert_eq!(sr.response, Response::Commence { started: true });
    assert_eq!(sr.translate(), Translation::Identity);
}

#[test]
fn switch_switches_for_good() {
    let mut sr = SignalResponse::new(0, (), Response::<u32>::Switch { delegate: 3, switched: false });
    sr.respond(&[on(0, 1), None, None, None]);
    assert_eq!(sr.response, Response::Switch { delegate: 3, switched: true });
    sr.respond(&[on(0, 2), None, None, None]);
    assert_eq!(sr.response, Response::Switch { delegate: 3, switched: true });
}

#[test]
fn toggle_flips_once_per_frame() {
    let mut sr = SignalResponse::new(1, (), Response::<u32>::Toggle { delegate: 0, switched: false });
    sr.respond(&[on(1, 1), on(1, 2), on(1, 3), None]);
    assert_eq!(sr.response, Response::Toggle { delegate: 0, switched: true });
    sr.respond(&[None, None, None, None]);
    assert_eq!(sr.response, Response::Toggle { delegate: 0, switched: true });
    sr.respond(&[None, on(1, 9), None, None]);
    assert_eq!(sr.response, Response::Toggle { delegate: 0, switched: false });
}

#[test]
fn follow_remembers_last_hit() {
    let mut sr = SignalResponse::new(0, (), Response::Follow { excess: 50u32, last_hit: None });
    assert_eq!(sr.translate(), Translation::Zero);
    sr.respond(&[on(0, 100), on(0, 120), on(2, 300), None]);
    assert_eq!(sr.response, Response::Follow { excess: 50, last_hit: Some(120) });
    assert_eq!(sr.translate(), Translation::Clamp { low: 120, excess: 50 });
}

#[test]
fn ignore_passes_time() {
    let mut sr = SignalResponse::new(0, (), Response::<u32>::Ignore);
    sr.respond(&[on(0, 1), on(0, 2), on(0, 3), on(0, 4)]);
    assert_eq!(sr.response, Response::Ignore);
    assert_eq!(sr.translate(), Translation::Identity);
}

#[test]
fn output_index_follows_switched_delegate() {
    let switched = Response::<u32>::Toggle { delegate: 2, switched: true };
    let unswitched = Response::<u32>::Switch { delegate: 2, switched: false };
    let out_of_range = Response::<u32>::Switch { delegate: 7, switched: true };
    assert_eq!(switched.output_index(0, 4), 2);
    assert_eq!(unswitched.output_index(0, 4), 0);
    assert_eq!(out_of_range.output_index(1, 4), 1);
    assert_eq!(Response::<u32>::Ignore.output_index(3, 4), 3);
}
