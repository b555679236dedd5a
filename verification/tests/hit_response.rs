use rhythm_engine::automation::hit_response::{ClipAnchor, HitResponse, ResponseKind, ResponseState};
use rhythm_engine::hit::HitInfo;

fn on(layer: u8, time: u32) -> Option<HitInfo<u32>> {
    Some(HitInfo { object_time: time, hit_time: time, layer })
}

#[test]
fn clip_switch_redirects_after_hit() {
    let response = HitResponse { kind: ResponseKind::<u32>::Switch(4), layer: 0 };
    let mut state = ResponseState::Nil;
    assert_eq!(response.redirect(&state), None);
    response.register_hits(&mut state, &[on(0, 10)]);
    assert_eq!(state, ResponseState::Delegated(true));
    assert_eq!(response.redirect(&state), Some(4));
}

#[test]
fn clip_toggle_alternates() {
    let response = HitResponse { kind: ResponseKind::<u32>::Toggle(2), layer: 1 };
    let mut state = ResponseState::Nil;
    response.register_hits(&mut state, &[on(1, 1), None, on(0, 2), None]);
    assert_eq!(state, ResponseState::Delegated(true));
    response.register_hits(&mut state, &[on(1, 3)]);
    assert_eq!(state, ResponseState::Delegated(false));
    assert_eq!(response.redirect(&state), None);
}

#[test]
fn clip_commence_anchor() {
    let response = HitResponse { kind: ResponseKind::<u32>::Commence, layer: 0 };
    assert_eq!(response.clip_anchor(&ResponseState::Delegated(false)), ClipAnchor::ClipStart);
    let mut state = ResponseState::Nil;
    assert_eq!(response.clip_anchor(&state), ClipAnchor::ClipStart);
    response.register_hits(&mut state, &[on(0, 1)]);
    assert_eq!(response.clip_anchor(&state), ClipAnchor::SongTime);
}

#[test]
fn clip_follow_anchor() {
    let response = HitResponse { kind: ResponseKind::Follow(25u32), layer: 0 };
    let mut state = ResponseState::Nil;
    assert_eq!(response.clip_anchor(&state), ClipAnchor::ClipStart);
    response.register_hits(&mut state, &[on(0, 100), on(0, 140)]);
    assert_eq!(state, ResponseState::Hit(140));
    assert_eq!(response.clip_anchor(&state), ClipAnchor::FollowEnd { hit: 140, excess: 25 });
}
