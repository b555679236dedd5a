use rhythm_engine::hit::{Delegated, HitInfo, Response, ResponseKind, ResponseState, SeekAnchor};

/// A sheet from `start` lasting `duration`, as the game schedules it.
struct Offsets {
    start: f32,
    duration: f32,
}

impl Offsets {
    fn scheduled_at(&self, time: f32) -> bool {
        (self.start..self.start + self.duration).contains(&time)
    }

    fn playable_at(&self, time: f32) -> bool {
        f32::EPSILON < self.duration && self.scheduled_at(time)
    }
}

struct Entity {
    response: Response<f32>,
    state: ResponseState<f32>,
    offsets: Offsets,
}

/// One frame of hit handling: register the scheduled hits, then work out
/// each entity's seek time and delegation.
fn frame(entities: &mut [Entity], song_time: f32, register: [Option<HitInfo<f32>>; 4]) -> Vec<(f32, Delegated)> {
    let mut out = vec![];
    for entity in entities.iter_mut() {
        if !entity.offsets.playable_at(song_time) {
            out.push((song_time, Delegated(false)));
            continue;
        }
        let scheduled: Vec<Option<HitInfo<f32>>> = register
            .iter()
            .map(|slot| slot.filter(|hit| entity.offsets.scheduled_at(hit.hit_time)))
            .collect();
        entity.response.register_hits(&mut entity.state, &scheduled);
        let seek = match entity.response.seek_anchor(&entity.state) {
            SeekAnchor::SheetStart => entity.offsets.start,
            SeekAnchor::FollowEnd { hit, excess } if !(hit..hit + excess).contains(&song_time) => hit + excess,
            _ => song_time,
        };
        out.push((seek, entity.response.delegation(&entity.state)));
    }
    out
}

fn hit(time: f32, layer: u8) -> Option<HitInfo<f32>> {
    Some(HitInfo { object_time: time, hit_time: time, layer })
}

fn entity(kind: ResponseKind<f32>, duration: f32) -> Entity {
    Entity {
        response: Response { kind, layer: 0 },
        state: ResponseState::Idle,
        offsets: Offsets { start: 0., duration },
    }
}

#[test]
fn hit_logic() {
    let mut entities = vec![
        entity(ResponseKind::Commence, 400.),
        entity(ResponseKind::Switch, 400.),
        entity(ResponseKind::Toggle, 400.),
        entity(ResponseKind::Follow(50.), 400.),
    ];

    // First hit
    let out = frame(&mut entities, 100., [None, None, None, hit(100., 0)]);
    for e in &entities {
        assert_ne!(ResponseState::Idle, e.state);
    }
    assert_eq!(out.iter().map(|o| o.0).collect::<Vec<_>>(), vec![100.; 4]);
    assert_eq!(
        out.iter().map(|o| o.1).collect::<Vec<_>>(),
        [false, true, true, false].map(Delegated).to_vec()
    );

    // State after first hit and before second
    let out = frame(&mut entities, 200., [None, None, None, None]);
    assert_eq!(out.iter().map(|o| o.0).collect::<Vec<_>>(), vec![200., 200., 200., 150.]);

    // Second hit
    let out = frame(&mut entities, 300., [None, None, None, hit(300., 0)]);
    assert_eq!(out.iter().map(|o| o.0).collect::<Vec<_>>(), vec![300.; 4]);
    assert_eq!(
        out.iter().map(|o| o.1).collect::<Vec<_>>(),
        [false, true, false, false].map(Delegated).to_vec()
    );
}

#[test]
fn hit_on_wrong_layer() {
    let mut entities = vec![entity(ResponseKind::Commence, 1000.)];
    frame(&mut entities, 300., [None, None, None, hit(300., 3)]);
    assert_eq!(entities[0].state, ResponseState::Idle);
}

#[test]
fn hit_with_wrong_scheduling() {
    let mut entities = vec![entity(ResponseKind::Commence, 1000.)];
    frame(&mut entities, 1100., [None, None, None, hit(1100., 0)]);
    assert_eq!(entities[0].state, ResponseState::Idle);
}

#[test]
fn hit_with_correct_layer_and_scheduling() {
    let mut entities = vec![entity(ResponseKind::Commence, 1000.)];
    frame(&mut entities, 300., [None, None, None, hit(300., 0)]);
    assert_eq!(entities[0].state, ResponseState::Active(true));
}

#[test]
fn toggle_flips_per_hit() {
    let response = Response { kind: ResponseKind::<u32>::Toggle, layer: 1 };
    let mut state = ResponseState::Active(false);
    let h = Some(HitInfo { object_time: 5u32, hit_time: 5u32, layer: 1 });
    response.register_hits(&mut state, &[h, h, h]);
    assert_eq!(state, ResponseState::Active(true));
    response.register_hits(&mut state, &[h, None, h]);
    assert_eq!(state, ResponseState::Active(true));
    let mut fresh = ResponseState::Idle;
    response.register_hits(&mut fresh, &[h, h]);
    assert_eq!(fresh, ResponseState::Active(false));
}

#[test]
fn follow_without_hit_stays_at_start() {
    let response = Response { kind: ResponseKind::Follow(10u32), layer: 0 };
    assert_eq!(response.seek_anchor(&ResponseState::Idle), SeekAnchor::SheetStart);
}

#[test]
fn follow_keeps_last_object_time() {
    let response = Response { kind: ResponseKind::Follow(10u32), layer: 0 };
    let mut state = ResponseState::Idle;
    let a = Some(HitInfo { object_time: 3u32, hit_time: 4u32, layer: 0 });
    let b = Some(HitInfo { object_time: 8u32, hit_time: 9u32, layer: 0 });
    let other = Some(HitInfo { object_time: 20u32, hit_time: 20u32, layer: 2 });
    response.register_hits(&mut state, &[a, b, other]);
    assert_eq!(state, ResponseState::Hit(8));
    assert_eq!(response.seek_anchor(&state), SeekAnchor::FollowEnd { hit: 8, excess: 10 });
}

#[test]
fn nil_response_never_changes() {
    let response = Response { kind: ResponseKind::<u32>::Nil, layer: 0 };
    let mut state = ResponseState::Hit(4);
    let h = Some(HitInfo { object_time: 1u32, hit_time: 1u32, layer: 0 });
    response.register_hits(&mut state, &[h, h]);
    assert_eq!(state, ResponseState::Hit(4));
    assert_eq!(response.delegation(&state), Delegated(false));
    assert_eq!(response.seek_anchor(&state), SeekAnchor::SongTime);
}

#[test]
fn commence_not_active_seeks_sheet_start() {
    let response = Response { kind: ResponseKind::<u32>::Commence, layer: 0 };
    assert_eq!(response.seek_anchor(&ResponseState::Active(false)), SeekAnchor::SheetStart);
    assert_eq!(response.seek_anchor(&ResponseState::Active(true)), SeekAnchor::SongTime);
    assert_eq!(response.seek_anchor(&ResponseState::Idle), SeekAnchor::SheetStart);
}
