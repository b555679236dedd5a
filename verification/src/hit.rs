use vstd::prelude::*;

verus! {

/// A registered hit. The object time is the time the hit object was placed
/// at, so that animations keep in sync with the music however early or late
/// the hit came.
#[derive(Debug, Clone, Copy, PartialEq, Eq)]
pub struct HitInfo<Time> {
    pub object_time: Time,
    pub hit_time: Time,
    pub layer: u8,
}

/// The hits of the current frame, one slot per key.
#[derive(Debug, Clone, Copy)]
pub struct HitRegister<Time>(pub [Option<HitInfo<Time>>; 4]);

/// How a sheet reacts to hits on its layer.
#[derive(Debug, Clone, Copy, PartialEq, Eq)]
pub enum ResponseKind<Time> {
    Nil,
    /// Stays at its start until hit; once hit it plays from the current time.
    Commence,
    /// Switches to the delegate source for good.
    Switch,
    /// Switches to the delegate source, and back on the next hit, as often as
    /// it is hit.
    Toggle,
    /// Stays put without hits; each hit plays from the hit time up to the
    /// hit time plus the excess.
    Follow(Time),
}

/// A response and the layer of hits it listens to.
#[derive(Debug, Clone, Copy, PartialEq, Eq)]
pub struct Response<Time> {
    pub kind: ResponseKind<Time>,
    pub layer: u8,
}

/// What a response remembers between frames.
#[derive(Debug, Clone, Copy, PartialEq, Eq)]
pub enum ResponseState<Time> {
    Idle,
    Hit(Time),
    Active(bool),
}

/// Whether a channel plays its delegate source.
#[derive(Default, Debug, Clone, Copy, PartialEq, Eq)]
pub struct Delegated(pub bool);

/// Where a channel seeks to in the current frame.
#[derive(Debug, Clone, Copy, PartialEq, Eq)]
pub enum SeekAnchor<Time> {
    /// The start of the sheet.
    SheetStart,
    /// The song time, unless it lies outside the window from `hit` to
    /// `hit + excess`, in which case the end of that window.
    FollowEnd { hit: Time, excess: Time },
    /// The song time.
    SongTime,
}

/// The state after one hit on the response's layer.
pub open spec fn after_hit<Time>(kind: ResponseKind<Time>, state: ResponseState<Time>, hit: HitInfo<Time>) -> ResponseState<Time> {
    match (kind, state) {
        (ResponseKind::Toggle, ResponseState::Active(active)) => ResponseState::Active(!active),
        (ResponseKind::Follow(_), _) => ResponseState::Hit(hit.object_time),
        (ResponseKind::Commence, _) | (ResponseKind::Switch, _) | (ResponseKind::Toggle, _) => ResponseState::Active(true),
        _ => state,
    }
}

/// The state after the hits in order; empty slots and hits on other layers
/// change nothing.
pub open spec fn after_hits<Time>(response: Response<Time>, state: ResponseState<Time>, hits: Seq<Option<HitInfo<Time>>>) -> ResponseState<Time>
    decreases hits.len(),
{
    if hits.len() == 0 {
        state
    } else {
        let before = after_hits(response, state, hits.drop_last());
        match hits.last() {
            Some(hit) if hit.layer == response.layer => after_hit(response.kind, before, hit),
            _ => before,
        }
    }
}

/// The number of hits on `layer`.
pub open spec fn hits_on<Time>(layer: u8, hits: Seq<Option<HitInfo<Time>>>) -> nat
    decreases hits.len(),
{
    if hits.len() == 0 {
        0
    } else {
        hits_on(layer, hits.drop_last()) + match hits.last() {
            Some(hit) if hit.layer == layer => 1nat,
            _ => 0nat,
        }
    }
}

/// Whether the channel plays its delegate.
pub open spec fn delegates<Time>(kind: ResponseKind<Time>, state: ResponseState<Time>) -> bool {
    match (kind, state) {
        (ResponseKind::Switch, ResponseState::Active(active)) => active,
        (ResponseKind::Toggle, ResponseState::Active(active)) => active,
        _ => false,
    }
}

/// Where the channel seeks to.
pub open spec fn seek_anchor_of<Time>(kind: ResponseKind<Time>, state: ResponseState<Time>) -> SeekAnchor<Time> {
    match (kind, state) {
        (ResponseKind::Commence, ResponseState::Active(true)) => SeekAnchor::SongTime,
        (ResponseKind::Commence, _) => SeekAnchor::SheetStart,
        (ResponseKind::Follow(excess), ResponseState::Hit(hit)) => SeekAnchor::FollowEnd { hit, excess },
        (ResponseKind::Follow(_), _) => SeekAnchor::SheetStart,
        _ => SeekAnchor::SongTime,
    }
}

impl<Time: Copy> Response<Time> {
    /// Applies the hits in order: a toggle that is active flips, a follow
    /// remembers the object time of the hit, and commence, switch and toggle
    /// become active. Hits on other layers and empty slots are passed over.
    pub fn register_hits(&self, state: &mut ResponseState<Time>, hits: &[Option<HitInfo<Time>>])
        ensures
            *final(state) == after_hits(*self, *old(state), hits@),
    {
        let mut i: usize = 0;
        assert(hits@.take(0) =~= Seq::<Option<HitInfo<Time>>>::empty());
        while i < hits.len()
            invariant
                i <= hits.len(),
                *state == after_hits(*self, *old(state), hits@.take(i as int)),
            decreases hits.len() - i,
        {
            assert(hits@.take(i + 1).drop_last() =~= hits@.take(i as int));
            if let Some(hit) = hits[i] {
                if hit.layer == self.layer {
                    let next = match (self.kind, *state) {
                        (ResponseKind::Toggle, ResponseState::Active(active)) => ResponseState::Active(!active),
                        (ResponseKind::Follow(_), _) => ResponseState::Hit(hit.object_time),
                        (ResponseKind::Commence, _) | (ResponseKind::Switch, _) | (ResponseKind::Toggle, _) => ResponseState::Active(true),
                        _ => *state,
                    };
                    *state = next;
                }
            }
            i += 1;
        }
        assert(hits@.take(hits.len() as int) =~= hits@);
    }

    /// Whether the channel plays its delegate: only an active switch or
    /// toggle does.
    pub fn delegation(&self, state: &ResponseState<Time>) -> (res: Delegated)
        ensures
            res.0 == delegates(self.kind, *state),
    {
        match (self.kind, *state) {
            (ResponseKind::Switch, ResponseState::Active(active)) | (ResponseKind::Toggle, ResponseState::Active(active)) => Delegated(active),
            _ => Delegated(false),
        }
    }

    /// Where the channel seeks to: a commence stays at the sheet start until
    /// it is active, a follow stays there until it is hit and then plays its
    /// follow window, and everything else plays at the song time.
    pub fn seek_anchor(&self, state: &ResponseState<Time>) -> (res: SeekAnchor<Time>)
        ensures
            res == seek_anchor_of(self.kind, *state),
            (self.kind is Switch || self.kind is Toggle || self.kind is Nil) ==> res == SeekAnchor::<Time>::SongTime,
            self.kind is Commence ==> (res == SeekAnchor::<Time>::SheetStart <==> *state != ResponseState::<Time>::Active(true)),
            self.kind is Commence && *state == ResponseState::<Time>::Active(true) ==> res == SeekAnchor::<Time>::SongTime,
            self.kind is Follow ==> (res == SeekAnchor::<Time>::SheetStart <==> !(*state is Hit)),
    {
        match (self.kind, *state) {
            (ResponseKind::Commence, ResponseState::Active(true)) => SeekAnchor::SongTime,
            (ResponseKind::Commence, _) => SeekAnchor::SheetStart,
            (ResponseKind::Follow(excess), ResponseState::Hit(hit)) => SeekAnchor::FollowEnd { hit, excess },
            (ResponseKind::Follow(_), _) => SeekAnchor::SheetStart,
            _ => SeekAnchor::SongTime,
        }
    }
}


/// The last hit on `layer`, if any.
pub open spec fn last_on<Time>(layer: u8, hits: Seq<Option<HitInfo<Time>>>) -> Option<HitInfo<Time>>
    decreases hits.len(),
{
    if hits.len() == 0 {
        None
    } else {
        match hits.last() {
            Some(hit) if hit.layer == layer => Some(hit),
            _ => last_on(layer, hits.drop_last()),
        }
    }
}

/// A response of kind `Nil` never changes its state, whatever the hits.
pub proof fn lemma_nil_ignores_hits<Time>(response: Response<Time>, state: ResponseState<Time>, hits: Seq<Option<HitInfo<Time>>>)
    requires
        response.kind == ResponseKind::<Time>::Nil,
    ensures
        after_hits(response, state, hits) == state,
    decreases hits.len(),
{
    if hits.len() > 0 {
        lemma_nil_ignores_hits(response, state, hits.drop_last());
    }
}

/// Hits on other layers leave a response's state as it was.
pub proof fn lemma_other_layers_ignored<Time>(response: Response<Time>, state: ResponseState<Time>, hits: Seq<Option<HitInfo<Time>>>)
    requires
        hits_on(response.layer, hits) == 0,
    ensures
        after_hits(response, state, hits) == state,
    decreases hits.len(),
{
    if hits.len() > 0 {
        lemma_other_layers_ignored(response, state, hits.drop_last());
    }
}

/// A toggle flips once per hit on its layer: from `Active(a)` it ends at
/// `a` flipped as often as it was hit; from any other state the first hit
/// activates it, so it ends active exactly when it was hit an odd number of
/// times.
pub proof fn lemma_toggle_parity<Time>(response: Response<Time>, state: ResponseState<Time>, hits: Seq<Option<HitInfo<Time>>>)
    requires
        response.kind == ResponseKind::<Time>::Toggle,
    ensures
        hits_on(response.layer, hits) > 0 ==> after_hits(response, state, hits) == ResponseState::<Time>::Active(
            match state {
                ResponseState::Active(active) => active != (hits_on(response.layer, hits) % 2 == 1),
                _ => hits_on(response.layer, hits) % 2 == 1,
            },
        ),
        hits_on(response.layer, hits) == 0 ==> after_hits(response, state, hits) == state,
    decreases hits.len(),
{
    if hits.len() > 0 {
        lemma_toggle_parity(response, state, hits.drop_last());
    }
}

/// Commence and switch latch: once hit on their layer they are active, and
/// further hits keep them so.
pub proof fn lemma_latching_responses<Time>(response: Response<Time>, state: ResponseState<Time>, hits: Seq<Option<HitInfo<Time>>>)
    requires
        response.kind == ResponseKind::<Time>::Commence || response.kind == ResponseKind::<Time>::Switch,
    ensures
        hits_on(response.layer, hits) > 0 ==> after_hits(response, state, hits) == ResponseState::<Time>::Active(true),
        hits_on(response.layer, hits) == 0 ==> after_hits(response, state, hits) == state,
    decreases hits.len(),
{
    if hits.len() > 0 {
        lemma_latching_responses(response, state, hits.drop_last());
    }
}

/// A follow remembers the object time of the last hit on its layer.
pub proof fn lemma_follow_remembers_last<Time>(response: Response<Time>, state: ResponseState<Time>, hits: Seq<Option<HitInfo<Time>>>)
    requires
        response.kind is Follow,
    ensures
        after_hits(response, state, hits) == match last_on(response.layer, hits) {
            Some(hit) => ResponseState::Hit(hit.object_time),
            None => state,
        },
    decreases hits.len(),
{
    if hits.len() > 0 {
        lemma_follow_remembers_last(response, state, hits.drop_last());
    }
}

/// Only a commence that is not active and a follow that was not hit are held
/// at the sheet start; switch, toggle and nil sheets play at the song time in
/// every state, and so does an active commence; a follow that was hit plays
/// the window from its hit.
pub proof fn lemma_seek_anchor_by_kind<Time>(kind: ResponseKind<Time>, state: ResponseState<Time>)
    ensures
        (kind is Switch || kind is Toggle || kind is Nil) ==> seek_anchor_of(kind, state)
            == SeekAnchor::<Time>::SongTime,
        seek_anchor_of(kind, state) == SeekAnchor::<Time>::SheetStart <==> (kind is Commence && state
            != ResponseState::<Time>::Active(true)) || (kind is Follow && !(state is Hit)),
        kind is Commence && state == ResponseState::<Time>::Active(true) ==> seek_anchor_of(kind, state)
            == SeekAnchor::<Time>::SongTime,
        kind is Follow && state is Hit ==> seek_anchor_of(kind, state) == (SeekAnchor::<Time>::FollowEnd {
            hit: state->Hit_0,
            excess: kind->Follow_0,
        }),
{
}

/// A commence stays at the sheet start until a hit on its layer; from then
/// on it plays at the song time.
pub proof fn lemma_commence_waits_for_hit<Time>(response: Response<Time>, hits: Seq<Option<HitInfo<Time>>>)
    requires
        response.kind == ResponseKind::<Time>::Commence,
    ensures
        hits_on(response.layer, hits) == 0 ==> seek_anchor_of(
            response.kind,
            after_hits(response, ResponseState::<Time>::Idle, hits),
        ) == SeekAnchor::<Time>::SheetStart,
        hits_on(response.layer, hits) > 0 ==> seek_anchor_of(
            response.kind,
            after_hits(response, ResponseState::<Time>::Idle, hits),
        ) == SeekAnchor::<Time>::SongTime,
{
    lemma_latching_responses(response, ResponseState::<Time>::Idle, hits);
}

/// A follow stays at the sheet start until a hit on its layer; then it plays
/// the window that starts at the object time of the last such hit.
pub proof fn lemma_follow_waits_for_hit<Time>(response: Response<Time>, hits: Seq<Option<HitInfo<Time>>>)
    requires
        response.kind is Follow,
    ensures
        seek_anchor_of(response.kind, after_hits(response, ResponseState::<Time>::Idle, hits))
            == match last_on(response.layer, hits) {
            Some(hit) => SeekAnchor::FollowEnd { hit: hit.object_time, excess: response.kind->Follow_0 },
            None => SeekAnchor::<Time>::SheetStart,
        },
{
    lemma_follow_remembers_last(response, ResponseState::<Time>::Idle, hits);
}

/// Only an active switch or toggle plays its delegate.
pub proof fn lemma_delegation_needs_activation<Time>(kind: ResponseKind<Time>, state: ResponseState<Time>)
    ensures
        delegates(kind, state) <==> (kind == ResponseKind::<Time>::Switch || kind == ResponseKind::<Time>::Toggle)
            && state == ResponseState::<Time>::Active(true),
{
}

} // verus!
