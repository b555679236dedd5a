use crate::hit::HitInfo;
use vstd::prelude::*;

verus! {

/// How an automation clip reacts to hits on its layer.
#[derive(Debug, Clone, Copy, PartialEq, Eq)]
pub enum ResponseKind<Time> {
    Nil,
    /// Stays at its start until hit; once hit it plays from the current time.
    Commence,
    /// Redirects the output to the given slot for good.
    Switch(u8),
    /// Redirects the output to the given slot, and back on the next hit, as
    /// often as it is hit.
    Toggle(u8),
    /// Stays put without hits; each hit plays from the hit time up to the
    /// hit time plus the excess.
    Follow(Time),
}

/// A response and the layer of hits it listens to.
#[derive(Debug, Clone, Copy, PartialEq, Eq)]
pub struct HitResponse<Time> {
    pub kind: ResponseKind<Time>,
    pub layer: u8,
}

/// What a clip's response remembers between frames.
#[derive(Debug, Clone, Copy, PartialEq, Eq)]
pub enum ResponseState<Time> {
    Nil,
    Hit(Time),
    Delegated(bool),
}

/// The time a clip plays at, before the clip's own start is taken off.
#[derive(Debug, Clone, Copy, PartialEq, Eq)]
pub enum ClipAnchor<Time> {
    /// The start of the clip.
    ClipStart,
    /// The song time, unless it lies outside the window from `hit` to
    /// `hit + excess`, in which case the end of that window.
    FollowEnd { hit: Time, excess: Time },
    /// The song time.
    SongTime,
}

/// The state after one hit on the response's layer.
pub open spec fn after_hit<Time>(kind: ResponseKind<Time>, state: ResponseState<Time>, hit: HitInfo<Time>) -> ResponseState<Time> {
    match (kind, state) {
        (ResponseKind::Commence, _) | (ResponseKind::Switch(_), _) => ResponseState::Delegated(true),
        (ResponseKind::Toggle(_), ResponseState::Delegated(delegate)) => ResponseState::Delegated(!delegate),
        (ResponseKind::Toggle(_), _) => ResponseState::Delegated(true),
        (ResponseKind::Follow(_), _) => ResponseState::Hit(hit.object_time),
        _ => state,
    }
}

/// The state after the hits in order; empty slots and hits on other layers
/// change nothing.
pub open spec fn after_hits<Time>(response: HitResponse<Time>, state: ResponseState<Time>, hits: Seq<Option<HitInfo<Time>>>) -> ResponseState<Time>
    decreases hits.len(),
{
    if hits.len() == 0 {
        state
    } else {
        let before = after_hits(response, state, hits.drop_last());
        match hits.last() {
            Some(hit) if hit.layer == response.layer => after_hit(response.kind, before, hit),
            _ => before,
        }
    }
}

/// The slot the output goes to instead of its own, if any.
pub open spec fn redirect_of<Time>(kind: ResponseKind<Time>, state: ResponseState<Time>) -> Option<u8> {
    match (kind, state) {
        (ResponseKind::Switch(target), ResponseState::Delegated(true)) => Some(target),
        (ResponseKind::Toggle(target), ResponseState::Delegated(true)) => Some(target),
        _ => None,
    }
}

/// The time the clip plays at.
pub open spec fn clip_anchor_of<Time>(kind: ResponseKind<Time>, state: ResponseState<Time>) -> ClipAnchor<Time> {
    match (kind, state) {
        (ResponseKind::Commence, ResponseState::Delegated(true)) => ClipAnchor::SongTime,
        (ResponseKind::Commence, _) => ClipAnchor::ClipStart,
        (ResponseKind::Follow(excess), ResponseState::Hit(hit)) => ClipAnchor::FollowEnd { hit, excess },
        (ResponseKind::Follow(_), _) => ClipAnchor::ClipStart,
        _ => ClipAnchor::SongTime,
    }
}

impl<Time: Copy> HitResponse<Time> {
    /// Applies the hits in order: commence and switch delegate, a toggle
    /// flips its delegation (a toggle not yet delegated delegates), and a
    /// follow remembers the object time of the hit. Hits on other layers and
    /// empty slots are passed over.
    pub fn register_hits(&self, state: &mut ResponseState<Time>, hits: &[Option<HitInfo<Time>>])
        ensures
            *final(state) == after_hits(*self, *old(state), hits@),
    {
        let mut i: usize = 0;
        assert(hits@.take(0) =~= Seq::<Option<HitInfo<Time>>>::empty());
        while i < hits.len()
            invariant
                i <= hits.len(),
                *state == after_hits(*self, *old(state), hits@.take(i as int)),
            decreases hits.len() - i,
        {
            assert(hits@.take(i + 1).drop_last() =~= hits@.take(i as int));
            if let Some(hit) = hits[i] {
                if hit.layer == self.layer {
                    let next = match (self.kind, *state) {
                        (ResponseKind::Commence, _) | (ResponseKind::Switch(_), _) => ResponseState::Delegated(true),
                        (ResponseKind::Toggle(_), ResponseState::Delegated(delegate)) => ResponseState::Delegated(!delegate),
                        (ResponseKind::Toggle(_), _) => ResponseState::Delegated(true),
                        (ResponseKind::Follow(_), _) => ResponseState::Hit(hit.object_time),
                        _ => *state,
                    };
                    *state = next;
                }
            }
            i += 1;
        }
        assert(hits@.take(hits.len() as int) =~= hits@);
    }

    /// The slot the output is redirected to: the target of a switch or a
    /// toggle that is delegated, else none.
    pub fn redirect(&self, state: &ResponseState<Time>) -> (res: Option<u8>)
        ensures
            res == redirect_of(self.kind, *state),
    {
        match (self.kind, *state) {
            (ResponseKind::Switch(target), ResponseState::Delegated(true)) | (ResponseKind::Toggle(target), ResponseState::Delegated(true)) => Some(target),
            _ => None,
        }
    }

    /// The time the clip plays at: a commence stays at the clip start until
    /// it is delegated, a follow stays there until it is hit and then plays
    /// its follow window, and everything else plays at the song time.
    pub fn clip_anchor(&self, state: &ResponseState<Time>) -> (res: ClipAnchor<Time>)
        ensures
            res == clip_anchor_of(self.kind, *state),
    {
        match (self.kind, *state) {
            (ResponseKind::Commence, ResponseState::Delegated(true)) => ClipAnchor::SongTime,
            (ResponseKind::Commence, _) => ClipAnchor::ClipStart,
            (ResponseKind::Follow(excess), ResponseState::Hit(hit)) => ClipAnchor::FollowEnd { hit, excess },
            (ResponseKind::Follow(_), _) => ClipAnchor::ClipStart,
            _ => ClipAnchor::SongTime,
        }
    }
}

/// A toggle flips its delegation once per hit on its layer; a toggle that
/// was not delegated is delegated by its first hit.
pub proof fn lemma_toggle_parity<Time>(response: HitResponse<Time>, state: ResponseState<Time>, hits: Seq<Option<HitInfo<Time>>>)
    requires
        response.kind is Toggle,
    ensures
        crate::hit::hits_on(response.layer, hits) > 0 ==> after_hits(response, state, hits)
            == ResponseState::<Time>::Delegated(
            match state {
                ResponseState::Delegated(delegate) => delegate != (crate::hit::hits_on(response.layer, hits) % 2 == 1),
                _ => crate::hit::hits_on(response.layer, hits) % 2 == 1,
            },
        ),
        crate::hit::hits_on(response.layer, hits) == 0 ==> after_hits(response, state, hits) == state,
    decreases hits.len(),
{
    if hits.len() > 0 {
        lemma_toggle_parity(response, state, hits.drop_last());
    }
}

/// Commence and switch delegate for good once hit on their layer.
pub proof fn lemma_latching_responses<Time>(response: HitResponse<Time>, state: ResponseState<Time>, hits: Seq<Option<HitInfo<Time>>>)
    requires
        response.kind is Commence || response.kind is Switch,
    ensures
        crate::hit::hits_on(response.layer, hits) > 0 ==> after_hits(response, state, hits)
            == ResponseState::<Time>::Delegated(true),
        crate::hit::hits_on(response.layer, hits) == 0 ==> after_hits(response, state, hits) == state,
    decreases hits.len(),
{
    if hits.len() > 0 {
        lemma_latching_responses(response, state, hits.drop_last());
    }
}

/// A commence clip stays at its start until a hit on its layer; from then on
/// it plays at the song time.
pub proof fn lemma_commence_waits_for_hit<Time>(response: HitResponse<Time>, hits: Seq<Option<HitInfo<Time>>>)
    requires
        response.kind is Commence,
    ensures
        crate::hit::hits_on(response.layer, hits) == 0 ==> clip_anchor_of(
            response.kind,
            after_hits(response, ResponseState::<Time>::Nil, hits),
        ) == ClipAnchor::<Time>::ClipStart,
        crate::hit::hits_on(response.layer, hits) > 0 ==> clip_anchor_of(
            response.kind,
            after_hits(response, ResponseState::<Time>::Nil, hits),
        ) == ClipAnchor::<Time>::SongTime,
{
    lemma_latching_responses(response, ResponseState::<Time>::Nil, hits);
}

/// A follow clip remembers the object time of the last hit on its layer,
/// whatever that hit's own hit time was; without such a hit its state stays.
pub proof fn lemma_follow_remembers_last<Time>(response: HitResponse<Time>, state: ResponseState<Time>, hits: Seq<Option<HitInfo<Time>>>)
    requires
        response.kind is Follow,
    ensures
        after_hits(response, state, hits) == match crate::hit::last_on(response.layer, hits) {
            Some(hit) => ResponseState::Hit(hit.object_time),
            None => state,
        },
    decreases hits.len(),
{
    if hits.len() > 0 {
        lemma_follow_remembers_last(response, state, hits.drop_last());
    }
}

/// A clip response of kind `Nil` never changes its state, whatever the hits.
pub proof fn lemma_nil_ignores_hits<Time>(response: HitResponse<Time>, state: ResponseState<Time>, hits: Seq<Option<HitInfo<Time>>>)
    requires
        response.kind is Nil,
    ensures
        after_hits(response, state, hits) == state,
    decreases hits.len(),
{
    if hits.len() > 0 {
        lemma_nil_ignores_hits(response, state, hits.drop_last());
    }
}

/// Hits on other layers leave a clip response's state as it was.
pub proof fn lemma_other_layers_ignored<Time>(response: HitResponse<Time>, state: ResponseState<Time>, hits: Seq<Option<HitInfo<Time>>>)
    requires
        crate::hit::hits_on(response.layer, hits) == 0,
    ensures
        after_hits(response, state, hits) == state,
    decreases hits.len(),
{
    if hits.len() > 0 {
        lemma_other_layers_ignored(response, state, hits.drop_last());
    }
}

/// A delegated switch or toggle redirects to its own target slot; switch,
/// toggle and nil clips always play at the song time, a commence only once
/// delegated, and a follow plays the window from its hit once hit; until
/// then commence and follow are held at the clip start.
pub proof fn lemma_redirect_and_anchor_by_kind<Time>(kind: ResponseKind<Time>, state: ResponseState<Time>)
    ensures
        kind is Switch && state == ResponseState::<Time>::Delegated(true) ==> redirect_of(kind, state) == Some(
            kind->Switch_0,
        ),
        kind is Toggle && state == ResponseState::<Time>::Delegated(true) ==> redirect_of(kind, state) == Some(
            kind->Toggle_0,
        ),
        (kind is Switch || kind is Toggle || kind is Nil) ==> clip_anchor_of(kind, state)
            == ClipAnchor::<Time>::SongTime,
        clip_anchor_of(kind, state) == ClipAnchor::<Time>::ClipStart <==> (kind is Commence && state
            != ResponseState::<Time>::Delegated(true)) || (kind is Follow && !(state is Hit)),
        kind is Commence && state == ResponseState::<Time>::Delegated(true) ==> clip_anchor_of(kind, state)
            == ClipAnchor::<Time>::SongTime,
        kind is Follow && state is Hit ==> clip_anchor_of(kind, state) == (ClipAnchor::<Time>::FollowEnd {
            hit: state->Hit_0,
            excess: kind->Follow_0,
        }),
{
}

/// The output is redirected only by a delegated switch or toggle, and then
/// to its own target.
pub proof fn lemma_redirect_needs_delegation<Time>(kind: ResponseKind<Time>, state: ResponseState<Time>)
    ensures
        redirect_of(kind, state) is Some <==> (kind is Switch || kind is Toggle) && state
            == ResponseState::<Time>::Delegated(true),
{
}

} // verus!
