use vstd::prelude::*;

verus! {

/// How a channel item reacts to hits on its layer.
#[derive(Clone, Copy, Debug, PartialEq, Eq)]
pub enum Response<Time> {
    Ignore,
    /// Stays at its start until hit; from then on it plays from the current
    /// time.
    Commence { started: bool },
    /// Switches to the delegate channel for good.
    Switch { delegate: usize, switched: bool },
    /// Switches to the delegate channel, and back on the next frame with a
    /// hit, as often as it is hit.
    Toggle { delegate: usize, switched: bool },
    /// Stays at its start without hits; once hit it plays from the hit time
    /// up to the hit time plus the excess.
    Follow { excess: Time, last_hit: Option<Time> },
}

/// A hit: the time the hit object was placed at, so that animations keep in
/// sync with the music, and its layer.
#[derive(Clone, Copy, Debug, PartialEq, Eq)]
pub struct HitInfo<Time> {
    pub obj_time: Time,
    pub layer: u8,
}

/// A target together with the response that steers it.
pub struct SignalResponse<T, Time> {
    pub response: Response<Time>,
    pub layer: u8,
    pub target: T,
}

/// How a channel item maps the time it is played at.
#[derive(Clone, Copy, Debug, PartialEq, Eq)]
pub enum Translation<Time> {
    /// The time itself.
    Identity,
    /// Time zero.
    Zero,
    /// The time clamped to the window from `low` to `low + excess`.
    Clamp { low: Time, excess: Time },
}

/// The response after one hit on its layer; toggles are left to the end of
/// the frame.
pub open spec fn after_hit<Time>(response: Response<Time>, hit: HitInfo<Time>) -> Response<Time> {
    match response {
        Response::Commence { .. } => Response::Commence { started: true },
        Response::Switch { delegate, .. } => Response::Switch { delegate, switched: true },
        Response::Follow { excess, .. } => Response::Follow { excess, last_hit: Some(hit.obj_time) },
        _ => response,
    }
}

/// The response after each hit on `layer` in order.
pub open spec fn after_hits<Time>(response: Response<Time>, layer: u8, hits: Seq<Option<HitInfo<Time>>>) -> Response<Time>
    decreases hits.len(),
{
    if hits.len() == 0 {
        response
    } else {
        let before = after_hits(response, layer, hits.drop_last());
        match hits.last() {
            Some(hit) if hit.layer == layer => after_hit(before, hit),
            _ => before,
        }
    }
}

/// Whether the slot holds a hit on `layer`.
pub open spec fn on_layer<Time>(slot: Option<HitInfo<Time>>, layer: u8) -> bool {
    match slot {
        Some(hit) => hit.layer == layer,
        None => false,
    }
}

/// Whether some hit lies on `layer`.
pub open spec fn any_on<Time>(layer: u8, hits: Seq<Option<HitInfo<Time>>>) -> bool {
    exists|k: int| 0 <= k < hits.len() && on_layer(#[trigger] hits[k], layer)
}

/// The response after a frame of hits: each hit on the layer in turn, then
/// a toggle flips once if any hit was on its layer.
pub open spec fn responded<Time>(response: Response<Time>, layer: u8, hits: Seq<Option<HitInfo<Time>>>) -> Response<Time> {
    let stepped = after_hits(response, layer, hits);
    match stepped {
        Response::Toggle { delegate, switched } if any_on(layer, hits) => Response::Toggle { delegate, switched: !switched },
        _ => stepped,
    }
}

/// The translation a response applies.
pub open spec fn translation_of<Time>(response: Response<Time>) -> Translation<Time> {
    match response {
        Response::Commence { started } => if started { Translation::Identity } else { Translation::Zero },
        Response::Follow { excess, last_hit } => match last_hit {
            Some(hit) => Translation::Clamp { low: hit, excess },
            None => Translation::Zero,
        },
        _ => Translation::Identity,
    }
}

/// The channel whose output a channel shows.
pub open spec fn output_index_of<Time>(response: Response<Time>, index: usize, channels: usize) -> usize {
    match response {
        Response::Switch { delegate, switched } | Response::Toggle { delegate, switched } =>
            if switched && delegate < channels { delegate } else { index },
        _ => index,
    }
}

impl<Time: Copy> Response<Time> {
    /// The channel whose output the channel at `index` shows among
    /// `channels` channels: the delegate of a switched switch or toggle when
    /// there is such a channel, else its own.
    pub fn output_index(&self, index: usize, channels: usize) -> (res: usize)
        ensures
            res == output_index_of(*self, index, channels),
            (*self is Switch && self->Switch_switched && self->Switch_delegate < channels) ==> res == self->Switch_delegate,
            (*self is Toggle && self->Toggle_switched && self->Toggle_delegate < channels) ==> res == self->Toggle_delegate,
            !(*self is Switch && self->Switch_switched && self->Switch_delegate < channels) && !(*self is Toggle
                && self->Toggle_switched && self->Toggle_delegate < channels) ==> res == index,
    {
        match *self {
            Response::Switch { delegate, switched } | Response::Toggle { delegate, switched } => {
                if switched && delegate < channels {
                    delegate
                } else {
                    index
                }
            },
            _ => index,
        }
    }
}

impl<T, Time: Copy> SignalResponse<T, Time> {
    pub fn new(layer: u8, target: T, response: Response<Time>) -> (res: Self)
        ensures
            res.layer == layer,
            res.target == target,
            res.response == response,
    {
        Self { target, layer, response }
    }

    /// Reacts to a frame of hits: each hit on the layer starts a commence,
    /// switches a switch and sets the last hit of a follow; a toggle flips
    /// once when any hit is on its layer. Holds count as hits.
    pub fn respond(&mut self, hits: &[Option<HitInfo<Time>>; 4])
        ensures
            final(self).response == responded(old(self).response, old(self).layer, hits@),
            final(self).layer == old(self).layer,
            final(self).target == old(self).target,
    {
        let mut i: usize = 0;
        assert(hits@.take(0) =~= Seq::<Option<HitInfo<Time>>>::empty());
        while i < 4
            invariant
                i <= 4,
                hits@.len() == 4,
                self.layer == old(self).layer,
                self.target == old(self).target,
                self.response == after_hits(old(self).response, old(self).layer, hits@.take(i as int)),
            decreases 4 - i,
        {
            assert(hits@.take(i + 1).drop_last() =~= hits@.take(i as int));
            if let Some(hit) = hits[i] {
                if hit.layer == self.layer {
                    let next = match self.response {
                        Response::Commence { .. } => Response::Commence { started: true },
                        Response::Switch { delegate, .. } => Response::Switch { delegate, switched: true },
                        Response::Follow { excess, .. } => Response::Follow { excess, last_hit: Some(hit.obj_time) },
                        other => other,
                    };
                    self.response = next;
                }
            }
            i += 1;
        }
        assert(hits@.take(4) =~= hits@);
        let mut any = false;
        let mut k: usize = 0;
        while k < 4
            invariant
                k <= 4,
                hits@.len() == 4,
                any <==> exists|m: int| 0 <= m < k && on_layer(#[trigger] hits@[m], self.layer),
            decreases 4 - k,
        {
            if let Some(hit) = hits[k] {
                if hit.layer == self.layer {
                    any = true;
                }
            }
            k += 1;
        }
        if any {
            if let Response::Toggle { delegate, switched } = self.response {
                self.response = Response::Toggle { delegate, switched: !switched };
            }
        }
    }

    /// How the item maps the time it is played at: a commence not yet
    /// started and a follow never hit stay at zero, a follow that was hit is
    /// clamped to its window, and everything else passes the time through.
    pub fn translate(&self) -> (res: Translation<Time>)
        ensures
            res == translation_of(self.response),
    {
        match self.response {
            Response::Commence { started } => if started { Translation::Identity } else { Translation::Zero },
            Response::Follow { excess, last_hit } => match last_hit {
                Some(hit) => Translation::Clamp { low: hit, excess },
                None => Translation::Zero,
            },
            _ => Translation::Identity,
        }
    }
}


proof fn lemma_after_hits_fixed<Time>(response: Response<Time>, layer: u8, hits: Seq<Option<HitInfo<Time>>>)
    requires
        response is Ignore || response is Toggle,
    ensures
        after_hits(response, layer, hits) == response,
    decreases hits.len(),
{
    if hits.len() > 0 {
        lemma_after_hits_fixed(response, layer, hits.drop_last());
    }
}

proof fn lemma_any_on_step<Time>(layer: u8, hits: Seq<Option<HitInfo<Time>>>)
    requires
        hits.len() > 0,
    ensures
        any_on(layer, hits) == (any_on(layer, hits.drop_last()) || on_layer(hits.last(), layer)),
{
    let front = hits.drop_last();
    if any_on(layer, hits) && !on_layer(hits.last(), layer) {
        let k = choose|k: int| 0 <= k < hits.len() && on_layer(#[trigger] hits[k], layer);
        assert(front[k] == hits[k]);
    }
    if any_on(layer, front) {
        let k = choose|k: int| 0 <= k < front.len() && on_layer(#[trigger] front[k], layer);
        assert(hits[k] == front[k]);
    }
}

/// A toggle flips exactly once in a frame with at least one hit on its
/// layer, however many there are, and keeps its delegate.
pub proof fn lemma_toggle_flips_once_per_frame<Time>(delegate: usize, switched: bool, layer: u8, hits: Seq<Option<HitInfo<Time>>>)
    ensures
        responded((Response::<Time>::Toggle { delegate, switched }), layer, hits) == (Response::<Time>::Toggle {
            delegate,
            switched: switched != any_on(layer, hits),
        }),
{
    let toggle = Response::<Time>::Toggle { delegate, switched };
    lemma_after_hits_fixed(toggle, layer, hits);
}

/// A response that ignores hits stays as it is.
pub proof fn lemma_ignore_stays<Time>(layer: u8, hits: Seq<Option<HitInfo<Time>>>)
    ensures
        responded(Response::<Time>::Ignore, layer, hits) == Response::<Time>::Ignore,
{
    lemma_after_hits_fixed(Response::<Time>::Ignore, layer, hits);
}

/// A frame without hits on the layer changes no response.
pub proof fn lemma_quiet_frame<Time>(response: Response<Time>, layer: u8, hits: Seq<Option<HitInfo<Time>>>)
    requires
        !any_on(layer, hits),
    ensures
        responded(response, layer, hits) == response,
    decreases hits.len(),
{
    if hits.len() > 0 {
        lemma_any_on_step(layer, hits);
        lemma_quiet_frame(response, layer, hits.drop_last());
    }
}

/// Commence and switch latch: a hit on the layer starts or switches them,
/// and no frame undoes it.
pub proof fn lemma_commence_and_switch_latch<Time>(response: Response<Time>, layer: u8, hits: Seq<Option<HitInfo<Time>>>)
    requires
        response is Commence || response is Switch,
    ensures
        any_on(layer, hits) ==> responded(response, layer, hits) == match response {
            Response::Switch { delegate, .. } => (Response::<Time>::Switch { delegate, switched: true }),
            _ => (Response::<Time>::Commence { started: true }),
        },
        !any_on(layer, hits) ==> responded(response, layer, hits) == response,
    decreases hits.len(),
{
    if hits.len() > 0 {
        lemma_any_on_step(layer, hits);
        lemma_commence_and_switch_latch(response, layer, hits.drop_last());
    }
}

/// The last hit on `layer`, if any.
pub open spec fn last_hit_on<Time>(layer: u8, hits: Seq<Option<HitInfo<Time>>>) -> Option<HitInfo<Time>>
    decreases hits.len(),
{
    if hits.len() == 0 {
        None
    } else {
        match hits.last() {
            Some(hit) if hit.layer == layer => Some(hit),
            _ => last_hit_on(layer, hits.drop_last()),
        }
    }
}

proof fn lemma_follow_steps<Time>(excess: Time, last_hit: Option<Time>, layer: u8, hits: Seq<Option<HitInfo<Time>>>)
    ensures
        after_hits(Response::Follow { excess, last_hit }, layer, hits) == (Response::Follow {
            excess,
            last_hit: match last_hit_on(layer, hits) {
                Some(hit) => Some(hit.obj_time),
                None => last_hit,
            },
        }),
    decreases hits.len(),
{
    if hits.len() > 0 {
        lemma_follow_steps(excess, last_hit, layer, hits.drop_last());
    }
}

/// A follow takes the object time of the last hit on its layer in the frame,
/// whatever hit it remembered before; a frame without such a hit leaves it
/// as it was. The excess never changes.
pub proof fn lemma_follow_takes_last_hit<Time>(excess: Time, last_hit: Option<Time>, layer: u8, hits: Seq<Option<HitInfo<Time>>>)
    ensures
        responded(Response::Follow { excess, last_hit }, layer, hits) == (Response::Follow {
            excess,
            last_hit: match last_hit_on(layer, hits) {
                Some(hit) => Some(hit.obj_time),
                None => last_hit,
            },
        }),
{
    lemma_follow_steps(excess, last_hit, layer, hits);
}

/// A commence plays the time itself once started and time zero before; a
/// follow plays time zero until hit and then clamps to the window from its
/// last hit; every other response plays the time itself.
pub proof fn lemma_translation_by_response<Time>(response: Response<Time>)
    ensures
        response is Commence && response->Commence_started ==> translation_of(response)
            == Translation::<Time>::Identity,
        response is Commence && !response->Commence_started ==> translation_of(response)
            == Translation::<Time>::Zero,
        response is Follow && response->Follow_last_hit is Some ==> translation_of(response) == (
        Translation::<Time>::Clamp { low: response->Follow_last_hit->0, excess: response->Follow_excess }),
        response is Follow && response->Follow_last_hit is None ==> translation_of(response)
            == Translation::<Time>::Zero,
        (response is Ignore || response is Switch || response is Toggle) ==> translation_of(response)
            == Translation::<Time>::Identity,
{
}

/// A switched switch or toggle shows the output of its delegate when that
/// channel exists; every other channel shows its own output.
pub proof fn lemma_output_index_routes<Time>(response: Response<Time>, index: usize, channels: usize)
    ensures
        (response is Switch && response->Switch_switched && response->Switch_delegate < channels)
            ==> output_index_of(response, index, channels) == response->Switch_delegate,
        (response is Toggle && response->Toggle_switched && response->Toggle_delegate < channels)
            ==> output_index_of(response, index, channels) == response->Toggle_delegate,
        !(response is Switch && response->Switch_switched && response->Switch_delegate < channels)
            && !(response is Toggle && response->Toggle_switched && response->Toggle_delegate < channels)
            ==> output_index_of(response, index, channels) == index,
{
}

/// A channel shows the output of an existing channel: given a channel index
/// in range, the index it reads from is in range too.
pub proof fn lemma_output_index_in_range<Time>(response: Response<Time>, index: usize, channels: usize)
    requires
        index < channels,
    ensures
        output_index_of(response, index, channels) < channels,
{
}

} // verus!
