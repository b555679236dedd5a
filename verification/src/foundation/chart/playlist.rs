use vstd::prelude::*;

verus! {

/// A value steered by hits: ignored, toggled, started or halted.
#[derive(Debug, Clone, Copy, PartialEq, Eq)]
pub enum SignalResponse<T> {
    Ignore(T),
    Toggle(T, bool),
    Commence(T, bool),
    Halt(T, bool),
}

/// The value inside.
pub open spec fn payload<T>(signal: SignalResponse<T>) -> T {
    match signal {
        SignalResponse::Ignore(val) => val,
        SignalResponse::Toggle(val, _) => val,
        SignalResponse::Commence(val, _) => val,
        SignalResponse::Halt(val, _) => val,
    }
}

/// The same response around another value.
pub open spec fn with_payload<T>(signal: SignalResponse<T>, val: T) -> SignalResponse<T> {
    match signal {
        SignalResponse::Ignore(_) => SignalResponse::Ignore(val),
        SignalResponse::Toggle(_, b) => SignalResponse::Toggle(val, b),
        SignalResponse::Commence(_, b) => SignalResponse::Commence(val, b),
        SignalResponse::Halt(_, b) => SignalResponse::Halt(val, b),
    }
}

/// The response after a signal: a toggle flips, a commence is set, a halt
/// is cleared, an ignore stays.
pub open spec fn after_signal<T>(signal: SignalResponse<T>) -> SignalResponse<T> {
    match signal {
        SignalResponse::Toggle(val, b) => SignalResponse::Toggle(val, !b),
        SignalResponse::Commence(val, _) => SignalResponse::Commence(val, true),
        SignalResponse::Halt(val, _) => SignalResponse::Halt(val, false),
        SignalResponse::Ignore(val) => SignalResponse::Ignore(val),
    }
}

impl<T> SignalResponse<T> {
    /// Reacts to a signal: a toggle flips, a commence is set, a halt is
    /// cleared, an ignore stays as it is.
    pub fn respond(&mut self)
        ensures
            *final(self) == after_signal(*old(self)),
    {
        match self {
            Self::Toggle(_, b) => *b = !*b,
            Self::Commence(_, b) => *b = true,
            Self::Halt(_, b) => *b = false,
            _ => {},
        }
    }

    /// The value inside.
    pub fn unwrap(&self) -> (res: &T)
        ensures
            *res == payload(*self),
    {
        match self {
            Self::Ignore(val) | Self::Toggle(val, _) | Self::Commence(val, _) | Self::Halt(val, _) => val,
        }
    }

    /// The value inside, to be changed in place.
    pub fn unwrap_mut(&mut self) -> (res: &mut T)
        ensures
            *res == payload(*old(self)),
            *final(self) == with_payload(*old(self), *final(res)),
    {
        match self {
            Self::Ignore(val) => val,
            Self::Toggle(val, _) => val,
            Self::Commence(val, _) => val,
            Self::Halt(val, _) => val,
        }
    }
}

/// Responding never touches the value inside.
pub proof fn lemma_respond_keeps_payload<T>(signal: SignalResponse<T>)
    ensures
        payload(after_signal(signal)) == payload(signal),
{
}

/// A signal flips a toggle's flag, sets a commence's flag, clears a halt's
/// flag and leaves an ignore as it is; the kind of response never changes.
pub proof fn lemma_respond_flags<T>(val: T, flag: bool)
    ensures
        after_signal(SignalResponse::Toggle(val, flag)) == SignalResponse::Toggle(val, !flag),
        after_signal(SignalResponse::Commence(val, flag)) == SignalResponse::Commence(val, true),
        after_signal(SignalResponse::Halt(val, flag)) == SignalResponse::Halt(val, false),
        after_signal(SignalResponse::Ignore(val)) == SignalResponse::Ignore(val),
{
}

/// Two signals undo each other on a toggle; on every other response a
/// second signal changes nothing more.
pub proof fn lemma_respond_twice<T>(signal: SignalResponse<T>)
    ensures
        signal is Toggle ==> after_signal(after_signal(signal)) == signal,
        !(signal is Toggle) ==> after_signal(after_signal(signal)) == after_signal(signal),
{
}

} // verus!
