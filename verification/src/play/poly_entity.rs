use vstd::prelude::*;

verus! {

/// The keys a beat asks for.
pub struct HitKeys {
    alphas: u8,
    phat: bool,
}

/// A value taken relative to the entity or as it stands.
pub enum Reference<T> {
    Relative(T),
    Absolute(T),
}

/// A property that is fixed or driven by the automation at the given index.
pub enum Controller<T> {
    Static(T),
    Automated(usize),
}

} // verus!
