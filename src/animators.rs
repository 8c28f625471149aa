//! The animations that can run, and choosing one by its configured name.

use vstd::prelude::*;

verus! {

/// An animation that paints the grid from the features of the moment.
#[derive(Clone, Copy, Debug, PartialEq, Eq, Structural)]
pub enum Animation {
    SineLike,
    Spectrum,
    Wiggly,
    EqMountains,
}

/// The animation a name selects; an unknown name selects the sine waves.
pub open spec fn animation_named(name: Seq<char>) -> Animation {
    if name == "spectrum"@ {
        Animation::Spectrum
    } else if name == "wiggly"@ {
        Animation::Wiggly
    } else if name == "eq_mountains"@ {
        Animation::EqMountains
    } else {
        Animation::SineLike
    }
}

pub fn match_animator(animator_name: &str) -> (r: Animation)
    ensures
        r == animation_named(animator_name@),
{
    let name = String::from_str(animator_name);
    if name == String::from_str("spectrum") {
        Animation::Spectrum
    } else if name == String::from_str("wiggly") {
        Animation::Wiggly
    } else if name == String::from_str("eq_mountains") {
        Animation::EqMountains
    } else {
        Animation::SineLike
    }
}

/// The animations that the configured names select, in the same order.
pub fn match_animators(names: &Vec<String>) -> (r: Vec<Animation>)
    ensures
        r@.len() == names@.len(),
        forall|i: int| 0 <= i < names@.len() ==> #[trigger] r@[i] == animation_named(names@[i]@),
{
    let mut r: Vec<Animation> = Vec::new();
    let mut i: usize = 0;
    while i < names.len()
        invariant
            i <= names@.len(),
            r@.len() == i,
            forall|k: int| 0 <= k < i ==> #[trigger] r@[k] == animation_named(names@[k]@),
        decreases names@.len() - i,
    {
        r.push(match_animator(names[i].as_str()));
        i = i + 1;
    }
    r
}

} // verus!
