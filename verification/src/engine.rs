//! The values of the playback engine that records carry without looking inside them.

use vstd::prelude::*;

verus! {

/// A target value for a device, as the playback engine understands it.
#[verifier::external_type_specification]
#[verifier::external_body]
pub struct ExState(hermes_five::utils::State);

/// The curve along which a device moves towards its target.
#[verifier::external_type_specification]
#[verifier::external_body]
pub struct ExEasing(hermes_five::animations::Easing);

/// A playable group of device tracks that share their timing settings.
#[verifier::external_type_specification]
#[verifier::external_body]
pub struct ExSegment(hermes_five::animations::Segment);

/// The engine's segment without tracks that has the given timing settings.
pub uninterp spec fn engine_segment(
    repeat: bool,
    loopback: u64,
    speed: u8,
    fps: u8,
) -> hermes_five::animations::Segment;

/// Calls `Segment::default` of `hermes_five::animations` and its builders `set_repeat`,
/// `set_loopback`, `set_speed` and `set_fps`, each of which stores its argument in the
/// field of its name and touches nothing else. The result has no track and depends on
/// the four settings alone.
#[verifier::external_body]
pub(crate) fn new_segment(repeat: bool, loopback: u64, speed: u8, fps: u8) -> (segment:
    hermes_five::animations::Segment)
    ensures
        segment == engine_segment(repeat, loopback, speed, fps),
{
    hermes_five::animations::Segment::default().set_repeat(repeat).set_loopback(
        loopback,
    ).set_speed(speed).set_fps(fps)
}

/// `Clone::clone` of `hermes_five::utils::State` is a derived deep copy: the result is
/// the same value.
pub assume_specification[ <hermes_five::utils::State as Clone>::clone ](
    state: &hermes_five::utils::State,
) -> (copy: hermes_five::utils::State)
    ensures
        copy == *state,
;

/// `Clone::clone` of `hermes_five::animations::Easing`, a `Copy` enum without fields,
/// returns the same variant.
pub assume_specification[ <hermes_five::animations::Easing as Clone>::clone ](
    easing: &hermes_five::animations::Easing,
) -> (copy: hermes_five::animations::Easing)
    ensures
        copy == *easing,
;

} // verus!
