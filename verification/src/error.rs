//! The failures that the planner, the generators and the simulation report.

use vstd::prelude::*;

verus! {

/// A parameter of a scenario is malformed or out of range.
#[derive(Clone, Copy, Debug, PartialEq, Eq, Structural)]
pub enum ConfigurationError {
    /// The time step is zero or negative.
    NonPositiveResolution,
    /// The sample times do not start at zero or do not increase strictly.
    MalformedTrajectory,
    /// The trajectory has more samples than the machine can hold or reach in time.
    TooManySamples,
    /// A speed, duration, variability, noise or turning parameter is out of range.
    InvalidParameter,
    /// The turning radius is zero or negative.
    NonPositiveTurningRadius,
    /// The numbers of robots, sensors, controllers and offsets do not agree,
    /// or the leader is not one of the robots.
    MismatchedFormation,
    /// The reference trajectory is shorter than the simulated time span.
    TrajectoryTooShort,
}

/// The planner found no continuation that stays inside the arena.
#[derive(Clone, Copy, Debug, PartialEq, Eq, Structural)]
pub struct PlanningFailure {
    /// Number of segments that had been accepted when planning stopped.
    pub accepted: usize,
}

impl ConfigurationError {
    /// The sentence that says what is wrong.
    pub open spec fn text(self) -> Seq<char> {
        match self {
            ConfigurationError::NonPositiveResolution => "the resolution must be positive"@,
            ConfigurationError::MalformedTrajectory =>
                "sample times must start at zero and increase strictly"@,
            ConfigurationError::TooManySamples => "the trajectory has too many samples"@,
            ConfigurationError::InvalidParameter => "a scenario parameter is out of range"@,
            ConfigurationError::NonPositiveTurningRadius => "the turning radius must be positive"@,
            ConfigurationError::MismatchedFormation =>
                "robots, sensors, controllers and offsets do not agree"@,
            ConfigurationError::TrajectoryTooShort =>
                "the reference trajectory is shorter than the simulation"@,
        }
    }

    /// A sentence for the error stream.
    pub fn message(&self) -> (s: &'static str)
        ensures
            s@ == self.text(),
    {
        match self {
            ConfigurationError::NonPositiveResolution => "the resolution must be positive",
            ConfigurationError::MalformedTrajectory =>
                "sample times must start at zero and increase strictly",
            ConfigurationError::TooManySamples => "the trajectory has too many samples",
            ConfigurationError::InvalidParameter => "a scenario parameter is out of range",
            ConfigurationError::NonPositiveTurningRadius => "the turning radius must be positive",
            ConfigurationError::MismatchedFormation =>
                "robots, sensors, controllers and offsets do not agree",
            ConfigurationError::TrajectoryTooShort =>
                "the reference trajectory is shorter than the simulation",
        }
    }
}

} // verus!
