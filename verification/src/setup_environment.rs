//! What a program finds bound before it runs: the calls that the host offers,
//! and the readings of the craft.

use crate::interpreter::object::{
    bound, CommandFn, Environment, EnvironmentModel, Object, ObjectModel,
};
use vstd::prelude::*;

verus! {

/// The readings of the craft, in whole units.
pub struct Telemetry {
    pub altitude: isize,
    pub longitude: isize,
    /// In degrees.
    pub angle: isize,
    pub longitudinal_velocity: isize,
    pub altitude_velocity: isize,
    pub angular_velocity: isize,
}

/// The environment with the two host calls bound in its innermost scope.
pub open spec fn with_host_calls(environment: EnvironmentModel) -> EnvironmentModel {
    bound(
        bound(
            environment,
            "SET_THRUST"@,
            ObjectModel::Command { function: CommandFn::SetThrust },
        ),
        "SET_TORQUE"@,
        ObjectModel::Command { function: CommandFn::SetTorque },
    )
}

/// The environment with the host calls and the readings bound in its
/// innermost scope.
pub open spec fn set_up_environment(
    telemetry: Telemetry,
    environment: EnvironmentModel,
) -> EnvironmentModel {
    bound(
        bound(
            bound(
                bound(
                    bound(
                        bound(
                            with_host_calls(environment),
                            "ALTITUDE"@,
                            ObjectModel::Integer(telemetry.altitude),
                        ),
                        "LONGITUDE"@,
                        ObjectModel::Integer(telemetry.longitude),
                    ),
                    "ANGLE"@,
                    ObjectModel::Integer(telemetry.angle),
                ),
                "LONG_VEL"@,
                ObjectModel::Integer(telemetry.longitudinal_velocity),
            ),
            "ALT_VEL"@,
            ObjectModel::Integer(telemetry.altitude_velocity),
        ),
        "ANG_VEL"@,
        ObjectModel::Integer(telemetry.angular_velocity),
    )
}

/// Binds the two host calls.
pub fn bind_host_calls(environment: &mut Environment)
    ensures
        final(environment)@ == with_host_calls(old(environment)@),
{
    environment.set("SET_THRUST".to_owned(), Object::Command { function: CommandFn::SetThrust });
    environment.set("SET_TORQUE".to_owned(), Object::Command { function: CommandFn::SetTorque });
}

/// Binds the host calls and the readings of the craft.
pub fn set_up(telemetry: &Telemetry, environment: &mut Environment)
    ensures
        final(environment)@ == set_up_environment(*telemetry, old(environment)@),
{
    bind_host_calls(environment);
    environment.set("ALTITUDE".to_owned(), Object::Integer(telemetry.altitude));
    environment.set("LONGITUDE".to_owned(), Object::Integer(telemetry.longitude));
    environment.set("ANGLE".to_owned(), Object::Integer(telemetry.angle));
    environment.set("LONG_VEL".to_owned(), Object::Integer(telemetry.longitudinal_velocity));
    environment.set("ALT_VEL".to_owned(), Object::Integer(telemetry.altitude_velocity));
    environment.set("ANG_VEL".to_owned(), Object::Integer(telemetry.angular_velocity));
}

} // verus!
