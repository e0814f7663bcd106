//! Methods of integration, and how a configuration names them.
pub mod integrator;
pub mod interator;
pub mod rk4;

use crate::numerical_method::rk4::RK4;
use crate::text;
use vstd::prelude::*;

verus! {

/// The methods that a simulation accepts.
#[derive(Clone, Copy, Debug, PartialEq, Eq, Structural)]
pub enum NumericalMethod {
    RK4,
}

impl NumericalMethod {
    pub fn integrator(&self) -> (integrator: RK4)
        ensures
            *self == NumericalMethod::RK4 ==> integrator == RK4,
    {
        match self {
            NumericalMethod::RK4 => RK4,
        }
    }

    /// The method with the given name. Capital letters count as small ones.
    pub fn from_name(name: &str) -> (method: Result<NumericalMethod, String>)
        ensures
            match method {
                Ok(method) => text::lowered(name@) == "rk4"@ && method == NumericalMethod::RK4,
                Err(message) => text::lowered(name@) != "rk4"@ && message@
                    == "método numérico desconhecido: '"@ + text::lowered(name@)
                    + "' (esperava \"rk4\")"@,
            },
    {
        let lowered: String = text::to_lowered(name);
        if lowered == "rk4".to_owned() {
            Ok(NumericalMethod::RK4)
        } else {
            Err(
                text::framed(
                    "método numérico desconhecido: '",
                    lowered.as_str(),
                    "' (esperava \"rk4\")",
                ),
            )
        }
    }
}

impl Default for NumericalMethod {
    fn default() -> (method: NumericalMethod)
        ensures
            method == NumericalMethod::RK4,
    {
        NumericalMethod::RK4
    }
}

impl std::str::FromStr for NumericalMethod {
    type Err = String;

    fn from_str(s: &str) -> (method: Result<NumericalMethod, String>)
        ensures
            match method {
                Ok(method) => text::lowered(s@) == "rk4"@ && method == NumericalMethod::RK4,
                Err(message) => text::lowered(s@) != "rk4"@ && message@
                    == "método numérico desconhecido: '"@ + text::lowered(s@)
                    + "' (esperava \"rk4\")"@,
            },
    {
        NumericalMethod::from_name(s)
    }
}

} // verus!
