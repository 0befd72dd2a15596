use vstd::prelude::*;

verus! {

/// The errors that the router reports.
///
/// Each variant has a stable numeric code (see [`ContractError::code`]),
/// which is the value a contract client sees.
#[derive(Copy, Clone, Debug, PartialEq, Eq, PartialOrd, Ord, Structural)]
pub enum ContractError {
    RouteNotFound,
    InvalidParams,
    InvalidRoute,
    InsufficientLiquidity,
    SlippageExceeded,
    Unauthorized,
    ArithmeticOverflow,
    RoutingError,
}

/// The numeric code of an error, as a contract client sees it.
pub open spec fn error_code(e: ContractError) -> u32 {
    match e {
        ContractError::RouteNotFound => 1,
        ContractError::InvalidParams => 2,
        ContractError::InvalidRoute => 3,
        ContractError::InsufficientLiquidity => 4,
        ContractError::SlippageExceeded => 5,
        ContractError::Unauthorized => 6,
        ContractError::ArithmeticOverflow => 7,
        ContractError::RoutingError => 8,
    }
}

impl ContractError {
    /// The error's numeric code: `RouteNotFound` is 1, and so on in declaration order up to
    /// `RoutingError`, which is 8.
    pub fn code(&self) -> (c: u32)
        ensures
            c == error_code(*self),
    {
        match self {
            ContractError::RouteNotFound => 1,
            ContractError::InvalidParams => 2,
            ContractError::InvalidRoute => 3,
            ContractError::InsufficientLiquidity => 4,
            ContractError::SlippageExceeded => 5,
            ContractError::Unauthorized => 6,
            ContractError::ArithmeticOverflow => 7,
            ContractError::RoutingError => 8,
        }
    }
}

} // verus!
