//! Parameters and return-code taxonomy of the point-to-point
//! propagation engine.
//!
//! The engine itself is an external numerical collaborator; this
//! module fixes the integer encodings of its enumerated parameters and
//! the exact mapping from its integer return codes to errors. Codes 0
//! and 1 are success (1 is success with warnings).

use vstd::prelude::*;

verus! {

/// Antenna polarization.
#[derive(Debug, Clone, Copy, PartialEq, Eq, Structural)]
pub enum Polarization {
    Horizontal,
    Vertical,
}

impl Polarization {
    /// The engine's integer encoding of the polarization.
    pub fn as_code(&self) -> (r: i32)
        ensures
            r == match *self {
                Polarization::Horizontal => 0int,
                Polarization::Vertical => 1int,
            },
    {
        match self {
            Polarization::Horizontal => 0,
            Polarization::Vertical => 1,
        }
    }
}

/// Siting criteria.
#[derive(Debug, Clone, Copy, PartialEq, Eq, Structural)]
pub enum SittingCriteria {
    Random,
    Careful,
    VeryCareful,
}

impl SittingCriteria {
    /// The engine's integer encoding of the siting criteria.
    pub fn as_code(&self) -> (r: i32)
        ensures
            r == match *self {
                SittingCriteria::Random => 0int,
                SittingCriteria::Careful => 1int,
                SittingCriteria::VeryCareful => 2int,
            },
    {
        match self {
            SittingCriteria::Random => 0,
            SittingCriteria::Careful => 1,
            SittingCriteria::VeryCareful => 2,
        }
    }
}

/// Radio climate.
#[derive(Debug, Clone, Copy, PartialEq, Eq, Structural)]
pub enum Climate {
    Equatorial,
    ContinentalSubtropical,
    MaritimeSubtropical,
    Desert,
    ContinentalTemperate,
    MaritimeTemperateOverLand,
    MaritimeTemperateOverSea,
}

impl Climate {
    /// The engine's integer encoding of the climate.
    pub fn as_code(&self) -> (r: i32)
        ensures
            r == match *self {
                Climate::Equatorial => 1int,
                Climate::ContinentalSubtropical => 2int,
                Climate::MaritimeSubtropical => 3int,
                Climate::Desert => 4int,
                Climate::ContinentalTemperate => 5int,
                Climate::MaritimeTemperateOverLand => 6int,
                Climate::MaritimeTemperateOverSea => 7int,
            },
    {
        match self {
            Climate::Equatorial => 1,
            Climate::ContinentalSubtropical => 2,
            Climate::MaritimeSubtropical => 3,
            Climate::Desert => 4,
            Climate::ContinentalTemperate => 5,
            Climate::MaritimeTemperateOverLand => 6,
            Climate::MaritimeTemperateOverSea => 7,
        }
    }
}

/// Propagation mode.
#[derive(Debug, Clone, Copy, PartialEq, Eq, Structural)]
pub enum Mode {
    NotSet,
    LineOfSight,
    Diffraction,
    Troposcatter,
}

impl Mode {
    /// The engine's integer encoding of the propagation mode.
    pub fn as_code(&self) -> (r: i32)
        ensures
            r == match *self {
                Mode::NotSet => 0int,
                Mode::LineOfSight => 1int,
                Mode::Diffraction => 2int,
                Mode::Troposcatter => 3int,
            },
    {
        match self {
            Mode::NotSet => 0,
            Mode::LineOfSight => 1,
            Mode::Diffraction => 2,
            Mode::Troposcatter => 3,
        }
    }
}

/// Mode of variability.
#[derive(Debug, Clone, Copy, PartialEq, Eq, Structural)]
pub enum ModeVariability {
    SingleMessage,
    Accidental,
    Mobile,
    Broadcast,
}

impl ModeVariability {
    /// The engine's integer encoding of the mode of variability.
    pub fn as_code(&self) -> (r: i32)
        ensures
            r == match *self {
                ModeVariability::SingleMessage => 0int,
                ModeVariability::Accidental => 1int,
                ModeVariability::Mobile => 2int,
                ModeVariability::Broadcast => 3int,
            },
    {
        match self {
            ModeVariability::SingleMessage => 0,
            ModeVariability::Accidental => 1,
            ModeVariability::Mobile => 2,
            ModeVariability::Broadcast => 3,
        }
    }
}

/// The engine's failure taxonomy.
#[derive(Debug, Clone, Copy, PartialEq, Eq, Structural)]
pub enum ItmErrCode {
    TxTerminalHeight,
    RxTerminalHeight,
    InvalidRadioClimate,
    InvalidTime,
    InvalidLocation,
    InvalidSituation,
    InvalidConfidence,
    InvalidReliability,
    Refractivity,
    Frequency,
    Polarization,
    Epsilon,
    Sigma,
    GroundImpedance,
    Mdvar,
    EffectiveEarth,
    PathDistance,
    DeltaH,
    TxSitingCriteria,
    RxSitingCriteria,
    SurfaceRefractivitySmall,
    SurfaceRefractivityLarge,
}

/// Whether an engine return code is one the taxonomy covers.
pub open spec fn known_retcode(code: int) -> bool {
    code == 0 || code == 1 || (1000 <= code <= 1014) || (1016 <= code <= 1022)
}

/// The error a failing engine return code maps to.
pub open spec fn spec_err_of_retcode(code: int) -> ItmErrCode {
    if code == 1000 {
        ItmErrCode::TxTerminalHeight
    } else if code == 1001 {
        ItmErrCode::RxTerminalHeight
    } else if code == 1002 {
        ItmErrCode::InvalidRadioClimate
    } else if code == 1003 {
        ItmErrCode::InvalidTime
    } else if code == 1004 {
        ItmErrCode::InvalidLocation
    } else if code == 1005 {
        ItmErrCode::InvalidSituation
    } else if code == 1006 {
        ItmErrCode::InvalidConfidence
    } else if code == 1007 {
        ItmErrCode::InvalidReliability
    } else if code == 1008 {
        ItmErrCode::Refractivity
    } else if code == 1009 {
        ItmErrCode::Frequency
    } else if code == 1010 {
        ItmErrCode::Polarization
    } else if code == 1011 {
        ItmErrCode::Epsilon
    } else if code == 1012 {
        ItmErrCode::Sigma
    } else if code == 1013 {
        ItmErrCode::GroundImpedance
    } else if code == 1014 {
        ItmErrCode::Mdvar
    } else if code == 1016 {
        ItmErrCode::EffectiveEarth
    } else if code == 1017 {
        ItmErrCode::PathDistance
    } else if code == 1018 {
        ItmErrCode::DeltaH
    } else if code == 1019 {
        ItmErrCode::TxSitingCriteria
    } else if code == 1020 {
        ItmErrCode::RxSitingCriteria
    } else if code == 1021 {
        ItmErrCode::SurfaceRefractivitySmall
    } else {
        ItmErrCode::SurfaceRefractivityLarge
    }
}

impl ItmErrCode {
    /// Maps an engine return code to the value it accompanied, for
    /// the success codes 0 and 1, or to the error the code names.
    pub fn from_retcode<T>(err_code: i32, val: T) -> (r: Result<T, ItmErrCode>)
        requires
            known_retcode(err_code as int),
        ensures
            match r {
                Ok(v) => (err_code == 0 || err_code == 1) && v == val,
                Err(e) => !(err_code == 0 || err_code == 1) && e == spec_err_of_retcode(
                    err_code as int,
                ),
            },
    {
        if err_code == 0 || err_code == 1 {
            return Ok(val);
        }
        let err = if err_code == 1000 {
            ItmErrCode::TxTerminalHeight
        } else if err_code == 1001 {
            ItmErrCode::RxTerminalHeight
        } else if err_code == 1002 {
            ItmErrCode::InvalidRadioClimate
        } else if err_code == 1003 {
            ItmErrCode::InvalidTime
        } else if err_code == 1004 {
            ItmErrCode::InvalidLocation
        } else if err_code == 1005 {
            ItmErrCode::InvalidSituation
        } else if err_code == 1006 {
            ItmErrCode::InvalidConfidence
        } else if err_code == 1007 {
            ItmErrCode::InvalidReliability
        } else if err_code == 1008 {
            ItmErrCode::Refractivity
        } else if err_code == 1009 {
            ItmErrCode::Frequency
        } else if err_code == 1010 {
            ItmErrCode::Polarization
        } else if err_code == 1011 {
            ItmErrCode::Epsilon
        } else if err_code == 1012 {
            ItmErrCode::Sigma
        } else if err_code == 1013 {
            ItmErrCode::GroundImpedance
        } else if err_code == 1014 {
            ItmErrCode::Mdvar
        } else if err_code == 1016 {
            ItmErrCode::EffectiveEarth
        } else if err_code == 1017 {
            ItmErrCode::PathDistance
        } else if err_code == 1018 {
            ItmErrCode::DeltaH
        } else if err_code == 1019 {
            ItmErrCode::TxSitingCriteria
        } else if err_code == 1020 {
            ItmErrCode::RxSitingCriteria
        } else if err_code == 1021 {
            ItmErrCode::SurfaceRefractivitySmall
        } else {
            ItmErrCode::SurfaceRefractivityLarge
        };
        Err(err)
    }
}

} // verus!
