use geoprof::itm::{ItmErrCode, Climate, Polarization, ModeVariability, Mode, SittingCriteria};

#[test]
fn test_retcode_success() {
    assert_eq!(ItmErrCode::from_retcode(0, 114.5f64).unwrap(), 114.5f64);
    assert_eq!(ItmErrCode::from_retcode(1, 7u32).unwrap(), 7u32);
}

#[test]
fn test_retcode_errors() {
    assert!(matches!(ItmErrCode::from_retcode(1000, 0), Err(ItmErrCode::TxTerminalHeight)));
    assert!(matches!(ItmErrCode::from_retcode(1001, 0), Err(ItmErrCode::RxTerminalHeight)));
    assert!(matches!(ItmErrCode::from_retcode(1008, 0), Err(ItmErrCode::Refractivity)));
    assert!(matches!(ItmErrCode::from_retcode(1014, 0), Err(ItmErrCode::Mdvar)));
    assert!(matches!(ItmErrCode::from_retcode(1016, 0), Err(ItmErrCode::EffectiveEarth)));
    assert!(matches!(ItmErrCode::from_retcode(1021, 0), Err(ItmErrCode::SurfaceRefractivitySmall)));
    assert!(matches!(ItmErrCode::from_retcode(1022, 0), Err(ItmErrCode::SurfaceRefractivityLarge)));
}

#[test]
fn test_param_codes() {
    assert_eq!(Polarization::Horizontal.as_code(), 0);
    assert_eq!(Polarization::Vertical.as_code(), 1);
    assert_eq!(Climate::Equatorial.as_code(), 1);
    assert_eq!(Climate::ContinentalTemperate.as_code(), 5);
    assert_eq!(Climate::MaritimeTemperateOverSea.as_code(), 7);
    assert_eq!(ModeVariability::SingleMessage.as_code(), 0);
    assert_eq!(ModeVariability::Accidental.as_code(), 1);
    assert_eq!(Mode::Troposcatter.as_code(), 3);
    assert_eq!(SittingCriteria::VeryCareful.as_code(), 2);
}
