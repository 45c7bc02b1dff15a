use smallnlo::hoppet::{
    init_steps, DropAction, FactorizationScheme, HandleState, HoppetError, InitStep, PdfKind, SchemeKind,
};

#[test]
fn ffi_test() {
    // What the library decides for a start with the MSbar factorisation
    // scheme, the pole-mass flavour scheme and a coupling but no densities:
    // the code handed on for the scheme, and the order of the start-up
    // calls. The calls themselves, and the value of the coupling they give,
    // belong to the evolution library.
    assert_eq!(FactorizationScheme::MSbar.code(), 1);
    let steps = init_steps(false, SchemeKind::PoleMassVFN, true, None);
    assert_eq!(
        steps,
        vec![
            InitStep::SetPoleMassVfn,
            InitStep::SetInterpolationOrders,
            InitStep::StartExtended,
            InitStep::SetCoupling,
        ]
    );
}

#[test]
fn factorization_scheme_codes() {
    assert_eq!(FactorizationScheme::MSbar.code(), 1);
    assert_eq!(FactorizationScheme::DIS.code(), 2);
    assert_eq!(FactorizationScheme::PolMSbar.code(), 3);
    assert_eq!(FactorizationScheme::FragMSbar.code(), 4);
}

#[test]
fn double_init_test() {
    let mut s = HandleState::new();
    assert_eq!(s.init(), Ok(()));
    assert_eq!(s.init(), Err(HoppetError::AlreadyInitialized));
    assert_eq!(s.drop_handle(), DropAction::Release);
    assert_eq!(s.init(), Ok(()));
}

#[test]
fn drop_test() {
    let mut s = HandleState::new();
    s.init().unwrap();
    s.clone_handle();
    assert_eq!(s.drop_handle(), DropAction::Keep);
    assert!(s.locked);
    assert_eq!(s.handles, 1);
    assert_eq!(s.drop_handle(), DropAction::Release);
    assert!(!s.locked);
    assert_eq!(s.handles, 0);
}

#[test]
fn init_steps_follow_the_configuration() {
    assert_eq!(
        init_steps(true, SchemeKind::Fixed, false, Some(PdfKind::Assign)),
        vec![
            InitStep::SetQed,
            InitStep::SetFixedFlavours,
            InitStep::SetInterpolationOrders,
            InitStep::StartExtended,
            InitStep::Assign,
        ]
    );
    assert_eq!(
        init_steps(false, SchemeKind::MSbarVFN, true, Some(PdfKind::Evolve)),
        vec![
            InitStep::SetMsbarMassVfn,
            InitStep::SetInterpolationOrders,
            InitStep::StartExtended,
            InitStep::Evolve,
        ]
    );
    assert_eq!(
        init_steps(false, SchemeKind::PoleMassVFN, true, Some(PdfKind::Assign)),
        vec![
            InitStep::SetPoleMassVfn,
            InitStep::SetInterpolationOrders,
            InitStep::StartExtended,
            InitStep::SetCoupling,
            InitStep::Assign,
        ]
    );
    assert_eq!(init_steps(false, SchemeKind::Fixed, false, None).len(), 3);
}

#[test]
fn already_initialized_message() {
    assert_eq!(
        HoppetError::AlreadyInitialized.message(),
        "Hoppet is already initialized, re-initializing is only possible if all instances of `Hoppet` are dropped"
    );
}
