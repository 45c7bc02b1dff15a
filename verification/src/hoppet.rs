use vstd::prelude::*;

verus! {

/// Factorization scheme in which the evolution is carried out.
#[derive(Debug, Clone, Copy, PartialEq, Eq)]
pub enum FactorizationScheme {
    MSbar,
    DIS,
    PolMSbar,
    FragMSbar,
}

impl FactorizationScheme {
    /// The integer code under which the scheme is passed to the evolution library.
    pub open spec fn spec_code(self) -> i32 {
        match self {
            FactorizationScheme::MSbar => 1,
            FactorizationScheme::DIS => 2,
            FactorizationScheme::PolMSbar => 3,
            FactorizationScheme::FragMSbar => 4,
        }
    }

    pub fn code(self) -> (r: i32)
        ensures
            r == self.spec_code(),
    {
        match self {
            FactorizationScheme::MSbar => 1,
            FactorizationScheme::DIS => 2,
            FactorizationScheme::PolMSbar => 3,
            FactorizationScheme::FragMSbar => 4,
        }
    }
}


/// Why the evolution library could not be started.
#[derive(Debug, Clone, Copy, PartialEq, Eq, Structural)]
pub enum HoppetError {
    /// A handle of the library is alive; it must be dropped before the
    /// library is started again.
    AlreadyInitialized,
}

impl HoppetError {
    pub open spec fn spec_message(&self) -> Seq<char> {
        match self {
            HoppetError::AlreadyInitialized => "Hoppet is already initialized, re-initializing is only possible if all instances of `Hoppet` are dropped"@,
        }
    }

    /// The text that describes the error.
    pub fn message(&self) -> (r: String)
        ensures
            r@ == self.spec_message(),
    {
        match self {
            HoppetError::AlreadyInitialized => String::from_str(
                "Hoppet is already initialized, re-initializing is only possible if all instances of `Hoppet` are dropped",
            ),
        }
    }
}

/// The state the library is in: whether it has been started, and how many
/// handles of it are alive.
#[derive(Debug, Clone, Copy, PartialEq, Eq, Structural)]
pub struct HandleState {
    pub locked: bool,
    pub handles: usize,
}

/// What the caller does with the library after a handle is dropped.
#[derive(Debug, Clone, Copy, PartialEq, Eq, Structural)]
pub enum DropAction {
    /// Other handles are alive: nothing.
    Keep,
    /// The last handle is gone: the library releases what it holds.
    Release,
}

impl HandleState {
    /// Started exactly while a handle is alive.
    pub open spec fn wf(self) -> bool {
        self.locked == (self.handles > 0)
    }

    /// The library has not been started.
    pub fn new() -> (s: HandleState)
        ensures
            !s.locked,
            s.handles == 0,
            s.wf(),
    {
        HandleState { locked: false, handles: 0 }
    }

    pub open spec fn spec_init(self) -> (HandleState, Result<(), HoppetError>) {
        if self.locked {
            (self, Err(HoppetError::AlreadyInitialized))
        } else {
            (HandleState { locked: true, handles: (self.handles + 1) as usize }, Ok(()))
        }
    }

    pub open spec fn spec_clone_handle(self) -> HandleState {
        HandleState { handles: (self.handles + 1) as usize, ..self }
    }

    pub open spec fn spec_drop_handle(self) -> (HandleState, DropAction) {
        if self.handles == 1 {
            (HandleState { locked: false, handles: 0 }, DropAction::Release)
        } else {
            (HandleState { handles: (self.handles - 1) as usize, ..self }, DropAction::Keep)
        }
    }

    /// Starting the library: refused while it is started, else it is started
    /// with one handle more.
    pub fn init(&mut self) -> (r: Result<(), HoppetError>)
        requires
            old(self).handles < usize::MAX,
        ensures
            (*final(self), r) == old(self).spec_init(),
    {
        if self.locked {
            return Err(HoppetError::AlreadyInitialized);
        }
        self.locked = true;
        self.handles = self.handles + 1;
        Ok(())
    }

    /// Cloning a handle: one handle more.
    pub fn clone_handle(&mut self)
        requires
            old(self).handles < usize::MAX,
        ensures
            *final(self) == old(self).spec_clone_handle(),
    {
        self.handles = self.handles + 1;
    }

    /// Dropping a handle: the last one releases the library and lets it be
    /// started again.
    pub fn drop_handle(&mut self) -> (a: DropAction)
        requires
            old(self).handles > 0,
        ensures
            (*final(self), a) == old(self).spec_drop_handle(),
    {
        if self.handles == 1 {
            self.locked = false;
            self.handles = 0;
            DropAction::Release
        } else {
            self.handles = self.handles - 1;
            DropAction::Keep
        }
    }
}

/// Starting the library, and cloning or dropping a live handle, keep the
/// state well formed: the library is started exactly while a handle is alive.
pub proof fn lemma_handle_steps_keep_wf(s: HandleState)
    requires
        s.wf(),
        s.handles < usize::MAX,
    ensures
        s.spec_init().0.wf(),
        s.handles > 0 ==> s.spec_clone_handle().wf(),
        s.handles > 0 ==> s.spec_drop_handle().0.wf(),
{
}

/// While a handle is alive the library cannot be started again; once the
/// only handle is dropped, it can.
pub proof fn lemma_double_init(s: HandleState)
    requires
        s.wf(),
        s.handles < usize::MAX - 1,
    ensures
        s.spec_init().1 is Ok ==> s.spec_init().0.spec_init().1 == Err::<(), HoppetError>(
            HoppetError::AlreadyInitialized,
        ),
        s.handles == 0 ==> s.spec_init().0.spec_drop_handle().0.spec_init().1 is Ok,
{
}

/// Cloning a handle and dropping the clone leaves the library started.
pub proof fn lemma_clone_drop(s: HandleState)
    requires
        s.wf(),
        s.handles > 0,
        s.handles < usize::MAX,
    ensures
        s.spec_clone_handle().spec_drop_handle() == (s, DropAction::Keep),
{
}


// ---------------------------------------------------------------------------
// Starting the library
// ---------------------------------------------------------------------------

/// How the number of active flavours is chosen.
#[derive(Debug, Clone, Copy, PartialEq, Eq, Structural)]
pub enum SchemeKind {
    Fixed,
    PoleMassVFN,
    MSbarVFN,
}

/// How the parton densities are given.
#[derive(Debug, Clone, Copy, PartialEq, Eq, Structural)]
pub enum PdfKind {
    /// At every scale, by a function.
    Assign,
    /// At one scale, by a function, and evolved from there.
    Evolve,
}

/// One call into the library while it is started.
#[derive(Debug, Clone, Copy, PartialEq, Eq, Structural)]
pub enum InitStep {
    SetQed,
    SetFixedFlavours,
    SetPoleMassVfn,
    SetMsbarMassVfn,
    SetInterpolationOrders,
    StartExtended,
    SetCoupling,
    Assign,
    Evolve,
}

/// A configuration can be started: densities are evolved only with a
/// coupling to evolve them with.
pub open spec fn startable(coupling: bool, pdf: Option<PdfKind>) -> bool {
    !(!coupling && pdf == Some(PdfKind::Evolve))
}

/// The calls that start the library, in order.
pub open spec fn spec_init_steps(
    qed: bool,
    scheme: SchemeKind,
    coupling: bool,
    pdf: Option<PdfKind>,
) -> Seq<InitStep> {
    (if qed {
        seq![InitStep::SetQed]
    } else {
        Seq::empty()
    }) + seq![
        match scheme {
            SchemeKind::Fixed => InitStep::SetFixedFlavours,
            SchemeKind::PoleMassVFN => InitStep::SetPoleMassVfn,
            SchemeKind::MSbarVFN => InitStep::SetMsbarMassVfn,
        },
        InitStep::SetInterpolationOrders,
        InitStep::StartExtended,
    ] + match (coupling, pdf) {
        (false, None) => Seq::empty(),
        (false, Some(_)) => seq![InitStep::Assign],
        (true, Some(PdfKind::Evolve)) => seq![InitStep::Evolve],
        (true, Some(PdfKind::Assign)) => seq![InitStep::SetCoupling, InitStep::Assign],
        (true, None) => seq![InitStep::SetCoupling],
    }
}

/// The calls that start the library with the given configuration, in order.
pub fn init_steps(qed: bool, scheme: SchemeKind, coupling: bool, pdf: Option<PdfKind>) -> (r: Vec<
    InitStep,
>)
    requires
        startable(coupling, pdf),
    ensures
        r@ == spec_init_steps(qed, scheme, coupling, pdf),
{
    let mut r: Vec<InitStep> = Vec::new();
    if qed {
        r.push(InitStep::SetQed);
    }
    match scheme {
        SchemeKind::Fixed => r.push(InitStep::SetFixedFlavours),
        SchemeKind::PoleMassVFN => r.push(InitStep::SetPoleMassVfn),
        SchemeKind::MSbarVFN => r.push(InitStep::SetMsbarMassVfn),
    }
    r.push(InitStep::SetInterpolationOrders);
    r.push(InitStep::StartExtended);
    match (coupling, pdf) {
        (false, None) => {},
        (false, Some(_)) => {
            r.push(InitStep::Assign);
        },
        (true, Some(PdfKind::Evolve)) => {
            r.push(InitStep::Evolve);
        },
        (true, Some(PdfKind::Assign)) => {
            r.push(InitStep::SetCoupling);
            r.push(InitStep::Assign);
        },
        (true, None) => {
            r.push(InitStep::SetCoupling);
        },
    }
    proof {
        assert(r@ =~= spec_init_steps(qed, scheme, coupling, pdf));
    }
    r
}

} // verus!
