//! A printer modelled in the type-state style: the machine's state lives
//! in the type parameter, so that only the transitions the current state
//! offers can be written at all. The states carry no data; the compiler
//! alone rules out calling `print` on an idle machine or `reset` on a
//! healthy one. What each transition prints, and the draw that decides
//! whether the filament runs out, happen outside the library, which only
//! supplies the states and the typed transitions between them.

use core::marker::PhantomData;
use vstd::prelude::*;

verus! {

/// A printer whose current state is the type parameter `S`.
pub struct Printer3D<S> {
    _marker: PhantomData<S>,
}

/// The printer encountered an error and needs resetting.
pub struct ErrorState;

/// The printer is waiting for a job.
pub struct IdleState;

/// The printer is currently printing.
pub struct PrintingState;

/// The printed product is ready.
pub struct ProductReadyState;

impl<S> Printer3D<S> {
    /// Step into another state: the one and only way a machine changes
    /// state, consumed in the old state and reborn in the new one.
    pub fn into_state<T>(self) -> (r: Printer3D<T>) {
        Printer3D { _marker: PhantomData }
    }
}

impl Printer3D<IdleState> {
    /// A fresh machine, waiting for a job.
    pub fn new() -> (r: Self) {
        Self { _marker: PhantomData }
    }

    /// Accept a job: an idle machine starts printing.
    pub fn start(self) -> (r: Printer3D<PrintingState>) {
        self.into_state()
    }
}

impl Printer3D<PrintingState> {
    /// Finish the job: the product is ready, unless the filament ran out —
    /// the caller reports that with `filament_out` — in which case the
    /// machine lands in the error state.
    pub fn print(self, filament_out: bool) -> (r: Result<
        Printer3D<ProductReadyState>,
        Printer3D<ErrorState>,
    >)
        ensures
            filament_out <==> r is Err,
    {
        if filament_out {
            Err(self.into_state())
        } else {
            Ok(self.into_state())
        }
    }
}

impl Printer3D<ProductReadyState> {
    /// Take the product out: the machine is idle again.
    pub fn retrieve(self) -> (r: Printer3D<IdleState>) {
        self.into_state()
    }
}

impl Printer3D<ErrorState> {
    /// Clear the error: the machine is idle again.
    pub fn reset(self) -> (r: Printer3D<IdleState>) {
        self.into_state()
    }
}

} // verus!
