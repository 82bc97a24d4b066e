//! Flags by which one end of a queue calls on the other.
use vstd::prelude::*;

verus! {

/// The flags of a queue. `epoch` asks every subscriber to note the current epoch; `reader` says
/// that no stream is left.
#[derive(Clone, Copy, Debug, PartialEq, Eq, Structural)]
pub struct AtomicSignal {
    pub epoch: bool,
    pub reader: bool,
}

/// The flags as they stood when they were read.
#[derive(Clone, Copy, Debug, PartialEq, Eq, Structural)]
pub struct LoadedSignal {
    pub epoch: bool,
    pub reader: bool,
}

impl LoadedSignal {
    /// Whether any flag is set.
    pub fn has_action(&self) -> (res: bool)
        ensures
            res == (self.epoch || self.reader),
    {
        self.epoch || self.reader
    }

    /// Whether the epoch has to be noted.
    pub fn get_epoch(&self) -> (res: bool)
        ensures
            res == self.epoch,
    {
        self.epoch
    }

    /// Whether no stream is left.
    pub fn get_reader(&self) -> (res: bool)
        ensures
            res == self.reader,
    {
        self.reader
    }
}

impl AtomicSignal {
    /// No flag set.
    pub fn new() -> (res: AtomicSignal)
        ensures
            res == (AtomicSignal { epoch: false, reader: false }),
    {
        AtomicSignal { epoch: false, reader: false }
    }

    /// Reads the flags.
    pub fn load(&self) -> (res: LoadedSignal)
        ensures
            res == (LoadedSignal { epoch: self.epoch, reader: self.reader }),
    {
        LoadedSignal { epoch: self.epoch, reader: self.reader }
    }

    /// Asks for the epoch to be noted.
    pub fn set_epoch(&mut self)
        ensures
            *final(self) == (AtomicSignal { epoch: true, ..*old(self) }),
    {
        self.epoch = true;
    }

    /// Withdraws the request to note the epoch.
    pub fn clear_epoch(&mut self)
        ensures
            *final(self) == (AtomicSignal { epoch: false, ..*old(self) }),
    {
        self.epoch = false;
    }

    /// Reports that no stream is left.
    pub fn set_reader(&mut self)
        ensures
            *final(self) == (AtomicSignal { reader: true, ..*old(self) }),
    {
        self.reader = true;
    }
}

} // verus!
