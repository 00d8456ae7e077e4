use vstd::prelude::*;

verus! {

/// The typed failures that the kernel hands back to its callers.
#[derive(Debug, Clone, Copy, PartialEq, Eq, Structural)]
pub enum KernelError {
    /// A send or receive met a channel that is closed and has nothing left to give.
    ChannelClosed,
    /// A joined task was cancelled by shutdown before it completed.
    TaskCancelled,
    /// A spawn was refused because the scheduler has begun to shut down.
    SchedulerShuttingDown,
    /// The joined task failed while running.
    TaskPanicked,
}

impl KernelError {
    /// A short human-readable name of the failure.
    pub fn describe(&self) -> (r: &'static str)
        ensures
            r@ == self.name(),
    {
        match self {
            KernelError::ChannelClosed => "channel closed",
            KernelError::TaskCancelled => "task cancelled",
            KernelError::SchedulerShuttingDown => "scheduler shutting down",
            KernelError::TaskPanicked => "task panicked",
        }
    }

    pub open spec fn name(&self) -> Seq<char> {
        match self {
            KernelError::ChannelClosed => "channel closed"@,
            KernelError::TaskCancelled => "task cancelled"@,
            KernelError::SchedulerShuttingDown => "scheduler shutting down"@,
            KernelError::TaskPanicked => "task panicked"@,
        }
    }
}

} // verus!
