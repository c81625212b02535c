use vstd::prelude::*;
use crate::error::AppError;
use crate::text::{concat_str, decimal, decimal_chars, string_from_chars};

verus! {

broadcast use vstd::string::group_string_axioms;

/// The direction of a resource usage figure over time.
#[derive(Debug, Clone, Copy, PartialEq, Eq, Structural)]
pub enum Trend {
    Stable,
    Increasing,
    Decreasing,
}

impl Default for Trend {
    fn default() -> (r: Self)
        ensures
            r == Trend::Stable,
    {
        Trend::Stable
    }
}

/// The message refusing a request for `required` bytes when `available` are left.
pub open spec fn insufficient_message(required: nat, available: nat) -> Seq<char> {
    "Insufficient memory: required="@ + decimal(required) + ", available="@ + decimal(available)
}

/// Keeps the memory promised to tasks within a limit, in bytes.
pub struct MemoryLimiter {
    max_memory: usize,
    used_memory: usize,
}

impl MemoryLimiter {
    /// The limit.
    pub closed spec fn limit(&self) -> nat {
        self.max_memory as nat
    }

    /// The memory promised so far.
    pub closed spec fn used(&self) -> nat {
        self.used_memory as nat
    }

    /// The limiter's invariant: what is promised stays within the limit.
    pub open spec fn wf(&self) -> bool {
        self.used() <= self.limit()
    }

    /// A limiter of `max_memory` bytes with nothing promised.
    pub fn new(max_memory: usize) -> (r: Self)
        ensures
            r.wf(),
            r.limit() == max_memory,
            r.used() == 0,
    {
        MemoryLimiter { max_memory, used_memory: 0 }
    }

    /// Whether `required` more bytes fit; if not, an internal error telling how many are left.
    pub fn check_available(&self, required: usize) -> (r: Result<(), AppError>)
        requires
            self.wf(),
        ensures
            self.used() + required <= self.limit() ==> r is Ok,
            self.used() + required > self.limit() ==> (r matches Err(AppError::Internal(m))
                && m@ == insufficient_message(required as nat, (self.limit() - self.used()) as nat)),
    {
        if required > self.max_memory - self.used_memory {
            let head = concat_str("Insufficient memory: required=", string_from_chars(decimal_chars(required as u64).as_slice()).as_str());
            let tail = concat_str(", available=", string_from_chars(decimal_chars((self.max_memory - self.used_memory) as u64).as_slice()).as_str());
            let msg = concat_str(head.as_str(), tail.as_str());
            proof {
                reveal_strlit("Insufficient memory: required=");
                reveal_strlit(", available=");
            }
            assert(msg@ =~= insufficient_message(required as nat, (self.limit() - self.used()) as nat));
            Err(AppError::InternalServerError(msg))
        } else {
            Ok(())
        }
    }

    /// Promises `amount` more bytes when they fit; else refuses and changes nothing.
    pub fn allocate(&mut self, amount: usize) -> (r: Result<(), AppError>)
        requires
            old(self).wf(),
        ensures
            final(self).wf(),
            final(self).limit() == old(self).limit(),
            old(self).used() + amount <= old(self).limit() ==> r is Ok && final(self).used() == old(self).used() + amount,
            old(self).used() + amount > old(self).limit() ==> (r matches Err(AppError::Internal(m)) && m@ == "Memory allocation failed"@
                && final(self).used() == old(self).used()),
    {
        if amount > self.max_memory - self.used_memory {
            return Err(AppError::InternalServerError("Memory allocation failed".to_owned()));
        }
        self.used_memory = self.used_memory + amount;
        Ok(())
    }

    /// Gives back `amount` bytes (never below nothing promised).
    pub fn release(&mut self, amount: usize)
        requires
            old(self).wf(),
        ensures
            final(self).wf(),
            final(self).limit() == old(self).limit(),
            final(self).used() == if old(self).used() >= amount { old(self).used() - amount } else { 0 },
    {
        self.used_memory = self.used_memory.saturating_sub(amount);
    }

    /// The memory promised so far.
    pub fn get_used(&self) -> (r: usize)
        ensures
            r == self.used(),
    {
        self.used_memory
    }

    /// The limit.
    pub fn max_memory(&self) -> (r: usize)
        ensures
            r == self.limit(),
    {
        self.max_memory
    }
}

/// Giving back what was just promised restores the memory in use.
pub proof fn law_release_undoes_allocate(used: nat, limit: nat, amount: nat)
    requires
        used + amount <= limit,
    ensures
        ({
            let after = used + amount;
            (if after >= amount { after - amount } else { 0 }) == used
        }),
{
}

} // verus!
