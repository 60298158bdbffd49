use vstd::prelude::*;

verus! {

/// The highest signal number a set can hold.
pub const LAST_SIGNAL: u32 = 64;

/// A set of signals as a bit mask: signal `n` (from 1 to 64) at bit `n - 1`.
pub open spec fn has_signal(set: u64, n: u32) -> bool {
    (set >> ((n - 1) as u64)) & 1 == 1
}

/// Signal `n` of a set is its bit `n - 1`.
pub proof fn lemma_has_signal_is_bit(set: u64, n: u32)
    requires
        1 <= n <= LAST_SIGNAL,
    ensures
        has_signal(set, n) <==> set & (1u64 << ((n - 1) as u64)) != 0,
{
    let s: u64 = (n - 1) as u64;
    assert(((set >> s) & 1 == 1) <==> (set & (1u64 << s) != 0)) by (bit_vector)
        requires
            s < 64,
    ;
}

/// Why a set of signals cannot be received asynchronously.
#[derive(Clone, Copy, Debug, PartialEq, Eq, Structural)]
pub enum SignalSetError {
    /// The set holds no signal.
    Empty,
    /// A signal of the set is blocked in the calling thread.
    Blocked,
}

/// Check that the signals of `requested` can be received through a signal file
/// descriptor while `blocked` is the thread's signal mask: the set must hold a
/// signal, and none of its signals may be blocked. Both masks hold the signals
/// that the platform's signal sets enumerate (the standard signals).
pub fn check_signal_set(requested: u64, blocked: u64) -> (r: Result<(), SignalSetError>)
    ensures
        r == (if requested == 0 {
            Err(SignalSetError::Empty)
        } else if requested & blocked != 0 {
            Err(SignalSetError::Blocked)
        } else {
            Ok(())
        }),
        r == (if requested == 0 {
            Err(SignalSetError::Empty)
        } else if exists|n: u32|
            1 <= n <= LAST_SIGNAL && #[trigger] has_signal(requested, n) && has_signal(
                blocked,
                n,
            ) {
            Err(SignalSetError::Blocked)
        } else {
            Ok(())
        }),
{
    if requested == 0 {
        return Err(SignalSetError::Empty);
    }
    let ghost c: u64 = requested & blocked;
    assert((c >> 0u64) << 0u64 == c) by (bit_vector);
    let mut n: u32 = 1;
    while n <= LAST_SIGNAL
        invariant
            1 <= n <= LAST_SIGNAL + 1,
            requested != 0,
            c == requested & blocked,
            forall|m: u32| 1 <= m < n ==> !(#[trigger] has_signal(requested, m) && has_signal(blocked, m)),
            n <= LAST_SIGNAL ==> (c >> ((n - 1) as u64)) << ((n - 1) as u64) == c,
            n == LAST_SIGNAL + 1 ==> c == 0,
        decreases LAST_SIGNAL + 1 - n,
    {
        let shift: u64 = (n - 1) as u64;
        if (requested >> shift) & 1 == 1 && (blocked >> shift) & 1 == 1 {
            assert(has_signal(requested, n) && has_signal(blocked, n));
            assert(requested & blocked != 0) by (bit_vector)
                requires
                    shift < 64,
                    (requested >> shift) & 1 == 1,
                    (blocked >> shift) & 1 == 1,
            ;
            return Err(SignalSetError::Blocked);
        }
        assert((c >> shift) & 1 == 0) by (bit_vector)
            requires
                shift < 64,
                c == requested & blocked,
                !((requested >> shift) & 1 == 1 && (blocked >> shift) & 1 == 1),
        ;
        if shift < 63 {
            assert((c >> (shift + 1)) << (shift + 1) == c) by (bit_vector)
                requires
                    shift < 63,
                    (c >> shift) << shift == c,
                    (c >> shift) & 1 == 0,
            ;
        } else {
            assert(c == 0) by (bit_vector)
                requires
                    shift == 63,
                    (c >> shift) << shift == c,
                    (c >> shift) & 1 == 0,
            ;
        }
        n = n + 1;
    }
    Ok(())
}

} // verus!
