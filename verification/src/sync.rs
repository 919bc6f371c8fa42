//! Finding the start of a frame in an unstructured byte stream.
//!
//! A frame starts with the two bytes `0xFA, 0xA0`. The synchronizer looks at
//! one byte at a time. It first waits for `0xFA`; the byte after that must
//! be `0xA0`, or the search starts over with the byte that follows. A byte
//! that was turned down as the second marker is not looked at again as a
//! possible first one.

use vstd::prelude::*;
use crate::frame::{FIRST_ID, SYNC_BYTE};

verus! {

/// Where the synchronizer stands.
#[derive(Clone, Copy, Debug, PartialEq, Eq, Structural)]
pub enum SyncState {
    /// Waiting for `0xFA`.
    SeekFirstMarker,
    /// `0xFA` was seen; the next byte must be `0xA0`.
    SeekSecondMarker,
    /// Both markers were seen: the rest of the frame follows.
    Synchronized,
}

impl SyncState {
    /// The state after one more byte.
    pub open spec fn next(self, byte: u8) -> SyncState {
        match self {
            SyncState::SeekFirstMarker => if byte == 0xFA {
                SyncState::SeekSecondMarker
            } else {
                SyncState::SeekFirstMarker
            },
            SyncState::SeekSecondMarker => if byte == 0xA0 {
                SyncState::Synchronized
            } else {
                SyncState::SeekFirstMarker
            },
            SyncState::Synchronized => SyncState::Synchronized,
        }
    }

    /// The position in the frame buffer that the next byte belongs to.
    pub open spec fn spec_position(self) -> usize {
        match self {
            SyncState::SeekFirstMarker => 0,
            SyncState::SeekSecondMarker => 1,
            SyncState::Synchronized => 2,
        }
    }

    /// The state in which every search starts.
    pub fn new() -> (state: SyncState)
        ensures
            state == SyncState::SeekFirstMarker,
    {
        SyncState::SeekFirstMarker
    }

    /// Takes one byte of the stream.
    pub fn step(self, byte: u8) -> (state: SyncState)
        ensures
            state == self.next(byte),
    {
        match self {
            SyncState::SeekFirstMarker => if byte == SYNC_BYTE {
                SyncState::SeekSecondMarker
            } else {
                SyncState::SeekFirstMarker
            },
            SyncState::SeekSecondMarker => if byte == FIRST_ID {
                SyncState::Synchronized
            } else {
                SyncState::SeekFirstMarker
            },
            SyncState::Synchronized => SyncState::Synchronized,
        }
    }

    /// The position in the frame buffer that the next byte belongs to.
    #[verifier::when_used_as_spec(spec_position)]
    pub fn position(self) -> (at: usize)
        ensures
            at == self.spec_position(),
    {
        match self {
            SyncState::SeekFirstMarker => 0,
            SyncState::SeekSecondMarker => 1,
            SyncState::Synchronized => 2,
        }
    }
}

/// The state that `bytes`, taken one by one, lead to from `state`.
pub open spec fn run(state: SyncState, bytes: Seq<u8>) -> SyncState
    decreases bytes.len(),
{
    if bytes.len() == 0 {
        state
    } else {
        run(state, bytes.drop_last()).next(bytes.last())
    }
}

/// The state of a fresh synchronizer that has taken the first `n` bytes of
/// `stream`.
pub open spec fn state_after(stream: Seq<u8>, n: int) -> SyncState {
    run(SyncState::SeekFirstMarker, stream.take(n))
}

/// Holds when a fresh synchronizer is synchronized once it has taken `n`
/// bytes of `stream`, and not before.
pub open spec fn synchronized_after(stream: Seq<u8>, n: int) -> bool {
    &&& 0 <= n <= stream.len()
    &&& state_after(stream, n) == SyncState::Synchronized
    &&& forall|m: int| 0 <= m < n ==> state_after(stream, m) != SyncState::Synchronized
}

/// Holds when a fresh synchronizer takes all of `stream` without being
/// synchronized.
pub open spec fn never_synchronized(stream: Seq<u8>) -> bool {
    forall|m: int| 0 <= m <= stream.len() ==> state_after(stream, m) != SyncState::Synchronized
}

/// Holds when the two marker bytes stand at `k` and `k + 1` in `stream`.
pub open spec fn marker_at(stream: Seq<u8>, k: int) -> bool {
    &&& 0 <= k
    &&& k + 1 < stream.len()
    &&& stream[k] == 0xFA
    &&& stream[k + 1] == 0xA0
}

/// Holds when the two marker bytes stand at `k` and nowhere before.
pub open spec fn first_marker_at(stream: Seq<u8>, k: int) -> bool {
    &&& marker_at(stream, k)
    &&& forall|j: int| 0 <= j < k ==> !marker_at(stream, j)
}

/// The number of `0xFA` bytes that `bytes` ends with.
pub open spec fn trailing_sync_bytes(bytes: Seq<u8>) -> nat
    decreases bytes.len(),
{
    if bytes.len() == 0 || bytes.last() != 0xFA {
        0
    } else {
        1 + trailing_sync_bytes(bytes.drop_last())
    }
}

/// Runs a fresh synchronizer over `stream`, and says after how many bytes it
/// is synchronized: the frame's remaining 2518 bytes start there. `None`
/// where the stream ends first.
pub fn synchronize(stream: &[u8]) -> (consumed: Option<usize>)
    ensures
        match consumed {
            Some(n) => synchronized_after(stream@, n as int),
            None => never_synchronized(stream@),
        },
{
    let mut state = SyncState::new();
    let mut i: usize = 0;
    assert(stream@.take(0).len() == 0);
    while i < stream.len()
        invariant
            i <= stream.len(),
            state == state_after(stream@, i as int),
            forall|m: int| 0 <= m <= i ==> state_after(stream@, m) != SyncState::Synchronized,
        decreases stream.len() - i,
    {
        proof {
            lemma_state_after_step(stream@, i + 1);
        }
        state = state.step(stream[i]);
        i += 1;
        match state {
            SyncState::Synchronized => {
                return Some(i);
            },
            _ => {},
        }
    }
    None
}

/// One more byte of the stream is one step of the synchronizer.
pub proof fn lemma_state_after_step(stream: Seq<u8>, n: int)
    requires
        0 < n <= stream.len(),
    ensures
        state_after(stream, n) == state_after(stream, n - 1).next(stream[n - 1]),
{
    assert(stream.take(n).drop_last() =~= stream.take(n - 1));
}

/// Where no marker lies within the first `m` bytes, the number of `0xFA`
/// bytes just before `m` decides the state: the synchronizer waits for the
/// first marker after an even number of them, for the second after an odd
/// number.
pub proof fn lemma_state_without_marker(stream: Seq<u8>, m: int)
    requires
        0 <= m <= stream.len(),
        forall|j: int| 0 <= j && j + 1 < m ==> !marker_at(stream, j),
    ensures
        state_after(stream, m) == if trailing_sync_bytes(stream.take(m)) % 2 == 0 {
            SyncState::SeekFirstMarker
        } else {
            SyncState::SeekSecondMarker
        },
    decreases m,
{
    if m > 0 {
        lemma_state_without_marker(stream, m - 1);
        lemma_state_after_step(stream, m);
        assert(stream.take(m).drop_last() =~= stream.take(m - 1));
        if stream[m - 1] == 0xA0 && trailing_sync_bytes(stream.take(m - 1)) % 2 == 1 {
            assert(marker_at(stream, m - 2));
        }
    }
}

/// The synchronizer commits to a frame only where the two marker bytes
/// stand: never before their first occurrence.
pub proof fn lemma_synchronized_only_at_marker(stream: Seq<u8>, n: int)
    requires
        synchronized_after(stream, n),
    ensures
        marker_at(stream, n - 2),
        forall|k: int| first_marker_at(stream, k) ==> k + 2 <= n,
{
    assert(stream.take(0).len() == 0);
    lemma_state_after_step(stream, n);
    assert(state_after(stream, n - 1) == SyncState::SeekSecondMarker);
    lemma_state_after_step(stream, n - 1);
    assert(marker_at(stream, n - 2));
}

/// The synchronizer commits to the frame at the first occurrence of the two
/// marker bytes, provided that an even number of `0xFA` bytes (none, for
/// one) stands directly before it.
pub proof fn lemma_synchronized_at_first_marker(stream: Seq<u8>, k: int)
    requires
        first_marker_at(stream, k),
        trailing_sync_bytes(stream.take(k)) % 2 == 0,
    ensures
        synchronized_after(stream, k + 2),
{
    assert forall|m: int| 0 <= m < k + 2 implies state_after(stream, m)
        != SyncState::Synchronized by {
        if m <= k {
            lemma_state_without_marker(stream, m);
        } else {
            lemma_state_without_marker(stream, k);
            lemma_state_after_step(stream, k + 1);
        }
    }
    lemma_state_without_marker(stream, k);
    lemma_state_after_step(stream, k + 1);
    lemma_state_after_step(stream, k + 2);
}

/// After an odd number of `0xFA` bytes the synchronizer takes the `0xFA` of
/// the marker for a failed second marker, and passes the marker by.
pub proof fn lemma_marker_missed_after_odd_run(stream: Seq<u8>, k: int)
    requires
        first_marker_at(stream, k),
        trailing_sync_bytes(stream.take(k)) % 2 == 1,
    ensures
        forall|m: int| 0 <= m <= k + 2 ==> state_after(stream, m) != SyncState::Synchronized,
        state_after(stream, k + 2) == SyncState::SeekFirstMarker,
{
    lemma_state_without_marker(stream, k);
    lemma_state_after_step(stream, k + 1);
    lemma_state_after_step(stream, k + 2);
    assert forall|m: int| 0 <= m <= k + 2 implies state_after(stream, m)
        != SyncState::Synchronized by {
        if m <= k {
            lemma_state_without_marker(stream, m);
        }
    }
}

/// A `0xFA` that is not followed by `0xA0` costs two bytes and no more: the
/// synchronizer commits to the marker that comes right after them.
pub proof fn lemma_false_marker_recovery(second: u8, rest: Seq<u8>)
    requires
        second != 0xA0,
    ensures
        synchronized_after(seq![0xFAu8, second, 0xFAu8, 0xA0u8] + rest, 4),
{
    let stream = seq![0xFAu8, second, 0xFAu8, 0xA0u8] + rest;
    assert(stream.take(0).len() == 0);
    lemma_state_after_step(stream, 1);
    lemma_state_after_step(stream, 2);
    lemma_state_after_step(stream, 3);
    lemma_state_after_step(stream, 4);
}

} // verus!
