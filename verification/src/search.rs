//! The reusable search buffer, its forward-only result stream, and the
//! candidate records the stream yields.

use vstd::prelude::*;

verus! {

/// One ranked query result: the dense id assigned to an indexed point and
/// the bit pattern of its 32-bit float squared-Euclidean distance to the
/// probe.
#[derive(Clone, Copy, Debug, PartialEq, Eq, Structural)]
pub struct Candidate {
    /// Dense identifier of the neighboring point.
    pub pid: u32,
    /// Distance to the neighboring point, as float bits.
    pub distance: u32,
}

/// The ranking key of a candidate: distance bits in the high half, dense id
/// in the low half, so unsigned key order is ascending distance with ties
/// broken by ascending id.
pub open spec fn make_key(distance: u32, pid: u32) -> u64 {
    ((distance as u64) * 0x1_0000_0000u64 + (pid as u64)) as u64
}

/// The candidate a ranking key denotes.
pub open spec fn candidate_of(key: u64) -> Candidate {
    Candidate { pid: (key % 0x1_0000_0000u64) as u32, distance: (key / 0x1_0000_0000u64) as u32 }
}

/// Packing a candidate into its key and unpacking it are inverses.
pub proof fn lemma_key_round_trip(distance: u32, pid: u32)
    ensures
        candidate_of(make_key(distance, pid)) == (Candidate { pid, distance }),
{
    let k = make_key(distance, pid);
    assert(k % 0x1_0000_0000u64 == pid && k / 0x1_0000_0000u64 == distance) by (nonlinear_arith)
        requires
            k == (distance as u64) * 0x1_0000_0000u64 + (pid as u64),
            distance <= u32::MAX,
            pid <= u32::MAX,
    ;
}

/// Key order never ranks a larger distance before a smaller one.
pub proof fn lemma_key_order_respects_distance(k1: u64, k2: u64)
    requires
        k1 <= k2,
    ensures
        candidate_of(k1).distance <= candidate_of(k2).distance,
{
    assert(k1 / 0x1_0000_0000u64 <= k2 / 0x1_0000_0000u64) by (nonlinear_arith)
        requires
            k1 <= k2,
    ;
}

/// Computes `make_key` with machine operations.
pub(crate) fn make_key_exec(distance: u32, pid: u32) -> (k: u64)
    ensures
        k == make_key(distance, pid),
{
    let k = ((distance as u64) << 32u64) | (pid as u64);
    proof {
        assert(((distance as u64) << 32u64) | (pid as u64) == (distance as u64)
            * 0x1_0000_0000u64 + (pid as u64)) by (bit_vector)
            requires
                distance <= 0xFFFF_FFFFu64,
                pid <= 0xFFFF_FFFFu64,
        ;
    }
    k
}

/// Computes `candidate_of` with machine operations.
pub(crate) fn candidate_of_exec(key: u64) -> (c: Candidate)
    ensures
        c == candidate_of(key),
{
    let pid = (key & 0xFFFF_FFFFu64) as u32;
    let distance = (key >> 32u64) as u32;
    proof {
        assert((key & 0xFFFF_FFFFu64) == key % 0x1_0000_0000u64 && (key >> 32u64) == key
            / 0x1_0000_0000u64) by (bit_vector);
    }
    Candidate { pid, distance }
}

/// A reusable query scratch buffer: the ranked keys of the last completed
/// query together with a cursor into them. The cursor is unset before any
/// query and again once the result stream has been drained; otherwise it
/// holds the index of the next unread result.
pub struct Search {
    results: Vec<u64>,
    cur: Option<usize>,
}

impl Search {
    /// The ranked keys the last completed query left in the buffer.
    pub closed spec fn result_keys(&self) -> Seq<u64> {
        self.results@
    }

    /// The read cursor of the result stream.
    pub closed spec fn cursor(&self) -> Option<usize> {
        self.cur
    }

    /// An empty search buffer: no results, cursor unset.
    pub fn new() -> (r: Search)
        ensures
            r.result_keys() == Seq::<u64>::empty(),
            r.cursor() is None,
    {
        Search { results: Vec::new(), cur: None }
    }

    /// Overwrites the buffer with a fresh ranked result set and rewinds the
    /// cursor to the first result. Every trace of any earlier query is gone.
    pub(crate) fn fill(&mut self, keys: Vec<u64>) -> (r: ())
        ensures
            final(self).result_keys() == keys@,
            final(self).cursor() == Some(0usize),
    {
        self.results = keys;
        self.cur = Some(0);
    }

    /// Advances the result stream by one step: with the cursor on an unread
    /// result it yields that candidate and moves forward; with the cursor
    /// past the last result it ends the stream and unsets the cursor; with
    /// the cursor unset it keeps yielding nothing. The results themselves
    /// are never changed by reading.
    pub fn next(&mut self) -> (r: Option<Candidate>)
        ensures
            final(self).result_keys() == old(self).result_keys(),
            match old(self).cursor() {
                None => r is None && final(self).cursor() is None,
                Some(idx) => if idx < old(self).result_keys().len() {
                    r == Some(candidate_of(old(self).result_keys()[idx as int]))
                        && final(self).cursor() == Some((idx + 1) as usize)
                } else {
                    r is None && final(self).cursor() is None
                },
            },
    {
        let idx = match self.cur {
            Some(idx) => idx,
            None => {
                return None;
            },
        };
        if idx >= self.results.len() {
            self.cur = None;
            return None;
        }
        let c = candidate_of_exec(self.results[idx]);
        self.cur = Some(idx + 1);
        Some(c)
    }
}

} // verus!
