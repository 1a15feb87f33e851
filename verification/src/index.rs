//! The index façade: building an index from raw vectors, and querying it
//! for the nearest neighbors of a probe.
//!
//! The engine behind the façade is a deterministic exhaustive scan: a query
//! ranks every indexed point by its distance to the probe (ties broken by
//! dense id) and keeps the `ef_search` best. Its contract pins the exact
//! result sequence, so repeated builds and queries over the same inputs
//! agree bit for bit.

use vstd::prelude::*;

use crate::codec::{
    coords_bytes, decode_point, decode_spec, encode_spec, from_le32, le32, le64, points_bytes,
    push_le32, push_le64, read_le32, read_le64, MAGIC,
};
use crate::order::{lemma_sort_keys_props, rank_keys, sort_keys, sorted};
use crate::params::Config;
use crate::point::{distance_spec, zero_padded, Point};
use crate::search::{
    candidate_of, lemma_key_order_respects_distance, lemma_key_round_trip, make_key, make_key_exec,
    Search,
};
use crate::{Error, DIMENSIONS};

verus! {

/// True when both candidate-set widths meet their documented minimum.
pub open spec fn params_ok(config: Config) -> bool {
    config.ef_search >= 1 && config.ef_construction >= 1
}

/// True when no input vector exceeds the fixed dimensionality.
pub open spec fn all_points_fit(input: Seq<Vec<u32>>) -> bool {
    forall|i: int| 0 <= i < input.len() ==> (#[trigger] input[i])@.len() <= DIMENSIONS
}

/// Every input vector, zero-padded to its full fixed length.
pub open spec fn padded_points(input: Seq<Vec<u32>>) -> Seq<Seq<u32>> {
    Seq::new(input.len(), |i: int| zero_padded(input[i]@))
}

/// The dense ids assigned at build time: position `i` of the input is id `i`.
pub open spec fn identity_ids(n: nat) -> Seq<u32> {
    Seq::new(n, |i: int| i as u32)
}

/// The ranking key of every indexed point against a probe.
pub open spec fn pair_keys(pts: Seq<Seq<u32>>, probe: Seq<u32>) -> Seq<u64> {
    Seq::new(pts.len(), |i: int| make_key(distance_spec(pts[i], probe), i as u32))
}

/// What a query leaves in the search buffer: all candidate keys in ranked
/// order, cut down to the `ef` best.
pub open spec fn query_results(pts: Seq<Seq<u32>>, probe: Seq<u32>, ef: int) -> Seq<u64> {
    sort_keys(pair_keys(pts, probe)).take(
        if ef < pts.len() {
            ef
        } else {
            pts.len() as int
        },
    )
}

/// An immutable nearest-neighbor index over a fixed set of points. Owns the
/// indexed points and the query width chosen when it was built.
#[derive(Debug)]
pub struct Index {
    ef_search: usize,
    points: Vec<Point>,
}

impl Index {
    /// The query-time candidate-set width this index was built with.
    pub closed spec fn ef_spec(&self) -> usize {
        self.ef_search
    }

    /// The coordinate bits of the indexed points, in dense-id order.
    pub closed spec fn points_spec(&self) -> Seq<Seq<u32>> {
        self.points@.map(|i: int, p: Point| p@)
    }

    /// Every stored point has its full fixed length, and the point count
    /// fits the 32-bit dense-id space.
    pub open spec fn wf(&self) -> bool {
        self.points_spec().len() <= u32::MAX && (forall|i: int|
            0 <= i < self.points_spec().len() ==> (#[trigger] self.points_spec()[i]).len()
                == DIMENSIONS)
    }

    /// Builds an index from raw coordinate vectors. Both candidate-set
    /// widths must be at least 1, and no vector may exceed the fixed
    /// dimensionality; shorter vectors are zero-padded. On success the
    /// returned ids map input order to dense ids one for one, and the
    /// result is fully determined by the input and the configuration. On
    /// failure nothing is produced.
    pub fn build(input: &Vec<Vec<u32>>, config: &Config) -> (r: Result<(Index, Vec<u32>), Error>)
        requires
            input@.len() <= u32::MAX,
        ensures
            match r {
                Ok(pair) => params_ok(*config) && all_points_fit(input@) && pair.0.wf()
                    && pair.0.ef_spec() == config.ef_search && pair.0.points_spec()
                    == padded_points(input@) && pair.1@ == identity_ids(input@.len()),
                Err(e) => match e {
                    Error::InvalidParameters => !params_ok(*config),
                    Error::PointTooLong => params_ok(*config) && !all_points_fit(input@),
                    Error::MalformedData => false,
                },
            },
    {
        if config.ef_search < 1 || config.ef_construction < 1 {
            return Err(Error::InvalidParameters);
        }
        let mut points: Vec<Point> = Vec::new();
        let mut ids: Vec<u32> = Vec::new();
        let mut i: usize = 0;
        while i < input.len()
            invariant
                params_ok(*config),
                i <= input@.len(),
                input@.len() <= u32::MAX,
                points@.len() == i,
                ids@.len() == i,
                forall|j: int| 0 <= j < i ==> (#[trigger] points@[j])@ == zero_padded(input@[j]@),
                forall|j: int| 0 <= j < i ==> (#[trigger] input@[j])@.len() <= DIMENSIONS,
                forall|j: int| 0 <= j < i ==> (#[trigger] ids@[j]) == j as u32,
            decreases input@.len() - i,
        {
            match Point::try_from(&input[i]) {
                Ok(p) => {
                    points.push(p);
                    ids.push(i as u32);
                },
                Err(e) => {
                    proof {
                        assert((input@[i as int])@.len() > DIMENSIONS);
                        assert(!all_points_fit(input@));
                    }
                    return Err(e);
                },
            }
            i += 1;
        }
        let index = Index { ef_search: config.ef_search, points };
        proof {
            assert(index.points_spec() =~= padded_points(input@));
            assert(ids@ =~= identity_ids(input@.len()));
        }
        Ok((index, ids))
    }

    /// Runs a nearest-neighbor query. The probe follows the same shape
    /// rules as build input. On success the buffer holds exactly the ranked
    /// results of this query — nothing of any earlier one — with its cursor
    /// on the first; the index itself is never changed. A too-long probe is
    /// reported without touching the buffer.
    pub fn search(&self, probe: &Vec<u32>, buffer: &mut Search) -> (r: Result<(), Error>)
        requires
            self.wf(),
        ensures
            match r {
                Ok(()) => probe@.len() <= DIMENSIONS && final(buffer).result_keys()
                    == query_results(self.points_spec(), zero_padded(probe@), self.ef_spec() as int)
                    && final(buffer).cursor() == Some(0usize),
                Err(e) => e == Error::PointTooLong && probe@.len() > DIMENSIONS && *final(buffer)
                    == *old(buffer),
            },
    {
        let p = match Point::try_from(probe) {
            Ok(p) => p,
            Err(e) => {
                return Err(e);
            },
        };
        let ghost pts = self.points_spec();
        let mut keys: Vec<u64> = Vec::new();
        let mut i: usize = 0;
        while i < self.points.len()
            invariant
                self.wf(),
                p.wf(),
                p@ == zero_padded(probe@),
                pts == self.points_spec(),
                i <= self.points@.len(),
                self.points@.len() <= u32::MAX,
                keys@.len() == i,
                forall|j: int|
                    0 <= j < i ==> (#[trigger] keys@[j]) == make_key(
                        distance_spec(pts[j], zero_padded(probe@)),
                        j as u32,
                    ),
            decreases self.points@.len() - i,
        {
            proof {
                assert(pts[i as int] == self.points@[i as int]@);
            }
            let d = self.points[i].distance(&p);
            let k = make_key_exec(d, i as u32);
            keys.push(k);
            i += 1;
        }
        proof {
            assert(keys@ =~= pair_keys(pts, zero_padded(probe@)));
            lemma_sort_keys_props(keys@);
        }
        let mut ranked = rank_keys(&keys);
        let n = self.points.len();
        let limit: usize = if self.ef_search < n {
            self.ef_search
        } else {
            n
        };
        ranked.truncate(limit);
        proof {
            assert(ranked@ =~= query_results(pts, zero_padded(probe@), self.ef_spec() as int));
        }
        buffer.fill(ranked);
        Ok(())
    }

    /// Serializes the whole index into the self-describing binary format.
    /// The exact bytes are pinned by the encoding specification, so two
    /// equal indexes always persist to equal bytes.
    pub fn dump(&self) -> (r: Vec<u8>)
        requires
            self.wf(),
        ensures
            r@ == encode_spec(self.ef_spec() as u64, self.points_spec()),
    {
        let ghost pts = self.points_spec();
        let mut buf: Vec<u8> = Vec::new();
        push_le32(&mut buf, MAGIC);
        push_le64(&mut buf, self.ef_search as u64);
        push_le64(&mut buf, self.points.len() as u64);
        let ghost hdr = le32(MAGIC) + le64(self.ef_search as u64) + le64(
            self.points@.len() as u64,
        );
        proof {
            assert(buf@ =~= hdr);
            assert(buf@ =~= hdr + points_bytes(pts, 0));
        }
        let mut i: usize = 0;
        while i < self.points.len()
            invariant
                self.wf(),
                pts == self.points_spec(),
                hdr == le32(MAGIC) + le64(self.ef_search as u64) + le64(self.points@.len() as u64),
                i <= self.points@.len(),
                buf@ == hdr + points_bytes(pts, i as int),
            decreases self.points@.len() - i,
        {
            proof {
                assert(buf@ =~= hdr + points_bytes(pts, i as int) + coords_bytes(pts[i as int], 0));
            }
            let mut j: usize = 0;
            while j < DIMENSIONS
                invariant
                    self.wf(),
                    pts == self.points_spec(),
                    i < self.points@.len(),
                    j <= DIMENSIONS,
                    buf@ == hdr + points_bytes(pts, i as int) + coords_bytes(
                        pts[i as int],
                        j as int,
                    ),
                decreases DIMENSIONS - j,
            {
                proof {
                    assert(pts[i as int] == self.points@[i as int]@);
                }
                let v = self.points[i].coord(j);
                push_le32(&mut buf, v);
                proof {
                    assert(buf@ =~= hdr + points_bytes(pts, i as int) + coords_bytes(
                        pts[i as int],
                        j + 1,
                    ));
                }
                j += 1;
            }
            proof {
                assert(buf@ =~= hdr + points_bytes(pts, i + 1));
            }
            i += 1;
        }
        proof {
            assert(pts.len() == self.points@.len());
            assert(buf@ =~= encode_spec(self.ef_spec() as u64, pts));
        }
        buf
    }

    /// Restores an index from persisted bytes. Succeeds exactly on streams
    /// that are a well-formed encoding — then the restored index carries the
    /// encoded width and points — and reports malformed data otherwise,
    /// producing nothing.
    pub fn load(bytes: &Vec<u8>) -> (r: Result<Index, Error>)
        ensures
            match r {
                Ok(index) => index.wf() && decode_spec(bytes@) == Some(
                    (index.ef_spec() as u64, index.points_spec()),
                ),
                Err(e) => e == Error::MalformedData && decode_spec(bytes@) is None,
            },
    {
        if bytes.len() < 20 {
            return Err(Error::MalformedData);
        }
        let magic = read_le32(bytes, 0);
        let ef64 = read_le64(bytes, 4);
        let n64 = read_le64(bytes, 12);
        proof {
            assert(bytes@.subrange(4, 12) =~= bytes@.subrange(4int, 4int + 8));
            assert(bytes@.subrange(12, 20) =~= bytes@.subrange(12int, 12int + 8));
        }
        if magic != MAGIC {
            return Err(Error::MalformedData);
        }
        if n64 > (u32::MAX as u64) {
            return Err(Error::MalformedData);
        }
        if ef64 > (usize::MAX as u64) {
            return Err(Error::MalformedData);
        }
        let expected: u64 = 20u64 + 1200u64 * n64;
        if (bytes.len() as u64) != expected {
            return Err(Error::MalformedData);
        }
        proof {
            assert(bytes@.len() == 20 + 1200 * (n64 as int));
        }
        let total: usize = bytes.len();
        let n_us = n64 as usize;
        let ef_us = ef64 as usize;
        let ghost target = Seq::new(n64 as nat, |k: int| decode_point(bytes@, 20 + 1200 * k));
        let mut points: Vec<Point> = Vec::new();
        let mut i: usize = 0;
        while i < n_us
            invariant
                bytes@.len() == 20 + 1200 * (n64 as int),
                bytes@.len() <= usize::MAX,
                n_us == n64,
                n64 <= u32::MAX as u64,
                target == Seq::new(n64 as nat, |k: int| decode_point(bytes@, 20 + 1200 * k)),
                points@.len() == i,
                i <= n_us,
                forall|k: int|
                    0 <= k < i ==> (#[trigger] points@[k])@ == target[k] && points@[k]@.len()
                        == DIMENSIONS,
            decreases n_us - i,
        {
            let off: usize = 20 + 1200 * i;
            let mut coords: Vec<u32> = Vec::new();
            let mut j: usize = 0;
            while j < DIMENSIONS
                invariant
                    bytes@.len() == 20 + 1200 * (n64 as int),
                    bytes@.len() <= usize::MAX,
                    i < n_us,
                    n_us == n64,
                    off == 20 + 1200 * (i as int),
                    coords@.len() == j,
                    j <= DIMENSIONS,
                    forall|k: int|
                        0 <= k < j ==> (#[trigger] coords@[k]) == from_le32(
                            bytes@.subrange(off + 4 * k, off + 4 * k + 4),
                        ),
                decreases DIMENSIONS - j,
            {
                let v = read_le32(bytes, off + 4 * j);
                coords.push(v);
                j += 1;
            }
            proof {
                assert(coords@ =~= decode_point(bytes@, off as int));
            }
            let p = Point::from_exact(coords);
            points.push(p);
            i += 1;
        }
        let index = Index { ef_search: ef_us, points };
        proof {
            assert(index.points_spec() =~= target);
            assert(decode_spec(bytes@) == Some((ef64, target)));
            assert(index.ef_spec() as u64 == ef64);
        }
        Ok(index)
    }
}

/// Law: restore inverts persist — the bytes `dump` writes for a well-formed
/// index decode to exactly the width and points that index holds, so `load`
/// accepts them and the restored index answers every query as the original
/// does.
pub proof fn lemma_persist_restore(index: Index)
    requires
        index.wf(),
    ensures
        decode_spec(encode_spec(index.ef_spec() as u64, index.points_spec())) == Some(
            (index.ef_spec() as u64, index.points_spec()),
        ),
{
    crate::codec::lemma_codec_round_trip(index.ef_spec() as u64, index.points_spec());
}

/// Law: builds are deterministic — `build`'s contract pins its outputs as a
/// function of the input and the configuration alone, so any two indexes a
/// successful build over the same input and configuration can produce
/// return identical ranked results for every probe.
pub proof fn lemma_build_deterministic(input: Seq<Vec<u32>>, config: Config, a: Index, b: Index)
    requires
        a.points_spec() == padded_points(input),
        a.ef_spec() == config.ef_search,
        b.points_spec() == padded_points(input),
        b.ef_spec() == config.ef_search,
    ensures
        forall|probe: Seq<u32>|
            query_results(a.points_spec(), probe, a.ef_spec() as int) == query_results(
                b.points_spec(),
                probe,
                b.ef_spec() as int,
            ),
{
}

/// Law: a query keeps at most `ef` candidates; they come ranked so that
/// distances never decrease along the stream; and whenever anything is
/// returned at all, the first candidate's distance is at most the distance
/// from the probe to every indexed point — no exhaustive scan finds a
/// closer one.
pub proof fn lemma_query_ordering(pts: Seq<Seq<u32>>, probe: Seq<u32>, ef: int)
    requires
        0 <= ef,
        pts.len() <= u32::MAX,
    ensures
        query_results(pts, probe, ef).len() == (if ef < pts.len() {
            ef
        } else {
            pts.len() as int
        }),
        sorted(query_results(pts, probe, ef)),
        forall|i: int, j: int|
            0 <= i < j < query_results(pts, probe, ef).len() ==> candidate_of(
                #[trigger] query_results(pts, probe, ef)[i],
            ).distance <= candidate_of(#[trigger] query_results(pts, probe, ef)[j]).distance,
        query_results(pts, probe, ef).len() > 0 ==> forall|i: int|
            0 <= i < pts.len() ==> candidate_of(query_results(pts, probe, ef)[0]).distance
                <= distance_spec(#[trigger] pts[i], probe),
{
    broadcast use vstd::seq_lib::group_to_multiset_ensures;

    let keys = pair_keys(pts, probe);
    let ranked = sort_keys(keys);
    let res = query_results(pts, probe, ef);
    lemma_sort_keys_props(keys);
    assert forall|i: int, j: int| 0 <= i < j < res.len() implies candidate_of(
        #[trigger] res[i],
    ).distance <= candidate_of(#[trigger] res[j]).distance by {
        assert(ranked[i] <= ranked[j]);
        lemma_key_order_respects_distance(res[i], res[j]);
    }
    if res.len() > 0 {
        assert forall|i: int| 0 <= i < pts.len() implies candidate_of(res[0]).distance
            <= distance_spec(#[trigger] pts[i], probe) by {
            assert(keys[i] == make_key(distance_spec(pts[i], probe), i as u32));
            assert(keys.to_multiset().count(keys[i]) > 0);
            assert(ranked.to_multiset().count(keys[i]) > 0);
            assert(ranked.contains(keys[i]));
            let j = choose|j: int| 0 <= j < ranked.len() && ranked[j] == keys[i];
            assert(ranked[0] <= ranked[j]);
            lemma_key_order_respects_distance(ranked[0], keys[i]);
            lemma_key_round_trip(distance_spec(pts[i], probe), i as u32);
        }
    }
}

} // verus!
