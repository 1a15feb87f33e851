use ann_index::index::Index;
use ann_index::params::{Config, Heuristic};
use ann_index::point::Point;
use ann_index::search::{Candidate, Search};
use ann_index::Error;

/// The bit patterns of a vector of floats.
fn bits(values: &[f32]) -> Vec<u32> {
    values.iter().map(|v| v.to_bits()).collect()
}

/// A full-length vector with the given leading coordinates and zeros after.
fn vec300(lead: &[f32]) -> Vec<u32> {
    let mut v = vec![0.0f32; 300];
    v[..lead.len()].copy_from_slice(lead);
    bits(&v)
}

fn drain(s: &mut Search) -> Vec<Candidate> {
    let mut out = Vec::new();
    while let Some(c) = s.next() {
        out.push(c);
    }
    out
}

#[test]
fn config_defaults() {
    let cfg = Config::new();
    assert_eq!(cfg.ef_search, 100);
    assert_eq!(cfg.ef_construction, 100);
    assert_eq!(cfg.ml, std::f32::consts::LOG2_E.to_bits());
    assert_eq!(f32::from_bits(cfg.ml), 1.0f32 / std::f32::consts::LN_2);
    assert_eq!(cfg.seed, 0);
    let h = cfg.heuristic.unwrap();
    assert!(!h.extend_candidates);
    assert!(h.keep_pruned);
}

#[test]
fn heuristic_defaults() {
    let a = Heuristic::new();
    let b = Heuristic::default();
    assert_eq!(a, b);
    assert!(!a.extend_candidates);
    assert!(a.keep_pruned);
}

#[test]
fn point_too_long_rejected() {
    let too_long = vec![0u32; 301];
    assert_eq!(Point::try_from(&too_long).unwrap_err(), Error::PointTooLong);
    let exact = vec![0u32; 300];
    assert!(Point::try_from(&exact).is_ok());
}

#[test]
fn point_short_input_zero_padded() {
    // 299 supplied values: the last coordinate is implicitly 0.0.
    let mut short = vec![2.5f32.to_bits(); 299];
    short[0] = 7.0f32.to_bits();
    let mut full = short.clone();
    full.push(0.0f32.to_bits());
    assert_eq!(full.len(), 300);
    let a = Point::try_from(&short).unwrap();
    let b = Point::try_from(&full).unwrap();
    assert_eq!(a.distance(&b), 0.0f32.to_bits());
}

#[test]
fn distance_known_value() {
    let a = Point::try_from(&vec300(&[0.0, 0.0])).unwrap();
    let b = Point::try_from(&vec300(&[3.0, 4.0])).unwrap();
    assert_eq!(f32::from_bits(a.distance(&b)), 25.0);
}

#[test]
fn distance_symmetric_and_zero_on_self() {
    let a = Point::try_from(&vec300(&[1.5, -2.25, 8.0])).unwrap();
    let b = Point::try_from(&vec300(&[-4.0, 0.5, 2.0])).unwrap();
    assert_eq!(a.distance(&b), b.distance(&a));
    assert!(f32::from_bits(a.distance(&b)) >= 0.0);
    assert_eq!(a.distance(&a), 0.0f32.to_bits());
}

#[test]
fn build_rejects_zero_widths() {
    let mut cfg = Config::new();
    cfg.ef_search = 0;
    let input = vec![vec300(&[1.0])];
    assert_eq!(Index::build(&input, &cfg).unwrap_err(), Error::InvalidParameters);
    let mut cfg2 = Config::new();
    cfg2.ef_construction = 0;
    assert_eq!(Index::build(&input, &cfg2).unwrap_err(), Error::InvalidParameters);
}

#[test]
fn build_rejects_long_point() {
    let cfg = Config::new();
    let input = vec![vec300(&[1.0]), vec![0u32; 301]];
    assert_eq!(Index::build(&input, &cfg).unwrap_err(), Error::PointTooLong);
}

#[test]
fn build_assigns_dense_ids_in_input_order() {
    let cfg = Config::new();
    let input = vec![vec300(&[0.0]), vec300(&[1.0]), vec300(&[2.0])];
    let (_, ids) = Index::build(&input, &cfg).unwrap();
    assert_eq!(ids, vec![0, 1, 2]);
}

#[test]
fn stream_is_forward_only_and_ends_cleanly() {
    let mut s = Search::new();
    // Before any query the stream yields nothing.
    assert!(s.next().is_none());
    let mut cfg = Config::new();
    cfg.ef_search = 2;
    let input = vec![vec300(&[0.0]), vec300(&[1.0]), vec300(&[5.0])];
    let (index, _) = Index::build(&input, &cfg).unwrap();
    index.search(&vec300(&[0.0]), &mut s).unwrap();
    assert!(s.next().is_some());
    assert!(s.next().is_some());
    // At most ef_search results; past the end the stream stays ended.
    assert!(s.next().is_none());
    assert!(s.next().is_none());
}

#[test]
fn results_come_in_ascending_distance_order() {
    let mut cfg = Config::new();
    cfg.ef_search = 4;
    let input = vec![vec300(&[6.0]), vec300(&[1.0]), vec300(&[3.0]), vec300(&[10.0])];
    let (index, _) = Index::build(&input, &cfg).unwrap();
    let mut s = Search::new();
    index.search(&vec300(&[0.0]), &mut s).unwrap();
    let got = drain(&mut s);
    assert_eq!(got.len(), 4);
    let pids: Vec<u32> = got.iter().map(|c| c.pid).collect();
    assert_eq!(pids, vec![1, 2, 0, 3]);
    let dists: Vec<f32> = got.iter().map(|c| f32::from_bits(c.distance)).collect();
    assert_eq!(dists, vec![1.0, 9.0, 36.0, 100.0]);
    for w in dists.windows(2) {
        assert!(w[0] <= w[1]);
    }
    // The first result is as close as any brute-force scan can find.
    let points: Vec<Point> = input.iter().map(|v| Point::try_from(v).unwrap()).collect();
    let probe = Point::try_from(&vec300(&[0.0])).unwrap();
    let best = points
        .iter()
        .map(|p| f32::from_bits(p.distance(&probe)))
        .fold(f32::INFINITY, f32::min);
    assert!(dists[0] <= best);
}

#[test]
fn buffer_reuse_reflects_only_latest_query() {
    let mut cfg = Config::new();
    cfg.ef_search = 2;
    let input = vec![vec300(&[0.0]), vec300(&[100.0])];
    let (index, _) = Index::build(&input, &cfg).unwrap();
    let mut s = Search::new();
    index.search(&vec300(&[1.0]), &mut s).unwrap();
    let first = drain(&mut s);
    assert_eq!(first[0].pid, 0);
    index.search(&vec300(&[99.0]), &mut s).unwrap();
    let second = drain(&mut s);
    assert_eq!(second[0].pid, 1);
    assert_eq!(second.len(), 2);
    assert_eq!(f32::from_bits(second[0].distance), 1.0);
}

#[test]
fn failed_search_leaves_buffer_untouched() {
    let mut cfg = Config::new();
    cfg.ef_search = 1;
    let input = vec![vec300(&[0.0])];
    let (index, _) = Index::build(&input, &cfg).unwrap();
    let mut s = Search::new();
    index.search(&vec300(&[0.0]), &mut s).unwrap();
    // A too-long probe fails fast, and the previous results stay readable.
    let err = index.search(&vec![0u32; 301], &mut s).unwrap_err();
    assert_eq!(err, Error::PointTooLong);
    let kept = drain(&mut s);
    assert_eq!(kept.len(), 1);
    assert_eq!(kept[0].pid, 0);
}

#[test]
fn identical_builds_yield_identical_results() {
    let cfg = Config::new();
    let input = vec![vec300(&[1.0, 2.0]), vec300(&[-3.0, 0.5]), vec300(&[4.0, 4.0])];
    let (a, ids_a) = Index::build(&input, &cfg).unwrap();
    let (b, ids_b) = Index::build(&input, &cfg).unwrap();
    assert_eq!(ids_a, ids_b);
    assert_eq!(a.dump(), b.dump());
    let mut sa = Search::new();
    let mut sb = Search::new();
    let probe = vec300(&[0.25, 0.25]);
    a.search(&probe, &mut sa).unwrap();
    b.search(&probe, &mut sb).unwrap();
    assert_eq!(drain(&mut sa), drain(&mut sb));
}

#[test]
fn persisted_index_restores_to_equal_queries() {
    let mut cfg = Config::new();
    cfg.ef_search = 3;
    let input = vec![vec300(&[1.0]), vec300(&[2.0]), vec300(&[-5.0]), vec300(&[0.125])];
    let (index, _) = Index::build(&input, &cfg).unwrap();
    let encoded = index.dump();
    let restored = Index::load(&encoded).unwrap();
    assert_eq!(encoded, restored.dump());
    let probe = vec300(&[0.5]);
    let mut s1 = Search::new();
    let mut s2 = Search::new();
    index.search(&probe, &mut s1).unwrap();
    restored.search(&probe, &mut s2).unwrap();
    assert_eq!(drain(&mut s1), drain(&mut s2));
}

#[test]
fn malformed_bytes_are_rejected() {
    assert_eq!(Index::load(&Vec::new()).unwrap_err(), Error::MalformedData);
    assert_eq!(Index::load(&vec![7u8; 25]).unwrap_err(), Error::MalformedData);
    let (index, _) = Index::build(&vec![vec300(&[1.0])], &Config::new()).unwrap();
    let good = index.dump();
    let mut bad_magic = good.clone();
    bad_magic[0] ^= 0xFF;
    assert_eq!(Index::load(&bad_magic).unwrap_err(), Error::MalformedData);
    let mut truncated = good.clone();
    truncated.pop();
    assert_eq!(Index::load(&truncated).unwrap_err(), Error::MalformedData);
    assert!(Index::load(&good).is_ok());
}

#[test]
fn square_corner_scenario() {
    // Four corners of a unit square in the first two of 300 coordinates.
    let input = vec![
        vec300(&[0.0, 0.0]),
        vec300(&[0.0, 1.0]),
        vec300(&[1.0, 0.0]),
        vec300(&[1.0, 1.0]),
    ];
    let mut cfg = Config::new();
    cfg.ef_search = 2;
    let (index, ids) = Index::build(&input, &cfg).unwrap();
    assert_eq!(ids, vec![0, 1, 2, 3]);
    let mut s = Search::new();
    index.search(&vec300(&[0.0, 0.0]), &mut s).unwrap();
    let got = drain(&mut s);
    assert_eq!(got.len(), 2);
    // The probed corner itself comes first, at distance zero.
    assert_eq!(got[0].pid, 0);
    assert_eq!(f32::from_bits(got[0].distance), 0.0);
    // Its nearest adjacent corner comes second, at distance one.
    assert_eq!(got[1].pid, 1);
    assert_eq!(f32::from_bits(got[1].distance), 1.0);
}

#[test]
fn empty_index_round_trips_and_answers_empty() {
    let cfg = Config::new();
    let (index, ids) = Index::build(&Vec::new(), &cfg).unwrap();
    assert!(ids.is_empty());
    let restored = Index::load(&index.dump()).unwrap();
    let mut s = Search::new();
    restored.search(&vec300(&[1.0]), &mut s).unwrap();
    assert!(drain(&mut s).is_empty());
}
