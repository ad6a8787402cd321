use poll::ballot::{parse_ordered_values, parse_poll_opts, VoteError};
use poll::codec::DecodeError;
use poll::options::CreationError;
use poll::ranked::BordaPoll;
use poll::score::ScoredChoicePoll;
use poll::simple::{MultipleChoicePoll, SingleChoicePoll};

fn scores(options: &[(String, u64)]) -> Vec<u64> {
    options.iter().map(|o| o.1).collect()
}

fn labels(options: &[(String, u64)]) -> Vec<&str> {
    options.iter().map(|o| o.0.as_str()).collect()
}

#[test]
fn too_few_options_fail_for_every_method() {
    for data in ["", "a"] {
        assert_eq!(SingleChoicePoll::from_data(data).err(), Some(CreationError::TooFewOptions));
        assert_eq!(MultipleChoicePoll::from_data(data).err(), Some(CreationError::TooFewOptions));
        assert_eq!(BordaPoll::from_data(data).err(), Some(CreationError::TooFewOptions));
    }
    assert_eq!(ScoredChoicePoll::from_data("a,0,5").err(), Some(CreationError::TooFewOptions));
    assert_eq!(ScoredChoicePoll::from_data("0,5").err(), Some(CreationError::TooFewOptions));
}

#[test]
fn creation_keeps_labels_in_order() {
    let p = SingleChoicePoll::from_data("red,green,blue").unwrap();
    assert_eq!(labels(&p.options), vec!["red", "green", "blue"]);
    assert_eq!(scores(&p.options), vec![0, 0, 0]);
    let p = BordaPoll::from_data("x,,y").unwrap();
    assert_eq!(labels(&p.options), vec!["x", "", "y"]);
}

#[test]
fn score_creation_reads_range() {
    let p = ScoredChoicePoll::from_data("a,b,c,1,10").unwrap();
    assert_eq!(labels(&p.options), vec!["a", "b", "c"]);
    assert_eq!((p.points_min, p.points_max), (1, 10));
    assert_eq!(ScoredChoicePoll::from_data("a,b,x,5").err(), Some(CreationError::InvalidNumber));
    assert_eq!(ScoredChoicePoll::from_data("a,b,0,x").err(), Some(CreationError::InvalidNumber));
    assert_eq!(ScoredChoicePoll::from_data("a,b,0,4294967296").err(), Some(CreationError::InvalidNumber));
    assert_eq!(ScoredChoicePoll::from_data("a,b,5,5").err(), Some(CreationError::InvalidRange));
    assert_eq!(ScoredChoicePoll::from_data("a,b,6,5").err(), Some(CreationError::InvalidRange));
}

#[test]
fn single_vote_adds_one_to_chosen_option() {
    let mut p = SingleChoicePoll::from_data("a,b,c").unwrap();
    assert_eq!(p.register_votes("response=1"), Ok(()));
    assert_eq!(scores(&p.options), vec![0, 1, 0]);
    assert_eq!(p.register_votes("response=+1"), Ok(()));
    assert_eq!(scores(&p.options), vec![0, 2, 0]);
}

#[test]
fn single_vote_errors_leave_state_unchanged() {
    let mut p = SingleChoicePoll::from_data("a,b").unwrap();
    assert_eq!(p.register_votes("choice=1"), Err(VoteError::MissingResponse));
    assert_eq!(p.register_votes("response=x"), Err(VoteError::NotANumber));
    assert_eq!(p.register_votes("response="), Err(VoteError::NotANumber));
    assert_eq!(p.register_votes("response=2"), Err(VoteError::OptionOutOfRange));
    assert_eq!(scores(&p.options), vec![0, 0]);
}

#[test]
fn multiple_vote_adds_one_per_choice() {
    let mut p = MultipleChoicePoll::from_data("a,b,c").unwrap();
    assert_eq!(p.register_votes("response=0&response=2"), Ok(()));
    assert_eq!(scores(&p.options), vec![1, 0, 1]);
    assert_eq!(p.register_votes("other=5&response=1"), Ok(()));
    assert_eq!(scores(&p.options), vec![1, 1, 1]);
    assert_eq!(p.register_votes("response=1"), Ok(()));
    assert_eq!(scores(&p.options), vec![1, 2, 1]);
}

#[test]
fn multiple_vote_errors_leave_state_unchanged() {
    let mut p = MultipleChoicePoll::from_data("a,b,c").unwrap();
    assert_eq!(p.register_votes("other=1"), Err(VoteError::NoChoice));
    assert_eq!(p.register_votes("response=0&response=3"), Err(VoteError::OptionOutOfRange));
    assert_eq!(p.register_votes("response=0&response=q"), Err(VoteError::NotANumber));
    assert_eq!(scores(&p.options), vec![0, 0, 0]);
}

#[test]
fn score_vote_adds_points_in_order() {
    let mut p = ScoredChoicePoll::from_data("a,b,c,0,5").unwrap();
    assert_eq!(p.register_votes("0=5&1=0&2=3"), Ok(()));
    assert_eq!(scores(&p.options), vec![5, 0, 3]);
    assert_eq!(p.register_votes("0=1&1=2&2=2"), Ok(()));
    assert_eq!(scores(&p.options), vec![6, 2, 5]);
}

#[test]
fn score_vote_outside_range_is_rejected() {
    let mut p = ScoredChoicePoll::from_data("a,b,c,1,5").unwrap();
    assert_eq!(p.register_votes("0=5&1=6&2=3"), Err(VoteError::PointsOutOfRange));
    assert_eq!(p.register_votes("0=0&1=1&2=1"), Err(VoteError::PointsOutOfRange));
    assert_eq!(scores(&p.options), vec![0, 0, 0]);
}

#[test]
fn borda_ranks_give_points() {
    let mut p = BordaPoll::from_data("a,b,c").unwrap();
    assert_eq!(p.register_votes("0=0&1=1&2=2"), Ok(()));
    assert_eq!(scores(&p.options), vec![2, 1, 0]);
    assert_eq!(p.register_votes("0=2&1=0&2=1"), Ok(()));
    assert_eq!(scores(&p.options), vec![2, 3, 1]);
}

#[test]
fn borda_rank_beyond_options_is_rejected() {
    let mut p = BordaPoll::from_data("a,b,c").unwrap();
    assert_eq!(p.register_votes("0=0&1=1&2=3"), Err(VoteError::RankOutOfRange));
    assert_eq!(scores(&p.options), vec![0, 0, 0]);
}

#[test]
fn borda_duplicate_ranks_are_scored_as_given() {
    let mut p = BordaPoll::from_data("a,b,c").unwrap();
    assert_eq!(p.register_votes("0=0&1=0&2=0"), Ok(()));
    assert_eq!(scores(&p.options), vec![2, 2, 2]);
}

#[test]
fn dowdall_ranks_give_reciprocal_points() {
    let ranks = parse_ordered_values("0=0&1=1&2=2", 3).unwrap();
    assert_eq!(ranks, vec![0, 1, 2]);
    let points: Vec<f32> = ranks.iter().map(|r| 1.0 / (*r as f32 + 1.0)).collect();
    assert_eq!(points, vec![1.0, 0.5, 1.0 / 3.0]);
    let total: f32 = points.iter().sum();
    let harmonic: f32 = (1..=3).map(|i| 1.0 / i as f32).sum();
    assert!((total - harmonic).abs() < 1e-6);
    assert!((total - (1.0 + 0.5 + 1.0 / 3.0)).abs() < 1e-6);
}

#[test]
fn wrong_index_at_position_is_rejected() {
    let mut b = BordaPoll::from_data("a,b,c").unwrap();
    assert_eq!(b.register_votes("0=1&0=0&2=2"), Err(VoteError::UnexpectedIndex));
    assert_eq!(b.register_votes("1=0&0=1&2=2"), Err(VoteError::UnexpectedIndex));
    assert_eq!(scores(&b.options), vec![0, 0, 0]);
    let mut s = ScoredChoicePoll::from_data("a,b,c,0,5").unwrap();
    assert_eq!(s.register_votes("1=1&1=1&2=1"), Err(VoteError::UnexpectedIndex));
    assert_eq!(scores(&s.options), vec![0, 0, 0]);
    assert_eq!(parse_ordered_values("1=0&0=0", 2), Err(VoteError::UnexpectedIndex));
}

#[test]
fn malformed_lists_are_rejected() {
    assert_eq!(parse_poll_opts("0=1&1=2", 3), Err(VoteError::WrongCount));
    assert_eq!(parse_poll_opts("0=1&1=2&2=3&3=0", 3), Err(VoteError::WrongCount));
    assert_eq!(parse_poll_opts("0=1&12&2=3", 3), Err(VoteError::MissingEquals));
    assert_eq!(parse_poll_opts("0=1&a=2&2=3", 3), Err(VoteError::NotANumber));
    assert_eq!(parse_poll_opts("0=1&1=-2&2=3", 3), Err(VoteError::NotANumber));
    assert_eq!(parse_poll_opts("0=4294967296&1=0", 2), Err(VoteError::NotANumber));
    assert_eq!(parse_poll_opts("0=4294967295&1=+7", 2), Ok(vec![(0, 4294967295), (1, 7)]));
    assert_eq!(parse_poll_opts("5=1", 1), Ok(vec![(5, 1)]));
}

#[test]
fn overflowing_score_is_rejected_whole() {
    let mut p = ScoredChoicePoll::from_data("a,b,0,5").unwrap();
    p.options[1].1 = u64::MAX - 2;
    assert_eq!(p.register_votes("0=1&1=3"), Err(VoteError::ScoreOverflow));
    assert_eq!(scores(&p.options), vec![0, u64::MAX - 2]);
    assert_eq!(p.register_votes("0=1&1=2"), Ok(()));
    assert_eq!(scores(&p.options), vec![1, u64::MAX]);
    let mut s = SingleChoicePoll::from_data("a,b").unwrap();
    s.options[0].1 = u64::MAX;
    assert_eq!(s.register_votes("response=0"), Err(VoteError::ScoreOverflow));
}

#[test]
fn reset_zeroes_scores_and_keeps_the_rest() {
    let mut s = ScoredChoicePoll::from_data("a,b,c,2,7").unwrap();
    s.register_votes("0=2&1=7&2=4").unwrap();
    s.reset();
    assert_eq!(scores(&s.options), vec![0, 0, 0]);
    assert_eq!(labels(&s.options), vec!["a", "b", "c"]);
    assert_eq!((s.points_min, s.points_max), (2, 7));
    let mut m = MultipleChoicePoll::from_data("x,y").unwrap();
    m.register_votes("response=1").unwrap();
    m.reset();
    assert_eq!(scores(&m.options), vec![0, 0]);
    assert_eq!(labels(&m.options), vec!["x", "y"]);
    let mut b = BordaPoll::from_data("p,q").unwrap();
    b.register_votes("0=0&1=1").unwrap();
    b.reset();
    assert_eq!(scores(&b.options), vec![0, 0]);
    let mut p = SingleChoicePoll::from_data("p,q").unwrap();
    p.register_votes("response=0").unwrap();
    p.reset();
    assert_eq!(scores(&p.options), vec![0, 0]);
}

#[test]
fn saved_state_reads_back() {
    let mut s = SingleChoicePoll::from_data("alpha,beta,gamma é").unwrap();
    s.register_votes("response=2").unwrap();
    let back = SingleChoicePoll::from_bytes(&s.save_state()).unwrap();
    assert_eq!(back.options, s.options);

    let mut m = MultipleChoicePoll::from_data("a,b").unwrap();
    m.options[0].1 = 300;
    m.options[1].1 = u64::MAX;
    let back = MultipleChoicePoll::from_bytes(&m.save_state()).unwrap();
    assert_eq!(back.options, m.options);

    let mut b = BordaPoll::from_data("a,b,c").unwrap();
    b.register_votes("0=1&1=0&2=2").unwrap();
    let back = BordaPoll::from_bytes(&b.save_state()).unwrap();
    assert_eq!(back.options, b.options);

    let mut sc = ScoredChoicePoll::from_data("a,b,3,70000").unwrap();
    sc.register_votes("0=70000&1=3").unwrap();
    let back = ScoredChoicePoll::from_bytes(&sc.save_state()).unwrap();
    assert_eq!(back.options, sc.options);
    assert_eq!((back.points_min, back.points_max), (3, 70000));
}

#[test]
fn saved_state_uses_bincode_layout() {
    let s = SingleChoicePoll::from_data("a,b").unwrap();
    assert_eq!(s.save_state(), vec![2, 1, b'a', 0, 1, b'b', 0]);
    let sc = ScoredChoicePoll::from_data("a,b,1,5").unwrap();
    assert_eq!(sc.save_state(), vec![1, 5, 2, 1, b'a', 0, 1, b'b', 0]);
}

#[test]
fn bad_bytes_fail_to_decode() {
    assert_eq!(SingleChoicePoll::from_bytes(&[]).err(), Some(DecodeError::Malformed));
    assert_eq!(SingleChoicePoll::from_bytes(&[2, 1, b'a']).err(), Some(DecodeError::Malformed));
    assert_eq!(
        SingleChoicePoll::from_bytes(&[2, 1, b'a', 0, 1, b'b', 0, 9]).err(),
        Some(DecodeError::TrailingBytes)
    );
    assert_eq!(SingleChoicePoll::from_bytes(&[1, 1, b'a', 0]).err(), Some(DecodeError::TooFewOptions));
    assert_eq!(
        ScoredChoicePoll::from_bytes(&[5, 5, 2, 1, b'a', 0, 1, b'b', 0]).err(),
        Some(DecodeError::InvalidRange)
    );
    // a length prefix far beyond the input is refused, not allocated
    assert_eq!(
        BordaPoll::from_bytes(&[253, 255, 255, 255, 255, 255, 255, 255, 15]).err(),
        Some(DecodeError::Malformed)
    );
}

#[test]
fn results_are_sorted_descending_and_stable() {
    let mut p = SingleChoicePoll::from_data("a,b,c,d").unwrap();
    for v in ["response=1", "response=3", "response=1", "response=2", "response=3"] {
        p.register_votes(v).unwrap();
    }
    let r = p.results();
    assert_eq!(labels(&r), vec!["b", "d", "c", "a"]);
    assert_eq!(scores(&r), vec![2, 2, 1, 0]);
    assert_eq!(p.results(), r);
    assert_eq!(labels(&p.options), vec!["a", "b", "c", "d"]);
}

#[test]
fn results_of_equal_scores_keep_creation_order() {
    let m = MultipleChoicePoll::from_data("z,y,x").unwrap();
    assert_eq!(labels(&m.results()), vec!["z", "y", "x"]);
    let mut b = BordaPoll::from_data("a,b,c").unwrap();
    b.register_votes("0=2&1=1&2=0").unwrap();
    assert_eq!(labels(&b.results()), vec!["c", "b", "a"]);
}

#[test]
fn score_results_totals() {
    let mut p = ScoredChoicePoll::from_data("a,b,c,0,10").unwrap();
    p.register_votes("0=3&1=10&2=0").unwrap();
    p.register_votes("0=9&1=1&2=0").unwrap();
    let r = p.results(2);
    assert_eq!(labels(&r.options_sorted), vec!["a", "b", "c"]);
    assert_eq!(scores(&r.options_sorted), vec![12, 11, 0]);
    assert_eq!(r.points_total, 23);
    assert_eq!(r.points_max, 20);
    p.options[0].1 = u64::MAX;
    p.options[1].1 = u64::MAX;
    let r = p.results(u64::MAX);
    assert_eq!(r.points_total, 2 * u64::MAX as u128);
    assert_eq!(r.points_max, 10 * u64::MAX as u128);
}
