//! Score polls: every voter gives each option a number of points from a fixed
//! range; options are ranked by the sum of their points.
use vstd::prelude::*;
use crate::ballot::{ordered_values_spec, parse_ordered_values, u32_max, VoteError};
use crate::options::{add_points, fresh_options, fresh_tally, tally_of, zero_scores, zeroed, CreationError, Tally};
use crate::codec::{decode_scored, encode_scored, scored_encoding, DecodeError, MAX_STATE_BYTES};
use crate::options::scores;
use crate::results::{in_results_order, sorted_options};
use crate::simple::applied;
use crate::text::{decimal_value, parse_decimal, split_on, split_str, strings_view};

verus! {

/// What creation input `{option1},...,{optionN},{min},{max}` describes: the
/// assignable range and the options. It needs at least two options and
/// `min < max`.
pub open spec fn score_creation_spec(data: Seq<char>) -> Result<(u32, u32, Tally), CreationError> {
    let pieces = split_on(data, ',');
    let n = pieces.len();
    if n < 4 {
        Err(CreationError::TooFewOptions)
    } else {
        match decimal_value(pieces[n - 1], u32_max()) {
            None => Err(CreationError::InvalidNumber),
            Some(max) => match decimal_value(pieces[n - 2], u32_max()) {
                None => Err(CreationError::InvalidNumber),
                Some(min) => if min >= max {
                    Err(CreationError::InvalidRange)
                } else {
                    Ok((min as u32, max as u32, fresh_tally(pieces.subrange(0, n - 2))))
                },
            },
        }
    }
}

/// Creation input that names fewer than two options is refused.
pub proof fn lemma_score_too_few_options(data: Seq<char>)
    requires
        split_on(data, ',').len() < 4,
    ensures
        score_creation_spec(data) == Err::<(u32, u32, Tally), CreationError>(
            CreationError::TooFewOptions,
        ),
{
}

/// Whether some value lies outside `[min, max]`.
pub open spec fn any_out_of_range(v: Seq<u32>, min: u32, max: u32) -> bool {
    exists|i: int| 0 <= i < v.len() && (#[trigger] v[i] < min || v[i] > max)
}

/// The points that a score ballot gives the `n` options of a poll with range
/// `[min, max]`.
pub open spec fn score_ballot_spec(q: Seq<char>, n: nat, min: u32, max: u32) -> Result<Seq<nat>, VoteError> {
    match ordered_values_spec(q, n) {
        Err(e) => Err(e),
        Ok(v) => if any_out_of_range(v, min, max) {
            Err(VoteError::PointsOutOfRange)
        } else {
            Ok(v.map_values(|x: u32| x as nat))
        },
    }
}

/// The sum of the scores.
pub open spec fn score_total(s: Seq<u64>) -> nat
    decreases s.len(),
{
    if s.len() == 0 {
        0
    } else {
        score_total(s.drop_last()) + s.last() as nat
    }
}

/// What the results of a score poll show.
pub struct ScoreResults {
    /// The options in results order.
    pub options_sorted: Vec<(String, u64)>,
    /// The points that all voters gave all options together.
    pub points_total: u128,
    /// The most points one option could have collected: voters times `points_max`.
    pub points_max: u128,
}

/// A poll in which each voter scores every option within `[points_min, points_max]`.
pub struct ScoredChoicePoll {
    /// The fewest points a voter may give an option.
    pub points_min: u32,
    /// The most points a voter may give an option.
    pub points_max: u32,
    /// `(label, points)` per option, in creation order.
    pub options: Vec<(String, u64)>,
}

impl View for ScoredChoicePoll {
    type V = Tally;

    open spec fn view(&self) -> Tally {
        tally_of(self.options@)
    }
}

impl ScoredChoicePoll {
    /// Creates the poll from `{option1},...,{optionN},{points_min},{points_max}`.
    pub fn from_data(data: &str) -> (r: Result<ScoredChoicePoll, CreationError>)
        ensures
            match r {
                Ok(p) => score_creation_spec(data@) == Ok::<(u32, u32, Tally), CreationError>(
                    (p.points_min, p.points_max, p@),
                ),
                Err(e) => score_creation_spec(data@) == Err::<(u32, u32, Tally), CreationError>(e),
            },
    {
        let pieces = split_str(data, ',');
        let n = pieces.len();
        if n < 4 {
            return Err(CreationError::TooFewOptions);
        }
        let points_max = match parse_decimal(pieces[n - 1].as_str(), 0xffff_ffff) {
            Some(v) => v as u32,
            None => {
                return Err(CreationError::InvalidNumber);
            },
        };
        let points_min = match parse_decimal(pieces[n - 2].as_str(), 0xffff_ffff) {
            Some(v) => v as u32,
            None => {
                return Err(CreationError::InvalidNumber);
            },
        };
        if points_min >= points_max {
            return Err(CreationError::InvalidRange);
        }
        let options = fresh_options(&pieces, n - 2);
        Ok(ScoredChoicePoll { points_min, points_max, options })
    }

    /// Registers the ballot `0={p}&1={p}&...&{N-1}={p}`: every option gains the
    /// points given to it, each within `[points_min, points_max]`.
    pub fn register_votes(&mut self, query: &str) -> (r: Result<(), VoteError>)
        ensures
            final(self).points_min == old(self).points_min,
            final(self).points_max == old(self).points_max,
            match score_ballot_spec(query@, old(self)@.len(), old(self).points_min, old(self).points_max) {
                Err(e) => r == Err::<(), VoteError>(e) && final(self)@ == old(self)@,
                Ok(pts) => applied(old(self)@, pts, r, final(self)@),
            },
    {
        let values = parse_ordered_values(query, self.options.len())?;
        let mut pts: Vec<u64> = Vec::new();
        let mut i: usize = 0;
        while i < values.len()
            invariant
                i <= values.len(),
                pts@.len() == i,
                values@.len() == self.options.len(),
                ordered_values_spec(query@, self.options.len() as nat) == Ok::<Seq<u32>, VoteError>(values@),
                forall|k: int| 0 <= k < i ==> #[trigger] pts@[k] == values@[k] as u64,
                forall|k: int| 0 <= k < i ==> self.points_min <= #[trigger] values@[k] <= self.points_max,
            decreases values.len() - i,
        {
            let v = values[i];
            if v < self.points_min || v > self.points_max {
                proof {
                    assert(values@[i as int] == v);
                    assert(any_out_of_range(values@, self.points_min, self.points_max));
                    assert(self@.len() == self.options.len());
                }
                return Err(VoteError::PointsOutOfRange);
            }
            pts.push(v as u64);
            i = i + 1;
        }
        proof {
            assert(pts@.map_values(|p: u64| p as nat) =~= values@.map_values(|x: u32| x as nat));
        }
        add_points(&mut self.options, &pts)
    }

    /// The state as bytes for storage.
    pub fn save_state(&self) -> (r: Vec<u8>)
        ensures
            r@ == scored_encoding(self.points_min, self.points_max, self@),
    {
        encode_scored(self.points_min, self.points_max, &self.options)
    }

    /// Reads a state that `save_state` wrote: the bytes must hold exactly a
    /// range with `points_min < points_max` and at least two options.
    pub fn from_bytes(bytes: &[u8]) -> (r: Result<ScoredChoicePoll, DecodeError>)
        ensures
            r is Ok ==> r->Ok_0@.len() >= 2 && r->Ok_0.points_min < r->Ok_0.points_max,
            forall|min: u32, max: u32, t: Tally|
                #[trigger] scored_encoding(min, max, t) == bytes@ && bytes@.len() <= MAX_STATE_BYTES
                    && t.len() >= 2 && min < max ==> r is Ok && r->Ok_0@ == t && r->Ok_0.points_min
                    == min && r->Ok_0.points_max == max,
    {
        match decode_scored(bytes) {
            None => Err(DecodeError::Malformed),
            Some(((points_min, points_max, options), read)) => {
                if read != bytes.len() {
                    Err(DecodeError::TrailingBytes)
                } else if options.len() < 2 {
                    Err(DecodeError::TooFewOptions)
                } else if points_min >= points_max {
                    Err(DecodeError::InvalidRange)
                } else {
                    Ok(ScoredChoicePoll { points_min, points_max, options })
                }
            },
        }
    }

    /// The options in results order, the points given in all, and the most
    /// points one option could have from `voters` voters.
    pub fn results(&self, voters: u64) -> (r: ScoreResults)
        ensures
            in_results_order(self@, tally_of(r.options_sorted@)),
            r.points_total == score_total(scores(self@)),
            r.points_max == voters as nat * self.points_max as nat,
    {
        let mut total: u128 = 0;
        let mut i: usize = 0;
        proof {
            assert(scores(self@).subrange(0, 0) =~= Seq::<u64>::empty());
        }
        while i < self.options.len()
            invariant
                i <= self.options.len(),
                total as nat == score_total(scores(self@).subrange(0, i as int)),
                total <= i as nat * 0xffff_ffff_ffff_ffffnat,
            decreases self.options.len() - i,
        {
            let s = self.options[i].1;
            proof {
                let sc = scores(self@);
                assert(sc.subrange(0, i + 1).drop_last() =~= sc.subrange(0, i as int));
                assert(sc[i as int] == s);
                assert(total + s <= (i + 1) as nat * 0xffff_ffff_ffff_ffffnat) by (nonlinear_arith)
                    requires
                        total <= i as nat * 0xffff_ffff_ffff_ffffnat,
                        s <= 0xffff_ffff_ffff_ffffnat,
                ;
                assert((i + 1) as nat * 0xffff_ffff_ffff_ffffnat < 0x1_0000_0000_0000_0000_0000_0000_0000_0000nat) by (nonlinear_arith)
                    requires
                        i < 0xffff_ffff_ffff_ffffnat,
                ;
            }
            total = total + s as u128;
            i = i + 1;
        }
        proof {
            assert(scores(self@).subrange(0, self.options.len() as int) =~= scores(self@));
        }
        proof {
            let v = voters as nat;
            let m = self.points_max as nat;
            assert(v * m <= 0xffff_ffff_ffff_ffffnat * 0xffff_ffffnat) by (nonlinear_arith)
                requires
                    v <= 0xffff_ffff_ffff_ffffnat,
                    m <= 0xffff_ffffnat,
            ;
        }
        let points_max = voters as u128 * self.points_max as u128;
        ScoreResults { options_sorted: sorted_options(&self.options), points_total: total, points_max }
    }

    /// Zeroes every option's points, keeping the options, their order and the range.
    pub fn reset(&mut self)
        ensures
            final(self)@ == zeroed(old(self)@),
            final(self).points_min == old(self).points_min,
            final(self).points_max == old(self).points_max,
    {
        zero_scores(&mut self.options);
    }
}

} // verus!
