//! Ranked polls: every voter ranks all options, and a positional system turns
//! ranks into points.
use vstd::prelude::*;
use crate::ballot::{ordered_values_spec, parse_ordered_values, VoteError};
use crate::codec::{encode_options, options_encoding, options_from_bytes, DecodeError, MAX_STATE_BYTES};
use crate::results::{in_results_order, sorted_options};
use crate::options::{add_points, tally_of, zero_scores, zeroed, CreationError, Tally};
use crate::simple::{applied, labels_spec, options_from_data};

verus! {

/// Whether some rank is not below `n`.
pub open spec fn any_rank_beyond(ranks: Seq<u32>, n: nat) -> bool {
    exists|i: int| 0 <= i < ranks.len() && #[trigger] ranks[i] >= n
}

/// Borda points for rank `r` among `n` options: first place gets `n - 1`, last gets 0.
pub open spec fn borda_points(n: nat, r: u32) -> nat {
    (n - (r + 1)) as nat
}

/// The points that a ranked ballot gives the `n` options under the Borda count.
pub open spec fn borda_ballot_spec(q: Seq<char>, n: nat) -> Result<Seq<nat>, VoteError> {
    match ordered_values_spec(q, n) {
        Err(e) => Err(e),
        Ok(ranks) => if any_rank_beyond(ranks, n) {
            Err(VoteError::RankOutOfRange)
        } else {
            Ok(ranks.map_values(|r: u32| borda_points(n, r)))
        },
    }
}

/// A ranked poll counted with the Borda count.
pub struct BordaPoll {
    /// `(label, points)` per option, in creation order.
    pub options: Vec<(String, u64)>,
}

impl View for BordaPoll {
    type V = Tally;

    open spec fn view(&self) -> Tally {
        tally_of(self.options@)
    }
}

impl BordaPoll {
    /// Creates the poll from `{option1},{option2},...,{optionN}`.
    pub fn from_data(data: &str) -> (r: Result<BordaPoll, CreationError>)
        ensures
            match r {
                Ok(p) => labels_spec(data@) == Ok::<Tally, CreationError>(p@),
                Err(e) => labels_spec(data@) == Err::<Tally, CreationError>(e),
            },
    {
        let options = options_from_data(data)?;
        Ok(BordaPoll { options })
    }

    /// Registers the ballot `0={r}&1={r}&...&{N-1}={r}`, where `r` is the rank
    /// (0 for first place) given to each option: an option ranked `r` gains
    /// `N - (r + 1)` points. Ranks need not be distinct.
    pub fn register_votes(&mut self, query: &str) -> (r: Result<(), VoteError>)
        ensures
            match borda_ballot_spec(query@, old(self)@.len()) {
                Err(e) => r == Err::<(), VoteError>(e) && final(self)@ == old(self)@,
                Ok(pts) => applied(old(self)@, pts, r, final(self)@),
            },
    {
        let n = self.options.len();
        let ranks = parse_ordered_values(query, n)?;
        let mut pts: Vec<u64> = Vec::new();
        let mut i: usize = 0;
        while i < ranks.len()
            invariant
                i <= ranks.len(),
                ranks@.len() == n,
                n == self.options.len(),
                ordered_values_spec(query@, n as nat) == Ok::<Seq<u32>, VoteError>(ranks@),
                pts@.len() == i,
                forall|k: int| 0 <= k < i ==> (#[trigger] ranks@[k]) < n,
                forall|k: int| 0 <= k < i ==> #[trigger] pts@[k] as nat == borda_points(n as nat, ranks@[k]),
            decreases ranks.len() - i,
        {
            let rank = ranks[i];
            if rank as usize >= n {
                proof {
                    assert(ranks@[i as int] == rank);
                    assert(any_rank_beyond(ranks@, n as nat));
                    assert(self@.len() == n);
                }
                return Err(VoteError::RankOutOfRange);
            }
            pts.push((n - (rank as usize + 1)) as u64);
            i = i + 1;
        }
        proof {
            assert(pts@.map_values(|p: u64| p as nat) =~= ranks@.map_values(|r: u32| borda_points(n as nat, r)));
        }
        add_points(&mut self.options, &pts)
    }

    /// The state as bytes for storage.
    pub fn save_state(&self) -> (r: Vec<u8>)
        ensures
            r@ == options_encoding(self@),
    {
        encode_options(&self.options)
    }

    /// Reads a state that `save_state` wrote: the bytes must hold exactly an
    /// option list of at least two options.
    pub fn from_bytes(bytes: &[u8]) -> (r: Result<BordaPoll, DecodeError>)
        ensures
            r is Ok ==> r->Ok_0@.len() >= 2,
            forall|t: Tally|
                #[trigger] options_encoding(t) == bytes@ && bytes@.len() <= MAX_STATE_BYTES && t.len()
                    >= 2 ==> r is Ok && r->Ok_0@ == t,
    {
        let options = options_from_bytes(bytes)?;
        Ok(BordaPoll { options })
    }

    /// The options in results order: most votes first, ties in creation order.
    pub fn results(&self) -> (r: Vec<(String, u64)>)
        ensures
            in_results_order(self@, tally_of(r@)),
    {
        sorted_options(&self.options)
    }

    /// Zeroes every option's points, keeping the options and their order.
    pub fn reset(&mut self)
        ensures
            final(self)@ == zeroed(old(self)@),
    {
        zero_scores(&mut self.options);
    }
}

} // verus!
