//! Ballot text: the `{index}={value}&...` list that score and ranked polls
//! receive, and the checks that every position of it must pass.
use vstd::prelude::*;
use vstd::string::*;
use crate::text::{decimal_value, find_char, first_index, parse_decimal, split_on, split_str, strings_view};

verus! {

/// Why a ballot was refused. A refused ballot never changes a tally.
#[derive(Debug, Clone, Copy, PartialEq, Eq, Structural)]
pub enum VoteError {
    /// A single-choice ballot does not start with `response=`.
    MissingResponse,
    /// A multiple-choice ballot names no option.
    NoChoice,
    /// An index or a value is not an unsigned decimal number in range of its type.
    NotANumber,
    /// A chosen option index is not below the number of options.
    OptionOutOfRange,
    /// The list does not hold exactly one element per option.
    WrongCount,
    /// An element of the list has no `=`.
    MissingEquals,
    /// The element at a position names another option than that position.
    UnexpectedIndex,
    /// A score lies outside the poll's assignable range.
    PointsOutOfRange,
    /// A rank is not below the number of options.
    RankOutOfRange,
    /// Adding the ballot would exceed the largest representable score.
    ScoreOverflow,
}

pub open spec fn u32_max() -> nat {
    0xffff_ffffnat
}

/// One `{index}={value}` element.
pub open spec fn pair_spec(piece: Seq<char>) -> Result<(u32, u32), VoteError> {
    match first_index(piece, '=') {
        None => Err(VoteError::MissingEquals),
        Some(eq) => match decimal_value(piece.subrange(0, eq), u32_max()) {
            None => Err(VoteError::NotANumber),
            Some(idx) => match decimal_value(piece.subrange(eq + 1, piece.len() as int), u32_max()) {
                None => Err(VoteError::NotANumber),
                Some(v) => Ok((idx as u32, v as u32)),
            },
        },
    }
}

/// The elements in order; the first one that is malformed decides the error.
pub open spec fn pairs_spec(pieces: Seq<Seq<char>>) -> Result<Seq<(u32, u32)>, VoteError>
    decreases pieces.len(),
{
    if pieces.len() == 0 {
        Ok(Seq::empty())
    } else {
        match pairs_spec(pieces.drop_last()) {
            Err(e) => Err(e),
            Ok(init) => match pair_spec(pieces.last()) {
                Err(e) => Err(e),
                Ok(p) => Ok(init.push(p)),
            },
        }
    }
}

/// The `(index, value)` pairs of a ballot for a poll of `n` options.
pub open spec fn poll_opts_spec(q: Seq<char>, n: nat) -> Result<Seq<(u32, u32)>, VoteError> {
    let pieces = split_on(q, '&');
    if pieces.len() != n {
        Err(VoteError::WrongCount)
    } else {
        pairs_spec(pieces)
    }
}

/// Parses `{0}={v}&{1}={v}&...`, which must hold exactly `num_opts` elements,
/// into `(index, value)` pairs.
pub fn parse_poll_opts(query: &str, num_opts: usize) -> (r: Result<Vec<(u32, u32)>, VoteError>)
    ensures
        match r {
            Ok(v) => poll_opts_spec(query@, num_opts as nat) == Ok::<Seq<(u32, u32)>, VoteError>(
                v@,
            ),
            Err(e) => poll_opts_spec(query@, num_opts as nat) == Err::<Seq<(u32, u32)>, VoteError>(
                e,
            ),
        },
        r is Ok ==> r->Ok_0@.len() == num_opts,
{
    let pieces = split_str(query, '&');
    if pieces.len() != num_opts {
        return Err(VoteError::WrongCount);
    }
    let ghost ps = strings_view(pieces@);
    let mut opts: Vec<(u32, u32)> = Vec::new();
    let mut i: usize = 0;
    proof {
        assert(ps.subrange(0, 0) =~= Seq::<Seq<char>>::empty());
    }
    while i < pieces.len()
        invariant
            ps == strings_view(pieces@),
            ps == split_on(query@, '&'),
            ps.len() == num_opts,
            i <= ps.len(),
            opts@.len() == i,
            pairs_spec(ps.subrange(0, i as int)) == Ok::<Seq<(u32, u32)>, VoteError>(opts@),
        decreases pieces.len() - i,
    {
        let piece: &str = pieces[i].as_str();
        let ghost pre = ps.subrange(0, i as int);
        let ghost next = ps.subrange(0, i + 1);
        proof {
            assert(next.drop_last() =~= pre);
            assert(next.last() == piece@);
        }
        let eq = match find_char(piece, '=') {
            Some(eq) => eq,
            None => {
                proof {
                    lemma_pairs_spec_err_stays(ps, i as int + 1);
                }
                return Err(VoteError::MissingEquals);
            },
        };
        let len = piece.unicode_len();
        let idx = match parse_decimal(piece.substring_char(0, eq), 0xffff_ffff) {
            Some(v) => v as u32,
            None => {
                proof {
                    lemma_pairs_spec_err_stays(ps, i as int + 1);
                }
                return Err(VoteError::NotANumber);
            },
        };
        let value = match parse_decimal(piece.substring_char(eq + 1, len), 0xffff_ffff) {
            Some(v) => v as u32,
            None => {
                proof {
                    lemma_pairs_spec_err_stays(ps, i as int + 1);
                }
                return Err(VoteError::NotANumber);
            },
        };
        opts.push((idx, value));
        proof {
            assert(pair_spec(piece@) == Ok::<(u32, u32), VoteError>((idx, value)));
        }
        i = i + 1;
    }
    proof {
        assert(ps.subrange(0, ps.len() as int) =~= ps);
    }
    Ok(opts)
}

/// Once a prefix of the elements is malformed, every longer prefix fails the same way.
proof fn lemma_pairs_spec_err_prefix(ps: Seq<Seq<char>>, k: int, m: int)
    requires
        0 <= k <= m <= ps.len(),
    ensures
        pairs_spec(ps.subrange(0, k)) is Err ==> pairs_spec(ps.subrange(0, m)) == pairs_spec(
            ps.subrange(0, k),
        ),
    decreases m - k,
{
    if k < m {
        lemma_pairs_spec_err_prefix(ps, k, m - 1);
        assert(ps.subrange(0, m).drop_last() =~= ps.subrange(0, m - 1));
    }
}

/// Once a prefix of the elements is malformed, the whole list fails the same way.
proof fn lemma_pairs_spec_err_stays(ps: Seq<Seq<char>>, k: int)
    requires
        0 <= k <= ps.len(),
    ensures
        pairs_spec(ps.subrange(0, k)) is Err ==> pairs_spec(ps) == pairs_spec(ps.subrange(0, k)),
{
    lemma_pairs_spec_err_prefix(ps, k, ps.len() as int);
    assert(ps.subrange(0, ps.len() as int) =~= ps);
}

/// The first position, among the first `k`, whose pair names another index.
pub open spec fn index_order_error(pairs: Seq<(u32, u32)>, k: int) -> Option<VoteError>
    decreases k,
{
    if k <= 0 {
        None
    } else {
        match index_order_error(pairs, k - 1) {
            Some(e) => Some(e),
            None => if pairs[k - 1].0 as int != k - 1 {
                Some(VoteError::UnexpectedIndex)
            } else {
                None
            },
        }
    }
}

/// The values of an ordered ballot for `n` options: element `i` must name index `i`.
pub open spec fn ordered_values_spec(q: Seq<char>, n: nat) -> Result<Seq<u32>, VoteError> {
    match poll_opts_spec(q, n) {
        Err(e) => Err(e),
        Ok(pairs) => match index_order_error(pairs, pairs.len() as int) {
            Some(e) => Err(e),
            None => Ok(pairs.map_values(|p: (u32, u32)| p.1)),
        },
    }
}

/// Reads an ordered ballot for `num_opts` options: the value given to each option,
/// in option order.
pub fn parse_ordered_values(query: &str, num_opts: usize) -> (r: Result<Vec<u32>, VoteError>)
    ensures
        match r {
            Ok(v) => ordered_values_spec(query@, num_opts as nat) == Ok::<Seq<u32>, VoteError>(v@),
            Err(e) => ordered_values_spec(query@, num_opts as nat) == Err::<Seq<u32>, VoteError>(e),
        },
        r is Ok ==> r->Ok_0@.len() == num_opts,
{
    let pairs = parse_poll_opts(query, num_opts)?;
    let mut ranks: Vec<u32> = Vec::new();
    let mut i: usize = 0;
    while i < pairs.len()
        invariant
            i <= pairs.len(),
            pairs@.len() == num_opts,
            ranks@.len() == i,
            poll_opts_spec(query@, num_opts as nat) == Ok::<Seq<(u32, u32)>, VoteError>(pairs@),
            index_order_error(pairs@, i as int) is None,
            ranks@ == pairs@.subrange(0, i as int).map_values(|p: (u32, u32)| p.1),
        decreases pairs.len() - i,
    {
        let (idx, rank) = pairs[i];
        if idx as usize != i {
            proof {
                assert(pairs@[i as int].0 == idx);
                assert(index_order_error(pairs@, i + 1) == Some(VoteError::UnexpectedIndex));
                lemma_index_order_error_stays(pairs@, i as int + 1, pairs.len() as int);
            }
            return Err(VoteError::UnexpectedIndex);
        }
        ranks.push(rank);
        proof {
            assert(ranks@ =~= pairs@.subrange(0, i + 1).map_values(|p: (u32, u32)| p.1));
        }
        i = i + 1;
    }
    proof {
        assert(pairs@.subrange(0, pairs.len() as int) =~= pairs@);
    }
    Ok(ranks)
}

/// Once a prefix holds an index error, every longer prefix holds the same one.
proof fn lemma_index_order_error_stays(pairs: Seq<(u32, u32)>, k: int, m: int)
    requires
        0 <= k <= m,
    ensures
        index_order_error(pairs, k) is Some ==> index_order_error(pairs, m) == index_order_error(
            pairs,
            k,
        ),
    decreases m - k,
{
    if k < m {
        lemma_index_order_error_stays(pairs, k, m - 1);
    }
}

/// A ballot in which some position names another index than its own is
/// refused with `UnexpectedIndex`, whatever the other positions hold.
pub proof fn lemma_misplaced_index_rejected(pairs: Seq<(u32, u32)>, i: int)
    requires
        0 <= i < pairs.len(),
        pairs[i].0 as int != i,
    ensures
        index_order_error(pairs, pairs.len() as int) == Some(VoteError::UnexpectedIndex),
{
    lemma_index_order_error_kind(pairs, i);
    lemma_index_order_error_stays(pairs, i + 1, pairs.len() as int);
}

proof fn lemma_index_order_error_kind(pairs: Seq<(u32, u32)>, k: int)
    requires
        0 <= k,
    ensures
        index_order_error(pairs, k) is None || index_order_error(pairs, k) == Some(
            VoteError::UnexpectedIndex,
        ),
    decreases k,
{
    if k > 0 {
        lemma_index_order_error_kind(pairs, k - 1);
    }
}

} // verus!
