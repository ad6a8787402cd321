//! The ordered option list that every voting method keeps: a label and an
//! accumulated score per option, in the order fixed at creation.
use vstd::prelude::*;
use crate::ballot::VoteError;
use crate::text::strings_view;

verus! {

/// Why creation input was refused; no poll is created.
#[derive(Debug, Clone, Copy, PartialEq, Eq, Structural)]
pub enum CreationError {
    /// Fewer than two options were given.
    TooFewOptions,
    /// A numeric field is not an unsigned decimal number in range of its type.
    InvalidNumber,
    /// The lowest assignable score is not below the highest.
    InvalidRange,
}

/// An option list: `(label, score)` per option.
pub type Tally = Seq<(Seq<char>, u64)>;

pub open spec fn u64_max() -> nat {
    0xffff_ffff_ffff_ffffnat
}

/// The option list that a vector of `(label, score)` holds.
pub open spec fn tally_of(v: Seq<(String, u64)>) -> Tally {
    v.map_values(|o: (String, u64)| (o.0@, o.1))
}

/// Options with the given labels, every score zero.
pub open spec fn fresh_tally(labels: Seq<Seq<char>>) -> Tally {
    labels.map_values(|l: Seq<char>| (l, 0u64))
}

/// The same options with every score zero.
pub open spec fn zeroed(t: Tally) -> Tally {
    t.map_values(|o: (Seq<char>, u64)| (o.0, 0u64))
}

pub open spec fn scores(t: Tally) -> Seq<u64> {
    t.map_values(|o: (Seq<char>, u64)| o.1)
}

pub open spec fn tally_labels(t: Tally) -> Seq<Seq<char>> {
    t.map_values(|o: (Seq<char>, u64)| o.0)
}

/// Whether adding `pts[i]` to the score of every option `i` stays representable.
pub open spec fn points_fit(t: Tally, pts: Seq<nat>) -> bool {
    forall|i: int| 0 <= i < t.len() ==> #[trigger] t[i].1 + pts[i] <= u64_max()
}

/// The options after `pts[i]` points were added to option `i`.
pub open spec fn with_points(t: Tally, pts: Seq<nat>) -> Tally {
    t.map(|i: int, o: (Seq<char>, u64)| (o.0, (o.1 + pts[i]) as u64))
}

/// Zeroing keeps the number of options, their labels and their order, and
/// leaves every score at zero.
pub proof fn lemma_zeroed_keeps_options(t: Tally)
    ensures
        zeroed(t).len() == t.len(),
        tally_labels(zeroed(t)) == tally_labels(t),
        forall|i: int| 0 <= i < t.len() ==> (#[trigger] zeroed(t)[i]).1 == 0,
{
    assert(tally_labels(zeroed(t)) =~= tally_labels(t));
}

/// Options labelled by the first `count` of `labels`, every score zero.
pub fn fresh_options(labels: &Vec<String>, count: usize) -> (r: Vec<(String, u64)>)
    requires
        count <= labels.len(),
    ensures
        tally_of(r@) == fresh_tally(strings_view(labels@).subrange(0, count as int)),
{
    let mut r: Vec<(String, u64)> = Vec::new();
    let mut i: usize = 0;
    while i < count
        invariant
            count <= labels.len(),
            i <= count,
            tally_of(r@) == fresh_tally(strings_view(labels@).subrange(0, i as int)),
        decreases count - i,
    {
        let label = labels[i].clone();
        let ghost before = r@;
        r.push((label, 0));
        proof {
            assert(tally_of(before).len() == before.len());
            assert(fresh_tally(strings_view(labels@).subrange(0, i as int)).len() == i);
            assert(r@ == before.push((label, 0u64)));
            assert(label@ == strings_view(labels@)[i as int]);
            assert(tally_of(r@)[i as int] == (label@, 0u64));
            assert forall|k: int| 0 <= k < i implies #[trigger] tally_of(r@)[k] == tally_of(before)[k] by {}
            assert(tally_of(r@) =~= fresh_tally(strings_view(labels@).subrange(0, i + 1)));
        }
        i = i + 1;
    }
    r
}

/// Sets every score to zero, keeping labels and order.
pub fn zero_scores(options: &mut Vec<(String, u64)>)
    ensures
        tally_of(final(options)@) == zeroed(tally_of(old(options)@)),
{
    let ghost start = tally_of(options@);
    let mut i: usize = 0;
    while i < options.len()
        invariant
            i <= options.len(),
            options.len() == start.len(),
            forall|k: int| 0 <= k < i ==> #[trigger] tally_of(options@)[k] == (start[k].0, 0u64),
            forall|k: int| i <= k < options.len() ==> #[trigger] tally_of(options@)[k] == start[k],
        decreases options.len() - i,
    {
        let ghost before = options@;
        options[i].1 = 0;
        proof {
            assert(options@ == before.update(i as int, (before[i as int].0, 0u64)));
            assert(tally_of(before)[i as int] == start[i as int]);
            assert(tally_of(options@)[i as int] == (start[i as int].0, 0u64));
            assert forall|k: int| 0 <= k < options.len() && k != i implies #[trigger] tally_of(options@)[k] == tally_of(before)[k] by {}
        }
        i = i + 1;
    }
    proof {
        assert(tally_of(options@) =~= zeroed(start));
    }
}

/// Adds `pts[i]` to the score of every option `i`, all or nothing: where one
/// sum would not be representable, nothing changes.
pub fn add_points(options: &mut Vec<(String, u64)>, pts: &Vec<u64>) -> (r: Result<(), VoteError>)
    requires
        pts.len() == old(options).len(),
    ensures
        points_fit(tally_of(old(options)@), pts@.map_values(|p: u64| p as nat)) ==> r is Ok
            && tally_of(final(options)@) == with_points(
            tally_of(old(options)@),
            pts@.map_values(|p: u64| p as nat),
        ),
        !points_fit(tally_of(old(options)@), pts@.map_values(|p: u64| p as nat)) ==> r
            == Err::<(), VoteError>(VoteError::ScoreOverflow) && *final(options) == *old(options),
{
    let ghost start = tally_of(options@);
    let ghost p = pts@.map_values(|q: u64| q as nat);
    let n = options.len();
    let mut i: usize = 0;
    while i < n
        invariant
            n == options.len(),
            pts.len() == n,
            start == tally_of(options@),
            p == pts@.map_values(|q: u64| q as nat),
            i <= n,
            forall|k: int| 0 <= k < i ==> #[trigger] start[k].1 + p[k] <= u64_max(),
        decreases n - i,
    {
        if options[i].1 > 0xffff_ffff_ffff_ffff - pts[i] {
            proof {
                assert(start[i as int].1 + p[i as int] > u64_max());
            }
            return Err(VoteError::ScoreOverflow);
        }
        i = i + 1;
    }
    let mut j: usize = 0;
    while j < n
        invariant
            n == options.len(),
            pts.len() == n,
            start.len() == n,
            p == pts@.map_values(|q: u64| q as nat),
            points_fit(start, p),
            j <= n,
            forall|k: int| 0 <= k < j ==> #[trigger] tally_of(options@)[k] == with_points(start, p)[k],
            forall|k: int| j <= k < n ==> #[trigger] tally_of(options@)[k] == start[k],
        decreases n - j,
    {
        proof {
            assert(tally_of(options@)[j as int] == start[j as int]);
            assert(start[j as int].1 + p[j as int] <= u64_max());
        }
        let s = options[j].1 + pts[j];
        let ghost before = options@;
        options[j].1 = s;
        proof {
            assert(options@ == before.update(j as int, (before[j as int].0, s)));
            assert forall|k: int| 0 <= k < n && k != j implies #[trigger] tally_of(options@)[k] == tally_of(before)[k] by {}
        }
        j = j + 1;
    }
    proof {
        assert(tally_of(options@) =~= with_points(start, p));
    }
    Ok(())
}

} // verus!
