//! Single-choice and multiple-choice polls: each chosen option gains one point.
use vstd::prelude::*;
use vstd::string::*;
use crate::ballot::VoteError;
use crate::codec::{encode_options, options_encoding, options_from_bytes, DecodeError, MAX_STATE_BYTES};
use crate::results::{in_results_order, sorted_options};
use crate::options::{
    add_points, fresh_options, fresh_tally, points_fit, tally_of, u64_max, with_points, zero_scores,
    zeroed, CreationError, Tally,
};
use crate::text::{
    decimal_value, find_char, first_index, parse_decimal, split_on, split_str, starts_with,
    strings_view,
};

verus! {

/// The options named by creation input `{option1},{option2},...`: at least two.
pub open spec fn labels_spec(data: Seq<char>) -> Result<Tally, CreationError> {
    let pieces = split_on(data, ',');
    if pieces.len() < 2 {
        Err(CreationError::TooFewOptions)
    } else {
        Ok(fresh_tally(pieces))
    }
}

/// Reads creation input `{option1},{option2},...` into fresh options.
pub fn options_from_data(data: &str) -> (r: Result<Vec<(String, u64)>, CreationError>)
    ensures
        match r {
            Ok(v) => labels_spec(data@) == Ok::<Tally, CreationError>(tally_of(v@)),
            Err(e) => labels_spec(data@) == Err::<Tally, CreationError>(e),
        },
{
    let pieces = split_str(data, ',');
    if pieces.len() < 2 {
        return Err(CreationError::TooFewOptions);
    }
    let options = fresh_options(&pieces, pieces.len());
    proof {
        assert(strings_view(pieces@).subrange(0, pieces.len() as int) =~= strings_view(pieces@));
    }
    Ok(options)
}

/// What a ballot does to a tally when it adds `pts`: all of it, or nothing
/// where a score would overflow.
pub open spec fn applied(before: Tally, pts: Seq<nat>, r: Result<(), VoteError>, after: Tally) -> bool {
    if points_fit(before, pts) {
        r is Ok && after == with_points(before, pts)
    } else {
        r == Err::<(), VoteError>(VoteError::ScoreOverflow) && after == before
    }
}

/// One point for option `i` among `n`.
pub open spec fn one_hot(n: nat, i: int) -> Seq<nat> {
    Seq::new(n, |k: int| if k == i { 1nat } else { 0nat })
}

/// The option that a single-choice ballot `response={i}` names, among `n`.
pub open spec fn single_choice_spec(q: Seq<char>, n: nat) -> Result<int, VoteError> {
    let p = "response="@;
    if !(q.len() >= p.len() && q.subrange(0, p.len() as int) == p) {
        Err(VoteError::MissingResponse)
    } else {
        match decimal_value(q.subrange(p.len() as int, q.len() as int), u64_max()) {
            None => Err(VoteError::NotANumber),
            Some(i) => if i >= n {
                Err(VoteError::OptionOutOfRange)
            } else {
                Ok(i as int)
            },
        }
    }
}

/// Fewer than two options in creation input is refused.
pub proof fn lemma_too_few_options(data: Seq<char>)
    requires
        split_on(data, ',').len() < 2,
    ensures
        labels_spec(data) == Err::<Tally, CreationError>(CreationError::TooFewOptions),
{
}

/// A vote for option `i` that is counted raises that option's score by one
/// and changes no other option.
pub proof fn lemma_vote_adds_one(before: Tally, i: int, after: Tally)
    requires
        0 <= i < before.len(),
        after == with_points(before, one_hot(before.len(), i)),
    ensures
        after.len() == before.len(),
        after[i] == (before[i].0, (before[i].1 + 1) as u64),
        forall|j: int| 0 <= j < before.len() && j != i ==> #[trigger] after[j] == before[j],
{
}

fn unit_points(n: usize, i: usize) -> (r: Vec<u64>)
    ensures
        r@.len() == n,
        r@.map_values(|p: u64| p as nat) == one_hot(n as nat, i as int),
{
    let mut r: Vec<u64> = Vec::new();
    let mut k: usize = 0;
    while k < n
        invariant
            k <= n,
            r@.len() == k,
            forall|j: int| 0 <= j < k ==> #[trigger] r@[j] == (if j == i { 1u64 } else { 0u64 }),
        decreases n - k,
    {
        r.push(if k == i { 1 } else { 0 });
        k = k + 1;
    }
    proof {
        assert(r@.map_values(|p: u64| p as nat) =~= one_hot(n as nat, i as int));
    }
    r
}

/// A poll in which each voter picks one option.
pub struct SingleChoicePoll {
    /// `(label, votes)` per option, in creation order.
    pub options: Vec<(String, u64)>,
}

impl View for SingleChoicePoll {
    type V = Tally;

    open spec fn view(&self) -> Tally {
        tally_of(self.options@)
    }
}

impl SingleChoicePoll {
    /// Creates the poll from `{option1},{option2},...,{optionN}`.
    pub fn from_data(data: &str) -> (r: Result<SingleChoicePoll, CreationError>)
        ensures
            match r {
                Ok(p) => labels_spec(data@) == Ok::<Tally, CreationError>(p@),
                Err(e) => labels_spec(data@) == Err::<Tally, CreationError>(e),
            },
    {
        let options = options_from_data(data)?;
        Ok(SingleChoicePoll { options })
    }

    /// Registers the ballot `response={n}`: option `n` gains one vote.
    pub fn register_votes(&mut self, query: &str) -> (r: Result<(), VoteError>)
        ensures
            match single_choice_spec(query@, old(self)@.len()) {
                Err(e) => r == Err::<(), VoteError>(e) && final(self)@ == old(self)@,
                Ok(i) => applied(old(self)@, one_hot(old(self)@.len(), i), r, final(self)@),
            },
    {
        proof {
            reveal_strlit("response=");
        }
        if !starts_with(query, "response=") {
            return Err(VoteError::MissingResponse);
        }
        let len = query.unicode_len();
        let choice = match parse_decimal(query.substring_char(9, len), 0xffff_ffff_ffff_ffff) {
            Some(v) => v,
            None => {
                return Err(VoteError::NotANumber);
            },
        };
        if choice >= self.options.len() as u64 {
            return Err(VoteError::OptionOutOfRange);
        }
        let pts = unit_points(self.options.len(), choice as usize);
        add_points(&mut self.options, &pts)
    }

    /// The state as bytes for storage.
    pub fn save_state(&self) -> (r: Vec<u8>)
        ensures
            r@ == options_encoding(self@),
    {
        encode_options(&self.options)
    }

    /// Reads a state that `save_state` wrote: the bytes must hold exactly an
    /// option list of at least two options.
    pub fn from_bytes(bytes: &[u8]) -> (r: Result<SingleChoicePoll, DecodeError>)
        ensures
            r is Ok ==> r->Ok_0@.len() >= 2,
            forall|t: Tally|
                #[trigger] options_encoding(t) == bytes@ && bytes@.len() <= MAX_STATE_BYTES && t.len()
                    >= 2 ==> r is Ok && r->Ok_0@ == t,
    {
        let options = options_from_bytes(bytes)?;
        Ok(SingleChoicePoll { options })
    }

    /// The options in results order: most votes first, ties in creation order.
    pub fn results(&self) -> (r: Vec<(String, u64)>)
        ensures
            in_results_order(self@, tally_of(r@)),
    {
        sorted_options(&self.options)
    }

    /// Zeroes every vote count, keeping the options and their order.
    pub fn reset(&mut self)
        ensures
            final(self)@ == zeroed(old(self)@),
    {
        zero_scores(&mut self.options);
    }
}

/// How often `j` occurs in `c`.
pub open spec fn occurrences(c: Seq<int>, j: int) -> nat
    decreases c.len(),
{
    if c.len() == 0 {
        0
    } else {
        occurrences(c.drop_last(), j) + if c.last() == j {
            1nat
        } else {
            0nat
        }
    }
}

/// The point each of `n` options gains from the choices `c`.
pub open spec fn choice_counts(c: Seq<int>, n: nat) -> Seq<nat> {
    Seq::new(n, |j: int| occurrences(c, j))
}

/// The key of a query element: what stands before its first `=`, or all of it.
pub open spec fn element_key(piece: Seq<char>) -> Seq<char> {
    match first_index(piece, '=') {
        Some(e) => piece.subrange(0, e),
        None => piece,
    }
}

/// The value of a query element: what stands after its first `=`, or nothing.
pub open spec fn element_value(piece: Seq<char>) -> Seq<char> {
    match first_index(piece, '=') {
        Some(e) => piece.subrange(e + 1, piece.len() as int),
        None => Seq::empty(),
    }
}

/// The option that one element names: `response={i}` names `i`; an element
/// with another key names none.
pub open spec fn choice_spec(piece: Seq<char>, n: nat) -> Result<Option<int>, VoteError> {
    if element_key(piece) != "response"@ {
        Ok(None)
    } else {
        match decimal_value(element_value(piece), u64_max()) {
            None => Err(VoteError::NotANumber),
            Some(i) => if i >= n {
                Err(VoteError::OptionOutOfRange)
            } else {
                Ok(Some(i as int))
            },
        }
    }
}

/// The options that the elements name, in order; the first bad element decides the error.
pub open spec fn choices_spec(pieces: Seq<Seq<char>>, n: nat) -> Result<Seq<int>, VoteError>
    decreases pieces.len(),
{
    if pieces.len() == 0 {
        Ok(Seq::empty())
    } else {
        match choices_spec(pieces.drop_last(), n) {
            Err(e) => Err(e),
            Ok(init) => match choice_spec(pieces.last(), n) {
                Err(e) => Err(e),
                Ok(None) => Ok(init),
                Ok(Some(i)) => Ok(init.push(i)),
            },
        }
    }
}

/// The options that a multiple-choice ballot `response={i}&response={j}&...`
/// names among `n`: at least one.
pub open spec fn multiple_choice_spec(q: Seq<char>, n: nat) -> Result<Seq<int>, VoteError> {
    match choices_spec(split_on(q, '&'), n) {
        Err(e) => Err(e),
        Ok(c) => if c.len() == 0 {
            Err(VoteError::NoChoice)
        } else {
            Ok(c)
        },
    }
}

proof fn lemma_choices_err_stays(ps: Seq<Seq<char>>, n: nat, k: int, m: int)
    requires
        0 <= k <= m <= ps.len(),
    ensures
        choices_spec(ps.subrange(0, k), n) is Err ==> choices_spec(ps.subrange(0, m), n)
            == choices_spec(ps.subrange(0, k), n),
    decreases m - k,
{
    if k < m {
        lemma_choices_err_stays(ps, n, k, m - 1);
        assert(ps.subrange(0, m).drop_last() =~= ps.subrange(0, m - 1));
    }
}

/// Reads the element `piece` of a multiple-choice ballot.
fn read_choice(piece: &str, n: usize) -> (r: Result<Option<usize>, VoteError>)
    ensures
        match r {
            Ok(Some(i)) => choice_spec(piece@, n as nat) == Ok::<Option<int>, VoteError>(
                Some(i as int),
            ),
            Ok(None) => choice_spec(piece@, n as nat) == Ok::<Option<int>, VoteError>(None),
            Err(e) => choice_spec(piece@, n as nat) == Err::<Option<int>, VoteError>(e),
        },
{
    let len = piece.unicode_len();
    let (key, value) = match find_char(piece, '=') {
        Some(e) => (piece.substring_char(0, e), piece.substring_char(e + 1, len)),
        None => (piece, piece.substring_char(len, len)),
    };
    proof {
        assert(piece@.subrange(len as int, len as int) =~= Seq::<char>::empty());
        assert(key@ == element_key(piece@));
        assert(value@ == element_value(piece@));
    }
    if !(starts_with(key, "response") && key.unicode_len() == 8) {
        proof {
            reveal_strlit("response");
            if key@ == "response"@ {
                assert(key@.subrange(0, 8) =~= key@);
            }
        }
        return Ok(None);
    }
    proof {
        reveal_strlit("response");
        assert(key@ =~= key@.subrange(0, 8));
    }
    match parse_decimal(value, 0xffff_ffff_ffff_ffff) {
        None => Err(VoteError::NotANumber),
        Some(i) => if i >= n as u64 {
            Err(VoteError::OptionOutOfRange)
        } else {
            Ok(Some(i as usize))
        },
    }
}

/// Reads a multiple-choice ballot for `n` options into one point per option
/// per time it is named.
pub fn multiple_choice_points(query: &str, n: usize) -> (r: Result<Vec<u64>, VoteError>)
    ensures
        match multiple_choice_spec(query@, n as nat) {
            Err(e) => r == Err::<Vec<u64>, VoteError>(e),
            Ok(c) => r is Ok && r->Ok_0@.map_values(|p: u64| p as nat) == choice_counts(c, n as nat),
        },
        r is Ok ==> r->Ok_0@.len() == n,
{
    let pieces = split_str(query, '&');
    let ghost ps = strings_view(pieces@);
    let mut counts: Vec<u64> = Vec::new();
    let mut k: usize = 0;
    while k < n
        invariant
            k <= n,
            counts@.len() == k,
            forall|j: int| 0 <= j < k ==> #[trigger] counts@[j] == 0,
        decreases n - k,
    {
        counts.push(0);
        k = k + 1;
    }
    let ghost mut chosen: Seq<int> = Seq::empty();
    let mut i: usize = 0;
    proof {
        assert(ps.subrange(0, 0) =~= Seq::<Seq<char>>::empty());
    }
    while i < pieces.len()
        invariant
            ps == strings_view(pieces@),
            ps == split_on(query@, '&'),
            i <= ps.len(),
            counts@.len() == n,
            choices_spec(ps.subrange(0, i as int), n as nat) == Ok::<Seq<int>, VoteError>(chosen),
            chosen.len() <= i,
            forall|k: int| 0 <= k < chosen.len() ==> 0 <= #[trigger] chosen[k] < n,
            forall|j: int| 0 <= j < n ==> #[trigger] counts@[j] as nat == occurrences(chosen, j),
            forall|j: int| 0 <= j < n ==> #[trigger] counts@[j] <= i,
        decreases pieces.len() - i,
    {
        let piece: &str = pieces[i].as_str();
        let ghost pre = ps.subrange(0, i as int);
        let ghost next = ps.subrange(0, i + 1);
        proof {
            assert(next.drop_last() =~= pre);
            assert(next.last() == piece@);
        }
        match read_choice(piece, n) {
            Err(e) => {
                proof {
                    lemma_choices_err_stays(ps, n as nat, i + 1, ps.len() as int);
                    assert(ps.subrange(0, ps.len() as int) =~= ps);
                }
                return Err(e);
            },
            Ok(None) => {},
            Ok(Some(j)) => {
                let ghost old_chosen = chosen;
                let c = counts[j] + 1;
                counts.set(j, c);
                proof {
                    chosen = chosen.push(j as int);
                    assert(chosen.drop_last() =~= old_chosen);
                    assert forall|x: int| 0 <= x < n implies #[trigger] counts@[x] as nat
                        == occurrences(chosen, x) by {
                        assert(occurrences(chosen, x) == occurrences(old_chosen, x) + if x == j {
                            1nat
                        } else {
                            0nat
                        });
                    }
                }
            },
        }
        i = i + 1;
    }
    proof {
        assert(ps.subrange(0, ps.len() as int) =~= ps);
    }
    let mut any = false;
    let mut x: usize = 0;
    while x < n
        invariant
            x <= n,
            counts@.len() == n,
            any == exists|j: int| 0 <= j < x && #[trigger] counts@[j] > 0,
        decreases n - x,
    {
        if counts[x] > 0 {
            any = true;
        }
        x = x + 1;
    }
    if !any {
        proof {
            if chosen.len() > 0 {
                lemma_occurs_last(chosen);
                assert(counts@[chosen.last()] > 0);
            }
        }
        return Err(VoteError::NoChoice);
    }
    proof {
        if chosen.len() == 0 {
            let j = choose|j: int| 0 <= j < n && #[trigger] counts@[j] > 0;
            assert(occurrences(chosen, j) == 0);
        }
        assert(counts@.map_values(|p: u64| p as nat) =~= choice_counts(chosen, n as nat));
    }
    Ok(counts)
}

proof fn lemma_occurs_last(c: Seq<int>)
    requires
        c.len() > 0,
    ensures
        occurrences(c, c.last()) > 0,
{
}

/// A multiple-choice ballot that names one option gives that option one
/// point and no other option any, as a single-choice vote does.
pub proof fn lemma_one_choice_counts(n: nat, i: int)
    requires
        0 <= i < n,
    ensures
        choice_counts(seq![i], n) == one_hot(n, i),
{
    assert forall|j: int| 0 <= j < n implies #[trigger] choice_counts(seq![i], n)[j] == one_hot(n, i)[j] by {
        let c = seq![i];
        assert(c.drop_last() =~= Seq::<int>::empty());
        assert(occurrences(c.drop_last(), j) == 0);
        assert(c.last() == i);
        assert(occurrences(c, j) == occurrences(c.drop_last(), j) + if c.last() == j {
            1nat
        } else {
            0nat
        });
    }
    assert(choice_counts(seq![i], n) =~= one_hot(n, i));
}

/// A poll in which each voter picks any number of options.
pub struct MultipleChoicePoll {
    /// `(label, votes)` per option, in creation order.
    pub options: Vec<(String, u64)>,
}

impl View for MultipleChoicePoll {
    type V = Tally;

    open spec fn view(&self) -> Tally {
        tally_of(self.options@)
    }
}

impl MultipleChoicePoll {
    /// Creates the poll from `{option1},{option2},...,{optionN}`.
    pub fn from_data(data: &str) -> (r: Result<MultipleChoicePoll, CreationError>)
        ensures
            match r {
                Ok(p) => labels_spec(data@) == Ok::<Tally, CreationError>(p@),
                Err(e) => labels_spec(data@) == Err::<Tally, CreationError>(e),
            },
    {
        let options = options_from_data(data)?;
        Ok(MultipleChoicePoll { options })
    }

    /// Registers the ballot `response={i}&response={j}&...`: each named option
    /// gains one vote per time it is named.
    pub fn register_votes(&mut self, query: &str) -> (r: Result<(), VoteError>)
        ensures
            match multiple_choice_spec(query@, old(self)@.len()) {
                Err(e) => r == Err::<(), VoteError>(e) && final(self)@ == old(self)@,
                Ok(c) => applied(old(self)@, choice_counts(c, old(self)@.len()), r, final(self)@),
            },
    {
        let pts = multiple_choice_points(query, self.options.len())?;
        add_points(&mut self.options, &pts)
    }

    /// The state as bytes for storage.
    pub fn save_state(&self) -> (r: Vec<u8>)
        ensures
            r@ == options_encoding(self@),
    {
        encode_options(&self.options)
    }

    /// Reads a state that `save_state` wrote: the bytes must hold exactly an
    /// option list of at least two options.
    pub fn from_bytes(bytes: &[u8]) -> (r: Result<MultipleChoicePoll, DecodeError>)
        ensures
            r is Ok ==> r->Ok_0@.len() >= 2,
            forall|t: Tally|
                #[trigger] options_encoding(t) == bytes@ && bytes@.len() <= MAX_STATE_BYTES && t.len()
                    >= 2 ==> r is Ok && r->Ok_0@ == t,
    {
        let options = options_from_bytes(bytes)?;
        Ok(MultipleChoicePoll { options })
    }

    /// The options in results order: most votes first, ties in creation order.
    pub fn results(&self) -> (r: Vec<(String, u64)>)
        ensures
            in_results_order(self@, tally_of(r@)),
    {
        sorted_options(&self.options)
    }

    /// Zeroes every vote count, keeping the options and their order.
    pub fn reset(&mut self)
        ensures
            final(self)@ == zeroed(old(self)@),
    {
        zero_scores(&mut self.options);
    }
}

} // verus!
