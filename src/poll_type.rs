//! Poll type tags: which voting method governs a poll, and how the tag is
//! written in requests and in storage.
use vstd::prelude::*;
use vstd::string::*;
use crate::text::{same_text, starts_with};

verus! {

/// How a ranked poll turns ranks into points.
#[derive(Debug, Clone, Copy, PartialEq, Eq, Structural)]
pub enum PositionalSystem {
    /// Borda count: an option ranked `r` of `n` gets `n - (r + 1)` points.
    Borda,
    /// Dowdall (Nauru) system: an option ranked `r` gets `1 / (r + 1)` points.
    Dowdall,
}

/// Which voting method governs a poll; fixed when the poll is created.
#[derive(Debug, Clone, Copy, PartialEq, Eq, Structural)]
pub enum PollType {
    /// Each voter picks one option.
    Single,
    /// Each voter picks any number of options.
    Multiple,
    /// Each voter scores every option within a range.
    Score,
    /// Each voter ranks every option.
    Ranked(PositionalSystem),
}

/// The creation form a poll type is created with.
#[derive(Debug, Clone, Copy, PartialEq, Eq, Structural)]
pub enum CreationForm {
    /// A list of options.
    Simple,
    /// A list of options to be ranked.
    Ranked,
    /// A list of options and a score range.
    Score,
}

/// A tag that names no poll type or positional system.
#[derive(Debug, Clone, PartialEq, Eq)]
pub enum ParseError {
    /// The poll type tag is unknown.
    InvalidPollType(String),
    /// The positional system after `Ranked` is unknown.
    InvalidPositionalSystem(String),
    /// A number is not an unsigned decimal number in range of its type.
    InvalidNumber,
    /// A base64 part is malformed or too long.
    InvalidBase64,
    /// A poll id lacks its `+`.
    PlusNotFound,
}

/// The positional system that a tag names.
pub open spec fn positional_system_spec(s: Seq<char>) -> Option<PositionalSystem> {
    if s == "Borda"@ {
        Some(PositionalSystem::Borda)
    } else if s == "Dowdall"@ {
        Some(PositionalSystem::Dowdall)
    } else {
        None
    }
}

/// The poll type that a tag names: `Single`, `Multiple`, `Score`, or `Ranked`
/// followed by a positional system.
pub open spec fn poll_type_spec(s: Seq<char>) -> Option<PollType> {
    if s == "Single"@ {
        Some(PollType::Single)
    } else if s == "Multiple"@ {
        Some(PollType::Multiple)
    } else if s == "Score"@ {
        Some(PollType::Score)
    } else if s.len() >= 6 && s.subrange(0, 6) == "Ranked"@ {
        match positional_system_spec(s.subrange(6, s.len() as int)) {
            Some(p) => Some(PollType::Ranked(p)),
            None => None,
        }
    } else {
        None
    }
}

/// The tag of a positional system.
pub open spec fn positional_system_tag(p: PositionalSystem) -> Seq<char> {
    match p {
        PositionalSystem::Borda => "Borda"@,
        PositionalSystem::Dowdall => "Dowdall"@,
    }
}

/// The tag of a poll type.
pub open spec fn poll_type_tag(t: PollType) -> Seq<char> {
    match t {
        PollType::Single => "Single"@,
        PollType::Multiple => "Multiple"@,
        PollType::Score => "Score"@,
        PollType::Ranked(p) => "Ranked"@ + positional_system_tag(p),
    }
}

impl PositionalSystem {
    /// Parses `Borda` or `Dowdall`.
    pub fn try_parse(s: &str) -> (r: Result<PositionalSystem, ParseError>)
        ensures
            match positional_system_spec(s@) {
                Some(p) => r == Ok::<PositionalSystem, ParseError>(p),
                None => match r {
                    Err(ParseError::InvalidPositionalSystem(t)) => t@ == s@,
                    _ => false,
                },
            },
    {
        if same_text(s, "Borda") {
            Ok(PositionalSystem::Borda)
        } else if same_text(s, "Dowdall") {
            Ok(PositionalSystem::Dowdall)
        } else {
            Err(ParseError::InvalidPositionalSystem(s.to_owned()))
        }
    }

    /// The tag that `try_parse` reads back.
    pub fn tag(&self) -> (r: String)
        ensures
            r@ == positional_system_tag(*self),
    {
        match self {
            PositionalSystem::Borda => String::from_str("Borda"),
            PositionalSystem::Dowdall => String::from_str("Dowdall"),
        }
    }
}

impl PollType {
    /// Parses a poll type tag such as `Single` or `RankedBorda`.
    pub fn try_parse(s: &str) -> (r: Result<PollType, ParseError>)
        ensures
            match poll_type_spec(s@) {
                Some(t) => r == Ok::<PollType, ParseError>(t),
                None => match r {
                    Err(ParseError::InvalidPollType(t)) => t@ == s@ && !(s@.len() >= 6 && s@.subrange(
                        0,
                        6,
                    ) == "Ranked"@),
                    Err(ParseError::InvalidPositionalSystem(t)) => s@.len() >= 6 && s@.subrange(0, 6)
                        == "Ranked"@ && t@ == s@.subrange(6, s@.len() as int),
                    _ => false,
                },
            },
    {
        if same_text(s, "Single") {
            Ok(PollType::Single)
        } else if same_text(s, "Multiple") {
            Ok(PollType::Multiple)
        } else if same_text(s, "Score") {
            Ok(PollType::Score)
        } else if starts_with(s, "Ranked") {
            proof {
                reveal_strlit("Ranked");
                reveal_strlit("Single");
                reveal_strlit("Multiple");
                reveal_strlit("Score");
            }
            let rest = s.substring_char(6, s.unicode_len());
            let sys = PositionalSystem::try_parse(rest)?;
            Ok(PollType::Ranked(sys))
        } else {
            Err(ParseError::InvalidPollType(s.to_owned()))
        }
    }

    /// The tag that `try_parse` reads back, such as `Single` or `RankedBorda`.
    pub fn tag(&self) -> (r: String)
        ensures
            r@ == poll_type_tag(*self),
    {
        match self {
            PollType::Single => String::from_str("Single"),
            PollType::Multiple => String::from_str("Multiple"),
            PollType::Score => String::from_str("Score"),
            PollType::Ranked(p) => {
                let t = p.tag();
                String::from_str("Ranked").concat(t.as_str())
            },
        }
    }

    /// Whether a ranked ballot may leave options unranked; no system allows it.
    pub fn can_unranked(&self) -> (r: bool)
        ensures
            !r,
    {
        false
    }

    /// Whether a ranked ballot must give every option a distinct rank (the
    /// vote form enforces it); true of both positional systems.
    pub fn unique_scores(&self) -> (r: bool)
        ensures
            r == (*self is Ranked),
    {
        match self {
            PollType::Ranked(_) => true,
            _ => false,
        }
    }

    /// The creation form for this poll type.
    pub fn creation_site(&self) -> (r: CreationForm)
        ensures
            r == match *self {
                PollType::Single | PollType::Multiple => CreationForm::Simple,
                PollType::Ranked(_) => CreationForm::Ranked,
                PollType::Score => CreationForm::Score,
            },
    {
        match self {
            PollType::Single | PollType::Multiple => CreationForm::Simple,
            PollType::Ranked(_) => CreationForm::Ranked,
            PollType::Score => CreationForm::Score,
        }
    }
}

/// Every poll type's tag parses back to that poll type.
pub proof fn lemma_tag_parses(t: PollType)
    ensures
        poll_type_spec(poll_type_tag(t)) == Some(t),
{
    reveal_strlit("Single");
    reveal_strlit("Multiple");
    reveal_strlit("Score");
    reveal_strlit("Ranked");
    reveal_strlit("Borda");
    reveal_strlit("Dowdall");
    let s = poll_type_tag(t);
    match t {
        PollType::Ranked(p) => {
            let q = positional_system_tag(p);
            assert(s.subrange(0, 6) =~= "Ranked"@);
            assert(s.subrange(6, s.len() as int) =~= q);
            assert(s[0] == 'R');
            assert(s != "Single"@ && s != "Multiple"@ && s != "Score"@) by {
                assert("Single"@[0] == 'S');
                assert("Multiple"@[0] == 'M');
                assert("Score"@[0] == 'S');
            }
        },
        _ => {
            assert("Single"@ != "Multiple"@ && "Single"@ != "Score"@ && "Multiple"@ != "Score"@) by {
                assert("Single"@.len() != "Multiple"@.len());
                assert("Single"@[1] != "Score"@[1]);
                assert("Multiple"@.len() != "Score"@.len());
            }
        },
    }
}

} // verus!
