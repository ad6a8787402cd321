use poll::admin::{check_admin_action, check_poll_admin_action, AdminAction, AdminParams, AdminToken, UserError};
use poll::ballot::VoteError;
use poll::options::CreationError;
use poll::poll_type::{CreationForm, ParseError, PollType, PositionalSystem};

#[test]
fn poll_types_parse() {
    assert_eq!(PollType::try_parse("Single"), Ok(PollType::Single));
    assert_eq!(PollType::try_parse("Multiple"), Ok(PollType::Multiple));
    assert_eq!(PollType::try_parse("Score"), Ok(PollType::Score));
    assert_eq!(PollType::try_parse("RankedBorda"), Ok(PollType::Ranked(PositionalSystem::Borda)));
    assert_eq!(PollType::try_parse("RankedDowdall"), Ok(PollType::Ranked(PositionalSystem::Dowdall)));
}

#[test]
fn poll_type_errors() {
    assert_eq!(PollType::try_parse("single"), Err(ParseError::InvalidPollType("single".to_string())));
    assert_eq!(PollType::try_parse("Singles"), Err(ParseError::InvalidPollType("Singles".to_string())));
    assert_eq!(
        PollType::try_parse("RankedScore5"),
        Err(ParseError::InvalidPositionalSystem("Score5".to_string()))
    );
    assert_eq!(PollType::try_parse("Ranked"), Err(ParseError::InvalidPositionalSystem(String::new())));
    assert_eq!(
        PositionalSystem::try_parse("Bordaa"),
        Err(ParseError::InvalidPositionalSystem("Bordaa".to_string()))
    );
}

#[test]
fn poll_type_tags_read_back() {
    for t in [
        PollType::Single,
        PollType::Multiple,
        PollType::Score,
        PollType::Ranked(PositionalSystem::Borda),
        PollType::Ranked(PositionalSystem::Dowdall),
    ] {
        assert_eq!(PollType::try_parse(&t.tag()), Ok(t));
    }
    assert_eq!(PollType::Ranked(PositionalSystem::Dowdall).tag(), "RankedDowdall");
    assert_eq!(PositionalSystem::Borda.tag(), "Borda");
}

#[test]
fn poll_type_flags_and_forms() {
    let borda = PollType::Ranked(PositionalSystem::Borda);
    assert!(!borda.can_unranked());
    assert!(borda.unique_scores());
    assert!(!PollType::Single.unique_scores());
    assert_eq!(PollType::Single.creation_site(), CreationForm::Simple);
    assert_eq!(PollType::Multiple.creation_site(), CreationForm::Simple);
    assert_eq!(PollType::Score.creation_site(), CreationForm::Score);
    assert_eq!(borda.creation_site(), CreationForm::Ranked);
}

#[test]
fn admin_checks() {
    let on = AdminToken(Some("secret".to_string()));
    let off = AdminToken(None);
    let p = |token: &str, action| AdminParams { token: token.to_string(), action };
    assert_eq!(check_admin_action(&off, &p("secret", AdminAction::ListPolls)), Err(UserError::AdminOff));
    assert_eq!(check_admin_action(&on, &p("guess", AdminAction::ListPolls)), Err(UserError::InvalidAdminToken));
    assert_eq!(check_admin_action(&on, &p("secret", AdminAction::ResetVotes)), Err(UserError::InvalidAdminAction));
    assert_eq!(check_admin_action(&on, &p("secret", AdminAction::PurgeDatabase)), Ok(AdminAction::PurgeDatabase));
    let t = "tok".to_string();
    assert_eq!(check_poll_admin_action(&t, &p("tok", AdminAction::DeletePoll)), Ok(AdminAction::DeletePoll));
    assert_eq!(check_poll_admin_action(&t, &p("tok", AdminAction::ListPolls)), Err(UserError::InvalidAdminAction));
    assert_eq!(check_poll_admin_action(&t, &p("to", AdminAction::ResetVotes)), Err(UserError::InvalidAdminToken));
}

#[test]
fn error_status_codes() {
    assert_eq!(UserError::InternalError.status_code(), 500);
    assert_eq!(UserError::PollCreation(CreationError::TooFewOptions).status_code(), 400);
    assert_eq!(UserError::Voting(VoteError::NotANumber).status_code(), 400);
    assert_eq!(UserError::AdminOff.status_code(), 400);
    assert_eq!(UserError::InvalidAdminAction.status_code(), 400);
    assert_eq!(UserError::InvalidAdminToken.status_code(), 401);
    assert_eq!(UserError::TooManyRequests.status_code(), 429);
}
