use elevate_pam::builtin::chauthtok::{
    passwd_phase, update_step, PasswdPhase, UpdateAction, UpdateEvent, UpdateNote, UpdateState,
};
use elevate_pam::constants::{
    PAM_AUTHTOK_ERR, PAM_AUTHTOK_RECOVERY_ERR, PAM_PRELIM_CHECK, PAM_SUCCESS, PAM_UPDATE_AUTHTOK,
};

fn args(list: &[&str]) -> Vec<String> {
    list.iter().map(|s| s.to_string()).collect()
}

/// Feed `events` to the machine from the start, returning the actions.
fn drive(args: &[String], events: Vec<UpdateEvent>) -> Vec<UpdateAction> {
    let mut state = UpdateState::Start;
    let mut out = Vec::new();
    for e in events {
        let (next, action) = update_step(state, e, args);
        state = next;
        out.push(action);
    }
    out
}

fn token(s: &str) -> UpdateEvent {
    UpdateEvent::Token(Some(s.to_string()))
}

#[test]
fn phase_follows_the_flags() {
    assert_eq!(passwd_phase(PAM_PRELIM_CHECK), PasswdPhase::Prelim);
    assert_eq!(passwd_phase(PAM_PRELIM_CHECK | PAM_UPDATE_AUTHTOK), PasswdPhase::Prelim);
    assert_eq!(passwd_phase(PAM_UPDATE_AUTHTOK), PasswdPhase::Update);
    assert_eq!(passwd_phase(0), PasswdPhase::Neither);
}

#[test]
fn update_with_history_runs_every_step() {
    let a = args(&["remember=3"]);
    let acts = drive(
        &a,
        vec![
            UpdateEvent::Begin,
            token("hunter22"),
            token("hunter22"),
            UpdateEvent::HistoryChecked(false),
            UpdateEvent::Hashed(Some("$h$".to_string())),
            UpdateEvent::Written(true),
            UpdateEvent::Recorded(true),
        ],
    );
    assert!(matches!(acts[0], UpdateAction::AskNew));
    assert!(matches!(acts[1], UpdateAction::AskRetype));
    assert!(matches!(&acts[2], UpdateAction::CheckHistory(p) if p == "hunter22"));
    assert!(matches!(&acts[3], UpdateAction::Hash(p) if p == "hunter22"));
    assert!(matches!(&acts[4], UpdateAction::WriteShadow(h) if h == "$h$"));
    assert!(matches!(&acts[5], UpdateAction::RecordHistory(h, 3) if h == "$h$"));
    assert!(matches!(acts[6], UpdateAction::Finish(PAM_SUCCESS, None)));
}

#[test]
fn update_without_history_goes_straight_to_hashing() {
    let a = args(&[]);
    let acts = drive(
        &a,
        vec![
            UpdateEvent::Begin,
            token("pw"),
            token("pw"),
            UpdateEvent::Hashed(Some("$x$".to_string())),
            UpdateEvent::Written(true),
        ],
    );
    assert!(matches!(&acts[2], UpdateAction::Hash(p) if p == "pw"));
    assert!(matches!(acts[4], UpdateAction::Finish(PAM_SUCCESS, None)));
}

#[test]
fn mistyped_retype_is_refused_with_a_note_unless_quiet() {
    let acts = drive(&args(&[]), vec![UpdateEvent::Begin, token("one"), token("two")]);
    assert!(matches!(acts[2], UpdateAction::Finish(PAM_AUTHTOK_ERR, Some(UpdateNote::Mismatch))));
    let acts = drive(&args(&["quiet"]), vec![UpdateEvent::Begin, token("one"), token("two")]);
    assert!(matches!(acts[2], UpdateAction::Finish(PAM_AUTHTOK_ERR, None)));
}

#[test]
fn short_and_reused_passwords_are_refused() {
    let acts = drive(&args(&["minlen=8"]), vec![UpdateEvent::Begin, token("short"), token("short")]);
    assert!(matches!(acts[2], UpdateAction::Finish(PAM_AUTHTOK_ERR, Some(UpdateNote::TooShort(8)))));
    let acts = drive(
        &args(&["remember=1"]),
        vec![UpdateEvent::Begin, token("old"), token("old"), UpdateEvent::HistoryChecked(true)],
    );
    assert!(matches!(acts[3], UpdateAction::Finish(PAM_AUTHTOK_ERR, Some(UpdateNote::InHistory))));
}

#[test]
fn reused_token_is_taken_once_and_missing_one_is_a_recovery_error() {
    let a = args(&["use_authtok"]);
    let acts = drive(&a, vec![UpdateEvent::Begin, token("given")]);
    assert!(matches!(acts[0], UpdateAction::ReuseToken));
    assert!(matches!(&acts[1], UpdateAction::Hash(p) if p == "given"));
    let acts = drive(&a, vec![UpdateEvent::Begin, UpdateEvent::Token(None)]);
    assert!(matches!(acts[1], UpdateAction::Finish(PAM_AUTHTOK_RECOVERY_ERR, None)));
    let acts = drive(&args(&[]), vec![UpdateEvent::Begin, UpdateEvent::Token(None)]);
    assert!(matches!(acts[1], UpdateAction::Finish(PAM_AUTHTOK_ERR, None)));
}

#[test]
fn failed_writes_end_the_phase() {
    let acts = drive(
        &args(&[]),
        vec![
            UpdateEvent::Begin,
            token("pw"),
            token("pw"),
            UpdateEvent::Hashed(None),
        ],
    );
    assert!(matches!(acts[3], UpdateAction::Finish(PAM_AUTHTOK_ERR, None)));
    let acts = drive(
        &args(&["remember=2", "quiet"]),
        vec![
            UpdateEvent::Begin,
            token("pw"),
            token("pw"),
            UpdateEvent::HistoryChecked(false),
            UpdateEvent::Hashed(Some("$h$".to_string())),
            UpdateEvent::Written(false),
        ],
    );
    assert!(matches!(acts[5], UpdateAction::Finish(PAM_AUTHTOK_ERR, Some(UpdateNote::ShadowNotWritten))));
    let acts = drive(
        &args(&["remember=2"]),
        vec![
            UpdateEvent::Begin,
            token("pw"),
            token("pw"),
            UpdateEvent::HistoryChecked(false),
            UpdateEvent::Hashed(Some("$h$".to_string())),
            UpdateEvent::Written(true),
            UpdateEvent::Recorded(false),
        ],
    );
    assert!(matches!(acts[6], UpdateAction::Finish(PAM_SUCCESS, Some(UpdateNote::HistoryNotRecorded))));
}

#[test]
fn an_event_out_of_turn_ends_the_phase() {
    let acts = drive(&args(&[]), vec![UpdateEvent::Written(true)]);
    assert!(matches!(acts[0], UpdateAction::Finish(PAM_AUTHTOK_ERR, None)));
}
