use falcon::bot::{
    category_name, category_priority, category_title, chat_level, enable_force, finesse_command, help_categories,
    needs_setup_hint, parse_restriction, restrict_command, Category, EnabledState, Finesse, FinesseOutcome, GameState,
    RestrictOutcome, Restriction, RoomAction, State, read_chat, ChatInput,
};

fn state(value: bool, attempt: bool, game: Option<GameState>) -> State {
    State { enabled: EnabledState { value, attempt, force: false }, game, restriction: Restriction::Public }
}

#[test]
fn category_names() {
    assert_eq!(category_name(Category::Info), "info");
    assert_eq!(category_name(Category::Controls), "controls");
    assert_eq!(category_name(Category::Solver), "solver");
    assert_eq!(category_name(Category::Dev), "dev");
    assert_eq!(category_title(Category::Controls), "Controls");
    assert_eq!(category_priority(Category::Dev), 99);
    assert_eq!(category_priority(Category::Info), 1);
}

#[test]
fn help_lists_categories_in_priority_order() {
    let present = vec![Category::Dev, Category::Controls, Category::Info];
    assert_eq!(help_categories(&present, Restriction::Host), vec![Category::Info, Category::Controls]);
    assert_eq!(
        help_categories(&present, Restriction::Dev),
        vec![Category::Info, Category::Controls, Category::Dev]
    );
    assert_eq!(help_categories(&Vec::new(), Restriction::Dev), Vec::<Category>::new());
}

#[test]
fn restriction_levels_parse() {
    assert_eq!(parse_restriction(&"none".to_string()), Some(Restriction::Public));
    assert_eq!(parse_restriction(&"player".to_string()), Some(Restriction::Player));
    assert_eq!(parse_restriction(&"host".to_string()), Some(Restriction::Host));
    assert_eq!(parse_restriction(&"dev".to_string()), Some(Restriction::Dev));
    assert_eq!(parse_restriction(&"admin".to_string()), None);
    assert!(Restriction::Public < Restriction::Player && Restriction::Host < Restriction::Dev);
}

#[test]
fn restrict_command_outcomes() {
    let host = "host".to_string();
    let dev = "dev".to_string();
    let bad = "everyone".to_string();
    assert_eq!(restrict_command(None, Restriction::Dev), RestrictOutcome::MissingLevel);
    assert_eq!(restrict_command(Some(&bad), Restriction::Dev), RestrictOutcome::InvalidLevel);
    assert_eq!(restrict_command(Some(&host), Restriction::Player), RestrictOutcome::PlayersCannotChange);
    assert_eq!(restrict_command(Some(&host), Restriction::Public), RestrictOutcome::PlayersCannotChange);
    assert_eq!(restrict_command(Some(&dev), Restriction::Host), RestrictOutcome::DevOnly);
    assert_eq!(restrict_command(Some(&dev), Restriction::Dev), RestrictOutcome::Change(Restriction::Dev));
    assert_eq!(restrict_command(Some(&host), Restriction::Host), RestrictOutcome::Change(Restriction::Host));
}

#[test]
fn enable_and_finesse_commands() {
    let force = "force".to_string();
    let other = "now".to_string();
    assert!(enable_force(Some(&force), Restriction::Dev));
    assert!(!enable_force(Some(&force), Restriction::Host));
    assert!(!enable_force(Some(&other), Restriction::Dev));
    assert!(!enable_force(None, Restriction::Dev));
    let smooth = "smooth".to_string();
    let instant = "instant".to_string();
    assert_eq!(finesse_command(None, false), FinesseOutcome::Show);
    assert_eq!(finesse_command(Some(&other), false), FinesseOutcome::InvalidMode);
    assert_eq!(finesse_command(Some(&smooth), true), FinesseOutcome::SpeedTooHigh);
    assert_eq!(finesse_command(Some(&smooth), false), FinesseOutcome::Change(Finesse::Smooth));
    assert_eq!(finesse_command(Some(&instant), true), FinesseOutcome::Change(Finesse::Instant));
}

#[test]
fn enabling_and_disabling_update_the_state() {
    let mut s = state(false, true, None);
    s.enabled_by_command(true);
    assert!(s.enabled.value && !s.enabled.attempt && s.enabled.force);
    assert!(s.disabled_by_command());
    assert!(!s.enabled.value && !s.enabled.attempt && !s.enabled.force);
    assert!(!s.disabled_by_command());
}

#[test]
fn room_checks_move_the_bot() {
    let mut s = state(true, false, None);
    assert_eq!(s.on_room_check(true), RoomAction::ToSpectators);
    assert!(!s.enabled.value && s.enabled.attempt);
    assert_eq!(s.on_room_check(false), RoomAction::ToPlayers);
    assert!(s.enabled.value);
    let mut idle = state(false, false, None);
    assert_eq!(idle.on_room_check(false), RoomAction::Stay);
    assert!(!idle.enabled.value);
}

#[test]
fn setup_hint_needs_both_gravity_messages() {
    let both = vec![
        "falcon requires 0 gravity.".to_string(),
        "something else".to_string(),
        "falcon requires 0 gravity increase.".to_string(),
    ];
    let one = vec!["falcon requires 0 gravity.".to_string()];
    assert!(needs_setup_hint(true, &both));
    assert!(!needs_setup_hint(false, &both));
    assert!(!needs_setup_hint(true, &one));
}

#[test]
fn ticks_play_only_when_due() {
    let mut s = state(true, false, Some(GameState { last_piece_frame: 0, target_frame: 30 }));
    assert!(!s.should_play(29, false));
    assert!(s.should_play(30, false));
    assert!(!s.should_play(31, true));
    s.begin_piece(31);
    s.aim(60);
    let g = s.game.clone().unwrap();
    assert_eq!((g.last_piece_frame, g.target_frame), (31, 60));
    let mut none = state(true, false, None);
    assert!(!none.should_play(1000, false));
    none.aim(5);
    assert!(none.game.is_none());
}

#[test]
fn chat_levels_come_from_the_room() {
    let owner = "owner".to_string();
    let players = vec![("p1".to_string(), true), ("spec".to_string(), false)];
    assert_eq!(chat_level(&"owner".to_string(), Some(&owner), &players), Restriction::Host);
    assert_eq!(chat_level(&"p1".to_string(), Some(&owner), &players), Restriction::Player);
    assert_eq!(chat_level(&"spec".to_string(), Some(&owner), &players), Restriction::Public);
    assert_eq!(chat_level(&"owner".to_string(), None, &players), Restriction::Public);
}

fn chars(s: &str) -> Vec<char> {
    s.chars().collect()
}

fn text(r: ChatInput) -> Option<String> {
    match r {
        ChatInput::Mention => None,
        ChatInput::Text(t) => Some(t.into_iter().collect()),
    }
}

#[test]
fn chat_mention_and_prefix_rewrite() {
    let name = chars("falcon");
    let prefix = chars(">");
    assert!(matches!(read_chat(&chars("@falcon"), &name, &prefix), ChatInput::Mention));
    assert_eq!(text(read_chat(&chars("@falcon help"), &name, &prefix)), Some(">help".to_string()));
    assert_eq!(text(read_chat(&chars("@falcon  pps 3"), &name, &prefix)), Some("> pps 3".to_string()));
    assert_eq!(text(read_chat(&chars("@falconx help"), &name, &prefix)), Some("@falconx help".to_string()));
    assert_eq!(text(read_chat(&chars("hi @falcon help"), &name, &prefix)), Some("hi @falcon help".to_string()));
    assert_eq!(text(read_chat(&chars("@falco"), &name, &prefix)), Some("@falco".to_string()));
    assert_eq!(text(read_chat(&chars(""), &name, &prefix)), Some("".to_string()));
    assert_eq!(text(read_chat(&chars("@falcon "), &name, &prefix)), Some(">".to_string()));
}

#[test]
fn bot_starts_wanting_to_play() {
    let s = State::new();
    assert!(!s.enabled.value);
    assert!(s.enabled.attempt);
    assert!(!s.enabled.force);
    assert!(s.game.is_none());
    assert_eq!(s.restriction, Restriction::Public);
}

#[test]
fn enable_refused_when_already_playing() {
    let force = "force".to_string();
    let idle = state(false, true, None);
    assert_eq!(idle.enable_request(Some(&force), Restriction::Dev), Some(true));
    assert_eq!(idle.enable_request(Some(&force), Restriction::Host), Some(false));
    assert_eq!(idle.enable_request(None, Restriction::Dev), Some(false));
    let playing = state(true, false, None);
    assert_eq!(playing.enable_request(Some(&force), Restriction::Dev), None);
}
