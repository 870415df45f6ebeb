use vstd::prelude::*;

verus! {

/// Who may use the bot's commands, and the level of a user.
#[derive(Debug, Clone, Copy, PartialEq, Eq, Structural, PartialOrd, Ord, Hash)]
pub enum Restriction {
    /// Anyone (as a user: someone who is not playing).
    Public,
    Player,
    Host,
    Dev,
}

/// The groups commands are listed under.
#[derive(Debug, Clone, Copy, PartialEq, Eq, Structural, Hash)]
pub enum Category {
    Info,
    Controls,
    Solver,
    Dev,
}

/// Which room the bot goes to.
#[derive(Debug, Clone)]
pub enum Target {
    Join(String),
    Create,
}

/// How the bot spaces its key presses.
#[derive(Debug, Clone, Copy, PartialEq, Eq, Structural)]
pub enum Finesse {
    Instant,
    Smooth,
}

/// Whether the bot plays, wants to play, and was forced to play.
#[derive(Debug, Clone)]
pub struct EnabledState {
    pub value: bool,
    pub attempt: bool,
    pub force: bool,
}

/// Timing of the current round.
#[derive(Debug, Clone)]
pub struct GameState {
    pub last_piece_frame: u64,
    pub target_frame: u64,
}

/// The bot's mutable state.
#[derive(Debug, Clone)]
pub struct State {
    pub enabled: EnabledState,
    pub game: Option<GameState>,
    pub restriction: Restriction,
}

/// The lower-case name of a command category.
pub fn category_name(c: Category) -> (r: &'static str)
    ensures
        c == Category::Info ==> r@ == "info"@,
        c == Category::Controls ==> r@ == "controls"@,
        c == Category::Solver ==> r@ == "solver"@,
        c == Category::Dev ==> r@ == "dev"@,
{
    match c {
        Category::Info => "info",
        Category::Controls => "controls",
        Category::Solver => "solver",
        Category::Dev => "dev",
    }
}

/// The capitalized name of a command category, as the help listing shows it.
pub fn category_title(c: Category) -> (r: &'static str)
    ensures
        c == Category::Info ==> r@ == "Info"@,
        c == Category::Controls ==> r@ == "Controls"@,
        c == Category::Solver ==> r@ == "Solver"@,
        c == Category::Dev ==> r@ == "Dev"@,
{
    match c {
        Category::Info => "Info",
        Category::Controls => "Controls",
        Category::Solver => "Solver",
        Category::Dev => "Dev",
    }
}

/// Where a category comes in the help listing: lower first.
pub open spec fn priority_of(c: Category) -> u32 {
    match c {
        Category::Info => 1,
        Category::Controls => 2,
        Category::Solver => 3,
        Category::Dev => 99,
    }
}

/// The place of a category in the help listing.
pub fn category_priority(c: Category) -> (r: u32)
    ensures
        r == priority_of(c),
{
    match c {
        Category::Info => 1,
        Category::Controls => 2,
        Category::Solver => 3,
        Category::Dev => 99,
    }
}

/// Whether a user of level `user` sees category `c` in the help listing:
/// the developer category is shown to developers only.
pub open spec fn shows_category(c: Category, user: Restriction) -> bool {
    !(c == Category::Dev && user != Restriction::Dev)
}

/// The four categories in listing order.
pub open spec fn listing_order() -> Seq<Category> {
    seq![Category::Info, Category::Controls, Category::Solver, Category::Dev]
}

/// The categories that the help listing shows a user of level `user`, of
/// those in `present` (the categories that have commands), in listing order.
pub fn help_categories(present: &Vec<Category>, user: Restriction) -> (r: Vec<Category>)
    ensures
        r@ == listing_order().filter(|c: Category| present@.contains(c) && shows_category(c, user)),
{
    let order = [Category::Info, Category::Controls, Category::Solver, Category::Dev];
    let ghost keep = |c: Category| present@.contains(c) && shows_category(c, user);
    let mut r: Vec<Category> = Vec::new();
    let mut i: usize = 0;
    assert(order@ == listing_order());
    while i < 4
        invariant
            i <= 4,
            order@ == listing_order(),
            keep == (|c: Category| present@.contains(c) && shows_category(c, user)),
            r@ == listing_order().take(i as int).filter(keep),
        decreases 4 - i,
    {
        let c = order[i];
        let mut found = false;
        let mut j: usize = 0;
        while j < present.len()
            invariant
                j <= present.len(),
                found == present@.take(j as int).contains(c),
            decreases present.len() - j,
        {
            proof {
                let t = present@.take(j as int);
                let t1 = present@.take(j + 1);
                assert(t1 =~= t.push(present@[j as int]));
                if t.contains(c) {
                    let k = choose|k: int| 0 <= k < t.len() && t[k] == c;
                    assert(t1[k] == c);
                }
                if present@[j as int] == c {
                    assert(t1[j as int] == c);
                }
                if t1.contains(c) {
                    let k = choose|k: int| 0 <= k < t1.len() && t1[k] == c;
                    if k < j {
                        assert(t[k] == c);
                    }
                }
            }
            if present[j] == c {
                found = true;
            }
            j += 1;
        }
        proof {
            assert(present@.take(present.len() as int) =~= present@);
            assert(listing_order().take(i + 1) =~= listing_order().take(i as int).push(c));
            listing_order().take(i as int).lemma_filter_push(c, keep);
        }
        if found && !(c == Category::Dev && user != Restriction::Dev) {
            r.push(c);
        }
        i += 1;
    }
    assert(listing_order().take(4) =~= listing_order());
    r
}

fn same_text(s: &String, lit: &str) -> (r: bool)
    ensures
        r == (s@ == lit@),
{
    let owned = lit.to_owned();
    *s == owned
}

/// Whether one of `players` (user id, and whether in the players' bracket)
/// is `user` in the players' bracket.
pub open spec fn plays(user: Seq<char>, players: Seq<(String, bool)>) -> bool {
    exists|i: int| 0 <= i < players.len() && (#[trigger] players[i]).1 && players[i].0@ == user
}

/// The level of the author `user` of a chat message: the room's owner is a
/// host, someone in the players' bracket a player, anyone else (or anyone
/// when the bot is in no room) has no level.
pub fn chat_level(user: &String, owner: Option<&String>, players: &Vec<(String, bool)>) -> (r: Restriction)
    ensures
        r == match owner {
            None => Restriction::Public,
            Some(o) => if user@ == o@ {
                Restriction::Host
            } else if plays(user@, players@) {
                Restriction::Player
            } else {
                Restriction::Public
            },
        },
{
    let o = match owner {
        Some(o) => o,
        None => {
            return Restriction::Public;
        },
    };
    let own: String = o.clone();
    if *user == own {
        return Restriction::Host;
    }
    let mut i: usize = 0;
    while i < players.len()
        invariant
            i <= players.len(),
            owner == Some(o),
            user@ != o@,
            forall|k: int| 0 <= k < i ==> !((#[trigger] players@[k]).1 && players@[k].0@ == user@),
        decreases players.len() - i,
    {
        let id: String = players[i].0.clone();
        if players[i].1 && *user == id {
            assert(players@[i as int].1 && players@[i as int].0@ == user@);
            return Restriction::Player;
        }
        i += 1;
    }
    Restriction::Public
}

/// The restriction level a command argument names, if any.
pub open spec fn level_named(s: Seq<char>) -> Option<Restriction> {
    if s == "none"@ {
        Some(Restriction::Public)
    } else if s == "player"@ {
        Some(Restriction::Player)
    } else if s == "host"@ {
        Some(Restriction::Host)
    } else if s == "dev"@ {
        Some(Restriction::Dev)
    } else {
        None
    }
}

/// Reads a restriction level: "none", "player", "host" or "dev".
pub fn parse_restriction(s: &String) -> (r: Option<Restriction>)
    ensures
        r == level_named(s@),
{
    if same_text(s, "none") {
        Some(Restriction::Public)
    } else if same_text(s, "player") {
        Some(Restriction::Player)
    } else if same_text(s, "host") {
        Some(Restriction::Host)
    } else if same_text(s, "dev") {
        Some(Restriction::Dev)
    } else {
        None
    }
}

/// What the `restrict` command does.
#[derive(Debug, Clone, Copy, PartialEq, Eq, Structural)]
pub enum RestrictOutcome {
    /// No level was given.
    MissingLevel,
    /// The argument names no level.
    InvalidLevel,
    /// Users below host may not change the restriction.
    PlayersCannotChange,
    /// Only developers may restrict to developers.
    DevOnly,
    /// The restriction becomes this level.
    Change(Restriction),
}

/// Decides the `restrict` command for a user of level `user`.
pub fn restrict_command(arg: Option<&String>, user: Restriction) -> (r: RestrictOutcome)
    ensures
        arg is None ==> r == RestrictOutcome::MissingLevel,
        arg is Some ==> r == match level_named(arg->0@) {
            None => RestrictOutcome::InvalidLevel,
            Some(v) => if user == Restriction::Player || user == Restriction::Public {
                RestrictOutcome::PlayersCannotChange
            } else if v == Restriction::Dev && user != Restriction::Dev {
                RestrictOutcome::DevOnly
            } else {
                RestrictOutcome::Change(v)
            },
        },
{
    let arg = match arg {
        Some(a) => a,
        None => {
            return RestrictOutcome::MissingLevel;
        },
    };
    let v = match parse_restriction(arg) {
        Some(v) => v,
        None => {
            return RestrictOutcome::InvalidLevel;
        },
    };
    if user == Restriction::Player || user == Restriction::Public {
        return RestrictOutcome::PlayersCannotChange;
    }
    if v == Restriction::Dev && user != Restriction::Dev {
        return RestrictOutcome::DevOnly;
    }
    RestrictOutcome::Change(v)
}

/// Whether the `enable` command forces play: its argument is "force" and
/// the user is a developer.
pub fn enable_force(arg: Option<&String>, user: Restriction) -> (r: bool)
    ensures
        r == (arg is Some && arg->0@ == "force"@ && user == Restriction::Dev),
{
    match arg {
        Some(a) => same_text(a, "force") && user == Restriction::Dev,
        None => false,
    }
}

/// The finesse mode a command argument names, if any.
pub open spec fn finesse_named(s: Seq<char>) -> Option<Finesse> {
    if s == "smooth"@ {
        Some(Finesse::Smooth)
    } else if s == "instant"@ {
        Some(Finesse::Instant)
    } else {
        None
    }
}

/// What the `finesse` command does.
#[derive(Debug, Clone, Copy, PartialEq, Eq, Structural)]
pub enum FinesseOutcome {
    /// No mode given: report the current one.
    Show,
    /// The argument names no mode.
    InvalidMode,
    /// Smooth finesse needs the speed at or below the smooth cap first.
    SpeedTooHigh,
    /// The mode becomes this one.
    Change(Finesse),
}

/// Decides the `finesse` command; `above_smooth_cap` tells whether the
/// current speed exceeds what smooth finesse allows.
pub fn finesse_command(arg: Option<&String>, above_smooth_cap: bool) -> (r: FinesseOutcome)
    ensures
        arg is None ==> r == FinesseOutcome::Show,
        arg is Some ==> r == match finesse_named(arg->0@) {
            None => FinesseOutcome::InvalidMode,
            Some(m) => if m == Finesse::Smooth && above_smooth_cap {
                FinesseOutcome::SpeedTooHigh
            } else {
                FinesseOutcome::Change(m)
            },
        },
{
    let arg = match arg {
        Some(a) => a,
        None => {
            return FinesseOutcome::Show;
        },
    };
    let mode = if same_text(arg, "smooth") {
        Finesse::Smooth
    } else if same_text(arg, "instant") {
        Finesse::Instant
    } else {
        return FinesseOutcome::InvalidMode;
    };
    if mode == Finesse::Smooth && above_smooth_cap {
        return FinesseOutcome::SpeedTooHigh;
    }
    FinesseOutcome::Change(mode)
}

/// Where a room's settings send the bot.
#[derive(Debug, Clone, Copy, PartialEq, Eq, Structural)]
pub enum RoomAction {
    /// The settings break a hard rule: go to the spectators.
    ToSpectators,
    /// The settings are fine and the bot wants to play: go to the players.
    ToPlayers,
    /// Nothing to do.
    Stay,
}

/// The setup hint is due when this is the first look at the room and both
/// gravity rules were broken.
pub fn needs_setup_hint(initial: bool, messages: &Vec<String>) -> (r: bool)
    ensures
        r == (initial && messages@.any(|m: String| m@ == "falcon requires 0 gravity increase."@)
            && messages@.any(|m: String| m@ == "falcon requires 0 gravity."@)),
{
    if !initial {
        return false;
    }
    let mut increase = false;
    let mut gravity = false;
    let mut i: usize = 0;
    while i < messages.len()
        invariant
            i <= messages.len(),
            increase == messages@.take(i as int).any(|m: String| m@ == "falcon requires 0 gravity increase."@),
            gravity == messages@.take(i as int).any(|m: String| m@ == "falcon requires 0 gravity."@),
        decreases messages.len() - i,
    {
        let m = &messages[i];
        proof {
            let t = messages@.take(i as int);
            let t1 = messages@.take(i + 1);
            assert(t1 =~= t.push(messages@[i as int]));
            assert(t1[i as int] == messages@[i as int]);
            assert forall|p: spec_fn(String) -> bool| #[trigger] t1.any(p) == (t.any(p) || p(messages@[i as int])) by {
                if t.any(p) {
                    let k = choose|k: int| 0 <= k < t.len() && p(t[k]);
                    assert(t1[k] == t[k]);
                }
                if t1.any(p) {
                    let k = choose|k: int| 0 <= k < t1.len() && p(t1[k]);
                    if k < i {
                        assert(t[k] == t1[k]);
                    }
                }
            }
        }
        if same_text(m, "falcon requires 0 gravity increase.") {
            increase = true;
        }
        if same_text(m, "falcon requires 0 gravity.") {
            gravity = true;
        }
        i += 1;
    }
    proof {
        assert(messages@.take(messages.len() as int) =~= messages@);
    }
    increase && gravity
}

/// What a chat message asks of the bot.
#[derive(Debug, Clone)]
pub enum ChatInput {
    /// The message is the bot's name after `@` and nothing else: the bot
    /// answers with its command prefix.
    Mention,
    /// The text to read as a command, with a leading `@name ` replaced by
    /// the command prefix.
    Text(Vec<char>),
}

/// `@` followed by the bot's name.
pub open spec fn mention_of(name: Seq<char>) -> Seq<char> {
    seq!['@'] + name
}

/// Whether `a` begins with `b`.
fn starts_with_chars(a: &Vec<char>, b: &Vec<char>) -> (r: bool)
    ensures
        r == (b@.len() <= a@.len() && a@.take(b@.len() as int) == b@),
{
    if b.len() > a.len() {
        return false;
    }
    let mut i: usize = 0;
    while i < b.len()
        invariant
            b@.len() <= a@.len(),
            i <= b@.len(),
            a@.take(i as int) == b@.take(i as int),
        decreases b.len() - i,
    {
        if a[i] != b[i] {
            assert(a@.take(b@.len() as int)[i as int] != b@[i as int]);
            return false;
        }
        assert(a@.take(i + 1) =~= a@.take(i as int).push(a@[i as int]));
        assert(b@.take(i + 1) =~= b@.take(i as int).push(b@[i as int]));
        i += 1;
    }
    assert(b@.take(b@.len() as int) =~= b@);
    true
}

/// Reads a chat message `content` sent to the bot named `name` whose
/// commands start with `prefix`.
pub fn read_chat(content: &Vec<char>, name: &Vec<char>, prefix: &Vec<char>) -> (r: ChatInput)
    requires
        name@.len() + 2 <= usize::MAX,
    ensures
        content@ == mention_of(name@) ==> r is Mention,
        content@ != mention_of(name@) && (mention_of(name@).push(' ')).is_prefix_of(content@)
            ==> (r matches ChatInput::Text(t) && t@ == prefix@ + content@.skip(name@.len() + 2int)),
        content@ != mention_of(name@) && !(mention_of(name@).push(' ')).is_prefix_of(content@)
            ==> (r matches ChatInput::Text(t) && t@ == content@),
{
    let mut at: Vec<char> = Vec::new();
    at.push('@');
    let mut j: usize = 0;
    while j < name.len()
        invariant
            j <= name@.len(),
            at@ == seq!['@'] + name@.take(j as int),
        decreases name.len() - j,
    {
        at.push(name[j]);
        assert(name@.take(j + 1) =~= name@.take(j as int).push(name@[j as int]));
        j += 1;
    }
    assert(name@.take(name@.len() as int) =~= name@);
    assert(at@ == mention_of(name@));
    if at.len() == content.len() && starts_with_chars(content, &at) {
        assert(content@.take(at@.len() as int) =~= content@);
        return ChatInput::Mention;
    }
    assert(content@ != mention_of(name@)) by {
        if content@ == mention_of(name@) {
            assert(content@.take(at@.len() as int) =~= content@);
        }
    }
    let ghost spaced = mention_of(name@).push(' ');
    at.push(' ');
    if starts_with_chars(content, &at) {
        assert(spaced.is_prefix_of(content@));
        let mut t: Vec<char> = Vec::new();
        let mut k: usize = 0;
        while k < prefix.len()
            invariant
                k <= prefix@.len(),
                t@ == prefix@.take(k as int),
            decreases prefix.len() - k,
        {
            t.push(prefix[k]);
            assert(prefix@.take(k + 1) =~= prefix@.take(k as int).push(prefix@[k as int]));
            k += 1;
        }
        assert(prefix@.take(prefix@.len() as int) =~= prefix@);
        let start = at.len();
        let mut k: usize = start;
        while k < content.len()
            invariant
                start == name@.len() + 2,
                start <= k <= content@.len(),
                t@ == prefix@ + content@.subrange(start as int, k as int),
            decreases content.len() - k,
        {
            t.push(content[k]);
            assert(content@.subrange(start as int, k + 1) =~= content@.subrange(start as int, k as int).push(content@[k as int]));
            k += 1;
        }
        assert(content@.subrange(start as int, content@.len() as int) =~= content@.skip(start as int));
        ChatInput::Text(t)
    } else {
        assert(!spaced.is_prefix_of(content@)) by {
            if spaced.is_prefix_of(content@) {
                assert(content@.take(at@.len() as int) =~= spaced);
            }
        }
        let mut t: Vec<char> = Vec::new();
        let mut k: usize = 0;
        while k < content.len()
            invariant
                k <= content@.len(),
                t@ == content@.take(k as int),
            decreases content.len() - k,
        {
            t.push(content[k]);
            assert(content@.take(k + 1) =~= content@.take(k as int).push(content@[k as int]));
            k += 1;
        }
        assert(content@.take(content@.len() as int) =~= content@);
        ChatInput::Text(t)
    }
}

impl State {
    /// The state the bot starts in: not playing, but wanting to, not
    /// forced, no round on, commands open to everyone.
    pub fn new() -> (r: State)
        ensures
            !r.enabled.value,
            r.enabled.attempt,
            !r.enabled.force,
            r.game is None,
            r.restriction == Restriction::Public,
    {
        State {
            enabled: EnabledState { value: false, attempt: true, force: false },
            game: None,
            restriction: Restriction::Public,
        }
    }

    /// Decides the `enable` command: `None` when the bot already plays
    /// (nothing changes), else `Some(force)`, the force flag to set once the
    /// switch to the players succeeds (see `enable_force`).
    pub fn enable_request(&self, arg: Option<&String>, user: Restriction) -> (r: Option<bool>)
        ensures
            self.enabled.value ==> r is None,
            !self.enabled.value ==> r == Some(arg is Some && arg->0@ == "force"@ && user == Restriction::Dev),
    {
        if self.enabled.value {
            None
        } else {
            Some(enable_force(arg, user))
        }
    }

    /// Records the `disable` command: no longer attempting or forced to
    /// play, and not playing. Returns whether the bot was playing.
    pub fn disabled_by_command(&mut self) -> (was: bool)
        ensures
            was == old(self).enabled.value,
            !final(self).enabled.value,
            !final(self).enabled.attempt,
            !final(self).enabled.force,
            final(self).game == old(self).game,
            final(self).restriction == old(self).restriction,
    {
        self.enabled.attempt = false;
        self.enabled.force = false;
        let was = self.enabled.value;
        self.enabled.value = false;
        was
    }

    /// Reacts to a check of the room's settings (`error`: a hard rule is
    /// broken): on an error, leave the players and wait for another try;
    /// otherwise join the players if the bot wants to play.
    pub fn on_room_check(&mut self, error: bool) -> (r: RoomAction)
        ensures
            error ==> r == RoomAction::ToSpectators && final(self).enabled.attempt && !final(self).enabled.value
                && final(self).enabled.force == old(self).enabled.force,
            !error && old(self).enabled.attempt ==> r == RoomAction::ToPlayers && final(self).enabled.value
                && final(self).enabled.attempt && final(self).enabled.force == old(self).enabled.force,
            !error && !old(self).enabled.attempt ==> r == RoomAction::Stay && final(self).enabled
                == old(self).enabled,
            final(self).game == old(self).game,
            final(self).restriction == old(self).restriction,
    {
        if error {
            self.enabled.attempt = true;
            self.enabled.value = false;
            RoomAction::ToSpectators
        } else if self.enabled.attempt {
            self.enabled.value = true;
            RoomAction::ToPlayers
        } else {
            RoomAction::Stay
        }
    }

    /// Whether the bot should place a piece on this tick: a round is on,
    /// its target frame has come, and no hard drop is still waiting to be
    /// sent.
    pub fn should_play(&self, frame: u64, hard_drop_pending: bool) -> (r: bool)
        ensures
            r == (self.game matches Some(g) && frame >= g.target_frame && !hard_drop_pending),
    {
        match &self.game {
            Some(g) => frame >= g.target_frame && !hard_drop_pending,
            None => false,
        }
    }

    /// Notes that a piece is being placed at `frame`; without a round
    /// nothing changes.
    pub fn begin_piece(&mut self, frame: u64)
        ensures
            old(self).game matches Some(g) ==> final(self).game == Some(GameState { last_piece_frame: frame, ..g }),
            old(self).game is None ==> final(self).game is None,
            final(self).enabled == old(self).enabled,
            final(self).restriction == old(self).restriction,
    {
        if let Some(g) = &mut self.game {
            g.last_piece_frame = frame;
        }
    }

    /// Aims the next piece at frame `target`; without a round nothing
    /// changes.
    pub fn aim(&mut self, target: u64)
        ensures
            old(self).game matches Some(g) ==> final(self).game == Some(GameState { target_frame: target, ..g }),
            old(self).game is None ==> final(self).game is None,
            final(self).enabled == old(self).enabled,
            final(self).restriction == old(self).restriction,
    {
        if let Some(g) = &mut self.game {
            g.target_frame = target;
        }
    }

    /// Records a successful switch to the players: enabled, no longer
    /// attempting, forced as decided.
    pub fn enabled_by_command(&mut self, force: bool)
        ensures
            final(self).enabled.value,
            !final(self).enabled.attempt,
            final(self).enabled.force == force,
            final(self).game == old(self).game,
            final(self).restriction == old(self).restriction,
    {
        self.enabled.value = true;
        self.enabled.attempt = false;
        self.enabled.force = force;
    }
}

} // verus!
