//! The driver of the live Foundry world: its configuration, what it reads from
//! the world's pages, and the state that it reports.
use vstd::prelude::*;

use crate::clock::Duration;
use crate::json::json_string;
use crate::text::{
    chars_of, copy_text, same_text, string_of, text_of, trim_text, trimmed_end_char,
};

verus! {

/// How often a page is looked at while something is waited for, in seconds.
pub const POLL_SECONDS: u64 = 2;

/// How often the world is looked at once it is ready, in seconds.
pub const WATCH_SECONDS: u64 = 10;

/// How long something is waited for, in seconds.
pub const SESSION_TIMEOUT_SECONDS: u64 = 60;

/// The lifecycle state of the world.
#[derive(Debug, Clone, Copy, PartialEq, Eq, Structural)]
pub enum WorldState {
    Starting,
    WorldStopped,
    Ready,
    Error,
}

/// What is known of the world.
#[derive(Debug, PartialEq, Eq)]
pub struct WorldSnapshot {
    pub state: WorldState,
    pub id: Option<String>,
    pub epoch: u64,
    pub foundry_version: Option<String>,
    pub system_id: Option<String>,
    pub system_version: Option<String>,
    pub is_gm: bool,
}

/// The content of a `WorldSnapshot`.
pub ghost struct Snapshot {
    pub state: WorldState,
    pub id: Option<Seq<char>>,
    pub epoch: u64,
    pub foundry_version: Option<Seq<char>>,
    pub system_id: Option<Seq<char>>,
    pub system_version: Option<Seq<char>>,
    pub is_gm: bool,
}

impl View for WorldSnapshot {
    type V = Snapshot;

    open spec fn view(&self) -> Snapshot {
        Snapshot {
            state: self.state,
            id: text_of(self.id),
            epoch: self.epoch,
            foundry_version: text_of(self.foundry_version),
            system_id: text_of(self.system_id),
            system_version: text_of(self.system_version),
            is_gm: self.is_gm,
        }
    }
}

impl Clone for WorldSnapshot {
    fn clone(&self) -> (r: WorldSnapshot)
        ensures
            r@ == self@,
    {
        WorldSnapshot {
            state: self.state,
            id: copy_text(&self.id),
            epoch: self.epoch,
            foundry_version: copy_text(&self.foundry_version),
            system_id: copy_text(&self.system_id),
            system_version: copy_text(&self.system_version),
            is_gm: self.is_gm,
        }
    }
}

/// A snapshot that says nothing but the state.
pub open spec fn bare(state: WorldState) -> Snapshot {
    Snapshot {
        state,
        id: None,
        epoch: 0,
        foundry_version: None,
        system_id: None,
        system_version: None,
        is_gm: false,
    }
}

impl WorldSnapshot {
    /// What is known before anything is.
    pub fn starting() -> (r: WorldSnapshot)
        ensures
            r@ == bare(WorldState::Starting),
    {
        WorldSnapshot::bare(WorldState::Starting)
    }

    /// A snapshot that says nothing but the state.
    pub fn bare(state: WorldState) -> (r: WorldSnapshot)
        ensures
            r@ == self::bare(state),
    {
        WorldSnapshot {
            state,
            id: None,
            epoch: 0,
            foundry_version: None,
            system_id: None,
            system_version: None,
            is_gm: false,
        }
    }
}

/// What the service asks of a driver. What a driver knows may change between
/// two calls.
pub trait FoundryDriver: Send + Sync {
    fn snapshot(&self) -> (r: WorldSnapshot);

    /// The state in the snapshot.
    fn world_state(&self) -> (r: WorldState)
        ensures
            exists|s: WorldSnapshot|
                call_ensures(Self::snapshot, (self,), s) && #[trigger] s.state == r,
    {
        let s = self.snapshot();
        s.state
    }
}

/// A driver that knows what it was made with.
#[derive(Debug, Clone)]
pub struct FakeDriver {
    snapshot: WorldSnapshot,
}

impl FakeDriver {
    pub closed spec fn known(&self) -> Snapshot {
        self.snapshot@
    }

    pub fn new(state: WorldState) -> (r: FakeDriver)
        ensures
            r.known() == bare(state),
    {
        FakeDriver { snapshot: WorldSnapshot::bare(state) }
    }

    pub fn from_snapshot(snapshot: WorldSnapshot) -> (r: FakeDriver)
        ensures
            r.known() == snapshot@,
    {
        FakeDriver { snapshot }
    }
}

impl FoundryDriver for FakeDriver {
    fn snapshot(&self) -> (r: WorldSnapshot)
        ensures
            r@ == self.known(),
    {
        self.snapshot.clone()
    }
}

#[derive(Debug, Clone, Copy)]
pub enum ConfigError {
    Missing(&'static str),
    Empty(&'static str),
}

/// The content of a `ConfigError`.
pub ghost enum ConfigFault {
    Missing(Seq<char>),
    Empty(Seq<char>),
}

impl View for ConfigError {
    type V = ConfigFault;

    open spec fn view(&self) -> ConfigFault {
        match self {
            ConfigError::Missing(name) => ConfigFault::Missing(name@),
            ConfigError::Empty(name) => ConfigFault::Empty(name@),
        }
    }
}

impl ConfigError {
    /// The text that is shown of the error.
    pub fn message(&self) -> (r: String)
        ensures
            r@ == match self@ {
                ConfigFault::Missing(name) => name + " is not set"@,
                ConfigFault::Empty(name) => name + " is empty"@,
            },
    {
        let mut out = String::new();
        match self {
            ConfigError::Missing(name) => {
                out.append(name);
                out.append(" is not set");
            },
            ConfigError::Empty(name) => {
                out.append(name);
                out.append(" is empty");
            },
        }
        out
    }
}

/// The values of the environment that a driver is configured by.
#[derive(Debug, Default)]
pub struct DriverEnv {
    /// `FOUNDRY_WORLD_BASE_URL`
    pub base_url: Option<String>,
    /// `FOUNDRY_WORLD_API_USER`
    pub api_user: Option<String>,
    /// `FOUNDRY_WORLD_API_PASSWORD_FILE`
    pub password_file: Option<String>,
    /// `FOUNDRY_WORLD_ID`
    pub world_id: Option<String>,
    /// `FOUNDRY_EXPECTED_FOUNDRY_VERSION`
    pub foundry_version: Option<String>,
    /// `FOUNDRY_EXPECTED_SYSTEM_ID`
    pub system_id: Option<String>,
    /// `FOUNDRY_EXPECTED_SYSTEM_VERSION`
    pub system_version: Option<String>,
    /// `FOUNDRY_CHROMIUM`
    pub chromium: Option<String>,
    /// `FOUNDRY_BROWSER_PROFILE_DIR`
    pub profile_dir: Option<String>,
}

#[derive(Debug, Clone)]
pub struct DriverConfig {
    pub base_url: String,
    pub api_user: String,
    pub password_file: String,
    pub world_id: String,
    pub foundry_version: String,
    pub system_id: String,
    pub system_version: String,
    pub chromium: String,
    pub profile_dir: String,
}

/// What speaks against a value that is required.
pub open spec fn value_fault(name: Seq<char>, value: Option<Seq<char>>) -> Option<ConfigFault> {
    match value {
        None => Some(ConfigFault::Missing(name)),
        Some(text) => if crate::text::trim(text).len() == 0 {
            Some(ConfigFault::Empty(name))
        } else {
            None
        },
    }
}

/// What speaks against values that are required: what speaks against the first
/// that is missing or empty.
pub open spec fn values_fault(values: Seq<(Seq<char>, Option<Seq<char>>)>) -> Option<ConfigFault>
    decreases values.len(),
{
    if values.len() == 0 {
        None
    } else {
        match value_fault(values[0].0, values[0].1) {
            Some(fault) => Some(fault),
            None => values_fault(values.drop_first()),
        }
    }
}

impl DriverEnv {
    /// The values that are required, in the order in which they are read.
    pub open spec fn required(self) -> Seq<(Seq<char>, Option<Seq<char>>)> {
        seq![
            ("FOUNDRY_WORLD_BASE_URL"@, text_of(self.base_url)),
            ("FOUNDRY_WORLD_API_USER"@, text_of(self.api_user)),
            ("FOUNDRY_WORLD_API_PASSWORD_FILE"@, text_of(self.password_file)),
            ("FOUNDRY_WORLD_ID"@, text_of(self.world_id)),
            ("FOUNDRY_EXPECTED_FOUNDRY_VERSION"@, text_of(self.foundry_version)),
            ("FOUNDRY_EXPECTED_SYSTEM_ID"@, text_of(self.system_id)),
            ("FOUNDRY_EXPECTED_SYSTEM_VERSION"@, text_of(self.system_version)),
            ("FOUNDRY_CHROMIUM"@, text_of(self.chromium)),
        ]
    }
}

/// Reads a value that is required.
fn required(name: &'static str, value: Option<String>) -> (r: Result<String, ConfigError>)
    ensures
        match r {
            Ok(text) => value_fault(name@, text_of(value)) is None && value == Some(text),
            Err(e) => value_fault(name@, text_of(value)) == Some(e@),
        },
{
    match value {
        None => Err(ConfigError::Missing(name)),
        Some(text) => {
            if trim_text(text.as_str()).is_empty() {
                Err(ConfigError::Empty(name))
            } else {
                Ok(text)
            }
        },
    }
}

impl DriverConfig {
    /// Reads the configuration from the values of the environment. The base URL
    /// loses the slashes that it ends with.
    pub fn from_env(env: DriverEnv) -> (r: Result<DriverConfig, ConfigError>)
        ensures
            match r {
                Ok(config) => {
                    &&& values_fault(env.required()) is None
                    &&& env.base_url is Some
                    &&& config.base_url@ == crate::text::trim_end_char(env.base_url->Some_0@, '/')
                    &&& env.api_user == Some(config.api_user)
                    &&& env.password_file == Some(config.password_file)
                    &&& env.world_id == Some(config.world_id)
                    &&& env.foundry_version == Some(config.foundry_version)
                    &&& env.system_id == Some(config.system_id)
                    &&& env.system_version == Some(config.system_version)
                    &&& env.chromium == Some(config.chromium)
                    &&& config.profile_dir@ == match env.profile_dir {
                        Some(path) => path@,
                        None => "/run/foundry-circle/browser"@,
                    }
                },
                Err(e) => values_fault(env.required()) == Some(e@),
            },
    {
        let ghost all = env.required();
        assert(all.skip(0) == all);
        assert(all.skip(0).drop_first() == all.skip(1));
        let base_url = match required("FOUNDRY_WORLD_BASE_URL", env.base_url) {
            Ok(text) => text,
            Err(e) => return Err(e),
        };
        assert(values_fault(all) == values_fault(all.skip(1)));
        assert(all.skip(1).drop_first() == all.skip(2));
        let api_user = match required("FOUNDRY_WORLD_API_USER", env.api_user) {
            Ok(text) => text,
            Err(e) => return Err(e),
        };
        assert(values_fault(all) == values_fault(all.skip(2)));
        assert(all.skip(2).drop_first() == all.skip(3));
        let password_file = match required("FOUNDRY_WORLD_API_PASSWORD_FILE", env.password_file) {
            Ok(text) => text,
            Err(e) => return Err(e),
        };
        assert(values_fault(all) == values_fault(all.skip(3)));
        assert(all.skip(3).drop_first() == all.skip(4));
        let world_id = match required("FOUNDRY_WORLD_ID", env.world_id) {
            Ok(text) => text,
            Err(e) => return Err(e),
        };
        assert(values_fault(all) == values_fault(all.skip(4)));
        assert(all.skip(4).drop_first() == all.skip(5));
        let foundry_version = match required(
            "FOUNDRY_EXPECTED_FOUNDRY_VERSION",
            env.foundry_version,
        ) {
            Ok(text) => text,
            Err(e) => return Err(e),
        };
        assert(values_fault(all) == values_fault(all.skip(5)));
        assert(all.skip(5).drop_first() == all.skip(6));
        let system_id = match required("FOUNDRY_EXPECTED_SYSTEM_ID", env.system_id) {
            Ok(text) => text,
            Err(e) => return Err(e),
        };
        assert(values_fault(all) == values_fault(all.skip(6)));
        assert(all.skip(6).drop_first() == all.skip(7));
        let system_version = match required("FOUNDRY_EXPECTED_SYSTEM_VERSION", env.system_version) {
            Ok(text) => text,
            Err(e) => return Err(e),
        };
        assert(values_fault(all) == values_fault(all.skip(7)));
        assert(all.skip(7).drop_first() == all.skip(8));
        let chromium = match required("FOUNDRY_CHROMIUM", env.chromium) {
            Ok(text) => text,
            Err(e) => return Err(e),
        };
        assert(values_fault(all) == values_fault(all.skip(8)));
        let profile_dir = match env.profile_dir {
            Some(path) => path,
            None => "/run/foundry-circle/browser".to_owned(),
        };
        let url = chars_of(base_url.as_str());
        Ok(
            DriverConfig {
                base_url: string_of(trimmed_end_char(url.as_slice(), '/')),
                api_user,
                password_file,
                world_id,
                foundry_version,
                system_id,
                system_version,
                chromium,
                profile_dir,
            },
        )
    }

    /// The page on which users join the world.
    pub fn join_page(&self) -> (r: String)
        ensures
            r@ == self.base_url@ + "/join"@,
    {
        let mut out = self.base_url.clone();
        out.append("/join");
        out
    }
}

/// Why a browser session ended.
#[derive(Debug, Clone, Copy, PartialEq, Eq, Structural)]
pub enum Failure {
    WorldStopped,
    Browser,
    Authentication,
    Contract,
}

impl Failure {
    /// The text that is shown of the failure.
    pub fn message(&self) -> (r: &'static str)
        ensures
            r@ == match *self {
                Failure::WorldStopped => "world is stopped"@,
                Failure::Browser => "browser session failed"@,
                Failure::Authentication => "world authentication failed"@,
                Failure::Contract => "world contract mismatch"@,
            },
    {
        match self {
            Failure::WorldStopped => "world is stopped",
            Failure::Browser => "browser session failed",
            Failure::Authentication => "world authentication failed",
            Failure::Contract => "world contract mismatch",
        }
    }
}

/// The password that a session logs in with, from the content of its file.
pub fn session_password(content: &str) -> (r: Result<String, Failure>)
    ensures
        match r {
            Ok(password) => password@ == crate::text::trim(content@) && password@.len() > 0,
            Err(failure) => crate::text::trim(content@).len() == 0 && failure
                == Failure::Authentication,
        },
{
    let password = trim_text(content);
    if password.is_empty() {
        Err(Failure::Authentication)
    } else {
        Ok(password.to_owned())
    }
}

/// What was seen of the page on which users join the world.
#[derive(Debug, Clone, Copy)]
pub struct JoinPageState {
    pub has_form: bool,
    pub no_world: bool,
    pub game_ready: bool,
}

/// What was seen of the world.
#[derive(Debug, Clone)]
pub struct GameState {
    pub ready: bool,
    pub world_id: Option<String>,
    pub foundry_version: Option<String>,
    pub system_id: Option<String>,
    pub system_version: Option<String>,
    pub is_gm: bool,
    pub no_canvas: bool,
    pub no_world: bool,
}

/// What is done while something is waited for.
#[derive(Debug, Clone, Copy, PartialEq, Eq, Structural)]
pub enum WaitStep {
    /// It is there.
    Proceed,
    /// Look again later.
    LookAgain,
    Fail(Failure),
}

/// Decides what follows a look at the page on which users join.
pub fn join_step(state: JoinPageState) -> (r: WaitStep)
    ensures
        r == if state.no_world {
            WaitStep::Fail(Failure::WorldStopped)
        } else if state.game_ready || state.has_form {
            WaitStep::Proceed
        } else {
            WaitStep::LookAgain
        },
{
    if state.no_world {
        WaitStep::Fail(Failure::WorldStopped)
    } else if state.game_ready || state.has_form {
        WaitStep::Proceed
    } else {
        WaitStep::LookAgain
    }
}

/// Whether a wait that has lasted for `waited` goes on.
pub fn wait_step(waited: Duration) -> (r: WaitStep)
    ensures
        r == if waited@ < SESSION_TIMEOUT_SECONDS * 1_000_000_000 {
            WaitStep::LookAgain
        } else {
            WaitStep::Fail(Failure::Authentication)
        },
        r == WaitStep::LookAgain <==> waited@ < 60_000_000_000,
{
    if waited.as_secs() < SESSION_TIMEOUT_SECONDS {
        WaitStep::LookAgain
    } else {
        WaitStep::Fail(Failure::Authentication)
    }
}

/// Whether the world is the one that was expected, seen by a game master.
pub open spec fn keeps_contract(state: GameState, config: DriverConfig) -> bool {
    &&& state.is_gm
    &&& text_of(state.world_id) == Some(config.world_id@)
    &&& text_of(state.foundry_version) == Some(config.foundry_version@)
    &&& text_of(state.system_id) == Some(config.system_id@)
    &&& text_of(state.system_version) == Some(config.system_version@)
}

/// The snapshot of a world that keeps the contract.
pub open spec fn ready_snapshot(config: DriverConfig) -> Snapshot {
    Snapshot {
        state: WorldState::Ready,
        id: Some(config.world_id@),
        epoch: 0,
        foundry_version: Some(config.foundry_version@),
        system_id: Some(config.system_id@),
        system_version: Some(config.system_version@),
        is_gm: true,
    }
}

fn is_text(value: &Option<String>, expected: &str) -> (r: bool)
    ensures
        r == (text_of(*value) == Some(expected@)),
{
    match value {
        Some(text) => same_text(text.as_str(), expected),
        None => false,
    }
}

/// Checks that the world is the one that was expected.
pub fn validate_state(state: &GameState, config: &DriverConfig) -> (r: Result<
    WorldSnapshot,
    Failure,
>)
    ensures
        match r {
            Ok(snapshot) => keeps_contract(*state, *config) && snapshot@ == ready_snapshot(*config),
            Err(failure) => !keeps_contract(*state, *config) && failure == Failure::Contract,
        },
        r is Ok <==> state.is_gm && text_of(state.world_id) == Some(config.world_id@) && text_of(
            state.foundry_version,
        ) == Some(config.foundry_version@) && text_of(state.system_id) == Some(config.system_id@)
            && text_of(state.system_version) == Some(config.system_version@),
        r matches Ok(snapshot) ==> {
            &&& snapshot.state == WorldState::Ready
            &&& snapshot.epoch == 0
            &&& snapshot.is_gm
            &&& text_of(snapshot.id) == text_of(state.world_id)
            &&& text_of(snapshot.foundry_version) == text_of(state.foundry_version)
            &&& text_of(snapshot.system_id) == text_of(state.system_id)
            &&& text_of(snapshot.system_version) == text_of(state.system_version)
        },
{
    if !state.is_gm || !is_text(&state.world_id, config.world_id.as_str()) || !is_text(
        &state.foundry_version,
        config.foundry_version.as_str(),
    ) || !is_text(&state.system_id, config.system_id.as_str()) || !is_text(
        &state.system_version,
        config.system_version.as_str(),
    ) {
        return Err(Failure::Contract);
    }
    Ok(
        WorldSnapshot {
            state: WorldState::Ready,
            id: copy_text(&state.world_id),
            epoch: 0,
            foundry_version: copy_text(&state.foundry_version),
            system_id: copy_text(&state.system_id),
            system_version: copy_text(&state.system_version),
            is_gm: state.is_gm,
        },
    )
}

/// What is done after a look at the world, once the login was submitted.
#[derive(Debug)]
pub enum LoginStep {
    /// Look again later.
    LookAgain,
    /// Turn the canvas off, reload the page, and look again.
    ReloadWithoutCanvas,
    /// Report the world, and watch it from now on.
    Report(WorldSnapshot),
    Fail(Failure),
}

/// Decides what follows a look at the world, once the login was submitted.
/// `reloaded` says whether the page was reloaded to turn the canvas off; that is
/// done once.
pub fn login_step(state: &GameState, config: &DriverConfig, reloaded: bool) -> (r: LoginStep)
    ensures
        match r {
            LoginStep::Fail(failure) => if state.no_world {
                failure == Failure::WorldStopped
            } else {
                state.ready && !keeps_contract(*state, *config) && failure == Failure::Contract
            },
            LoginStep::LookAgain => !state.no_world && !state.ready,
            LoginStep::ReloadWithoutCanvas => {
                &&& !state.no_world
                &&& state.ready
                &&& keeps_contract(*state, *config)
                &&& !state.no_canvas
                &&& !reloaded
            },
            LoginStep::Report(snapshot) => {
                &&& !state.no_world
                &&& state.ready
                &&& keeps_contract(*state, *config)
                &&& state.no_canvas || reloaded
                &&& snapshot@ == ready_snapshot(*config)
            },
        },
{
    if state.no_world {
        return LoginStep::Fail(Failure::WorldStopped);
    }
    if !state.ready {
        return LoginStep::LookAgain;
    }
    match validate_state(state, config) {
        Ok(snapshot) => if !state.no_canvas && !reloaded {
            LoginStep::ReloadWithoutCanvas
        } else {
            LoginStep::Report(snapshot)
        },
        Err(failure) => LoginStep::Fail(failure),
    }
}

/// What is reported after a look at a world that was ready before. Every
/// failure ends the session.
pub fn watch_step(state: &GameState, config: &DriverConfig) -> (r: Result<WorldSnapshot, Failure>)
    ensures
        match r {
            Ok(snapshot) => {
                &&& !state.no_world
                &&& state.ready
                &&& keeps_contract(*state, *config)
                &&& snapshot@ == ready_snapshot(*config)
            },
            Err(failure) => failure == if state.no_world {
                Failure::WorldStopped
            } else if !state.ready {
                Failure::Browser
            } else {
                Failure::Contract
            } && (state.no_world || !state.ready || !keeps_contract(*state, *config)),
        },
{
    if state.no_world {
        return Err(Failure::WorldStopped);
    }
    if !state.ready {
        return Err(Failure::Browser);
    }
    validate_state(state, config)
}

/// The script that chooses a user on the page on which users join. The user is
/// named in it as a JSON text.
pub fn select_user_script(user: &str) -> (r: String)
    ensures
        r@ == "() => { const expected = "@ + crate::json::json_literal(user@)
            + "; const select = document.querySelector(\"select[name='userid']\"); if (!select) return false; const option = [...select.options].find(item => item.textContent.trim() === expected || item.value === expected); if (!option) return false; select.value = option.value; select.dispatchEvent(new Event('change', {bubbles: true})); return true; }"@,
{
    let mut out = "() => { const expected = ".to_owned();
    match json_string(user) {
        Some(literal) => out.append(literal.as_str()),
        None => {},
    }
    out.append(
        "; const select = document.querySelector(\"select[name='userid']\"); if (!select) return false; const option = [...select.options].find(item => item.textContent.trim() === expected || item.value === expected); if (!option) return false; select.value = option.value; select.dispatchEvent(new Event('change', {bubbles: true})); return true; }",
    );
    out
}

/// What follows the script that chooses a user. `chosen` is what it returned.
pub fn user_step(chosen: bool) -> (r: Result<(), Failure>)
    ensures
        r == if chosen {
            Ok::<(), Failure>(())
        } else {
            Err::<(), Failure>(Failure::Authentication)
        },
{
    if chosen {
        Ok(())
    } else {
        Err(Failure::Authentication)
    }
}

/// How far a browser session is.
#[derive(Debug, Clone, Copy, PartialEq, Eq, Structural)]
pub enum SessionState {
    /// The page on which users join is waited for.
    Joining,
    /// The user is being chosen.
    Choosing,
    /// The login was submitted, and the world is waited for.
    LoggingIn { reloaded: bool },
    /// The world is ready, and is watched.
    Watching,
    Ended,
}

/// What a browser session is told.
#[derive(Debug)]
pub enum SessionEvent {
    /// What is waited for did not come in time.
    TimedOut,
    /// What was seen of the page on which users join.
    JoinPage(JoinPageState),
    /// Whether the user was chosen.
    Chosen(bool),
    /// What was seen of the world.
    World(GameState),
}

/// What a browser session does next.
#[derive(Debug)]
pub enum SessionAction {
    /// Pause for so many seconds, and look at the page on which users join.
    LookAtJoinPage(u64),
    /// Choose the user.
    ChooseUser,
    /// Submit the password, and look at the world.
    SubmitPassword,
    /// Pause for so many seconds, and look at the world.
    LookAtWorld(u64),
    /// Turn the canvas off, reload the page, and look at the world.
    ReloadWithoutCanvas,
    /// Report the world, pause for so many seconds, and look at it again.
    Report(WorldSnapshot, u64),
    End(Failure),
}

/// The content of a `SessionAction`.
pub ghost enum SessionMove {
    LookAtJoinPage(u64),
    ChooseUser,
    SubmitPassword,
    LookAtWorld(u64),
    ReloadWithoutCanvas,
    Report(Snapshot, u64),
    End(Failure),
}

impl View for SessionAction {
    type V = SessionMove;

    open spec fn view(&self) -> SessionMove {
        match self {
            SessionAction::LookAtJoinPage(pause) => SessionMove::LookAtJoinPage(*pause),
            SessionAction::ChooseUser => SessionMove::ChooseUser,
            SessionAction::SubmitPassword => SessionMove::SubmitPassword,
            SessionAction::LookAtWorld(pause) => SessionMove::LookAtWorld(*pause),
            SessionAction::ReloadWithoutCanvas => SessionMove::ReloadWithoutCanvas,
            SessionAction::Report(snapshot, pause) => SessionMove::Report(snapshot@, *pause),
            SessionAction::End(failure) => SessionMove::End(*failure),
        }
    }
}

/// Whether an event can come in a state: only what is waited for can be late,
/// and each state looks at its own page.
pub open spec fn session_expects(state: SessionState, event: SessionEvent) -> bool {
    match event {
        SessionEvent::TimedOut => state is Joining || state is LoggingIn,
        SessionEvent::JoinPage(_) => state is Joining,
        SessionEvent::Chosen(_) => state is Choosing,
        SessionEvent::World(_) => state is LoggingIn || state is Watching,
    }
}

/// What a browser session does next, and how far it is then.
pub open spec fn session_next(state: SessionState, event: SessionEvent, config: DriverConfig) -> (
    SessionState,
    SessionMove,
) {
    match event {
        SessionEvent::TimedOut => (
            SessionState::Ended,
            SessionMove::End(Failure::Authentication),
        ),
        SessionEvent::JoinPage(page) => if page.no_world {
            (SessionState::Ended, SessionMove::End(Failure::WorldStopped))
        } else if page.game_ready || page.has_form {
            (SessionState::Choosing, SessionMove::ChooseUser)
        } else {
            (SessionState::Joining, SessionMove::LookAtJoinPage(POLL_SECONDS))
        },
        SessionEvent::Chosen(chosen) => if chosen {
            (SessionState::LoggingIn { reloaded: false }, SessionMove::SubmitPassword)
        } else {
            (SessionState::Ended, SessionMove::End(Failure::Authentication))
        },
        SessionEvent::World(game) => if game.no_world {
            (SessionState::Ended, SessionMove::End(Failure::WorldStopped))
        } else if !game.ready {
            if state == SessionState::Watching {
                (SessionState::Ended, SessionMove::End(Failure::Browser))
            } else {
                (state, SessionMove::LookAtWorld(POLL_SECONDS))
            }
        } else if !keeps_contract(game, config) {
            (SessionState::Ended, SessionMove::End(Failure::Contract))
        } else if !game.no_canvas && state == (SessionState::LoggingIn { reloaded: false }) {
            (SessionState::LoggingIn { reloaded: true }, SessionMove::ReloadWithoutCanvas)
        } else {
            (SessionState::Watching, SessionMove::Report(ready_snapshot(config), WATCH_SECONDS))
        },
    }
}

/// Decides what a browser session does next, and how far it is then.
pub fn session_step(state: SessionState, event: SessionEvent, config: &DriverConfig) -> (r: (
    SessionState,
    SessionAction,
))
    requires
        session_expects(state, event),
    ensures
        (r.0, r.1@) == session_next(state, event, *config),
{
    match event {
        SessionEvent::TimedOut => (
            SessionState::Ended,
            SessionAction::End(Failure::Authentication),
        ),
        SessionEvent::JoinPage(page) => match join_step(page) {
            WaitStep::Proceed => (SessionState::Choosing, SessionAction::ChooseUser),
            WaitStep::LookAgain => (
                SessionState::Joining,
                SessionAction::LookAtJoinPage(POLL_SECONDS),
            ),
            WaitStep::Fail(failure) => (SessionState::Ended, SessionAction::End(failure)),
        },
        SessionEvent::Chosen(chosen) => match user_step(chosen) {
            Ok(()) => (
                SessionState::LoggingIn { reloaded: false },
                SessionAction::SubmitPassword,
            ),
            Err(failure) => (SessionState::Ended, SessionAction::End(failure)),
        },
        SessionEvent::World(game) => match state {
            SessionState::LoggingIn { reloaded } => match login_step(&game, config, reloaded) {
                LoginStep::LookAgain => (state, SessionAction::LookAtWorld(POLL_SECONDS)),
                LoginStep::ReloadWithoutCanvas => (
                    SessionState::LoggingIn { reloaded: true },
                    SessionAction::ReloadWithoutCanvas,
                ),
                LoginStep::Report(snapshot) => (
                    SessionState::Watching,
                    SessionAction::Report(snapshot, WATCH_SECONDS),
                ),
                LoginStep::Fail(failure) => (SessionState::Ended, SessionAction::End(failure)),
            },
            _ => match watch_step(&game, config) {
                Ok(snapshot) => (
                    SessionState::Watching,
                    SessionAction::Report(snapshot, WATCH_SECONDS),
                ),
                Err(failure) => (SessionState::Ended, SessionAction::End(failure)),
            },
        },
    }
}

/// The world is reported only while it is the one that was expected and a game
/// master sees it, and what is reported of it is what was expected.
pub proof fn lemma_only_the_expected_world_is_reported(
    state: SessionState,
    event: SessionEvent,
    config: DriverConfig,
)
    requires
        session_expects(state, event),
        session_next(state, event, config).1 is Report,
    ensures
        event matches SessionEvent::World(game) && game.ready && !game.no_world && keeps_contract(
            game,
            config,
        ),
        session_next(state, event, config).1->Report_0 == ready_snapshot(config),
{
}

/// The page is reloaded at most once: after that the session never comes back
/// to where it would be.
pub proof fn lemma_page_is_reloaded_once(
    state: SessionState,
    event: SessionEvent,
    config: DriverConfig,
)
    requires
        session_expects(state, event),
        state == (SessionState::LoggingIn { reloaded: true }) || state == SessionState::Watching,
    ensures
        !(session_next(state, event, config).1 is ReloadWithoutCanvas),
        ({
            let next = session_next(state, event, config).0;
            next == (SessionState::LoggingIn { reloaded: true }) || next == SessionState::Watching
                || next == SessionState::Ended
        }),
{
}

/// The supervisor of browser sessions: how long it pauses between two of them.
#[derive(Debug)]
pub struct Supervisor {
    backoff: u64,
}

/// The shortest pause, in seconds.
pub const MIN_BACKOFF: u64 = 5;

/// The pause after a world was found stopped, in seconds.
pub const STOPPED_BACKOFF: u64 = 15;

/// The longest pause, in seconds.
pub const MAX_BACKOFF: u64 = 60;

/// The pause after a session, where `backoff` was planned.
pub open spec fn session_pause(backoff: u64, outcome: Result<(), Failure>) -> u64 {
    match outcome {
        Ok(()) => MIN_BACKOFF,
        Err(Failure::WorldStopped) => STOPPED_BACKOFF,
        Err(_) => backoff,
    }
}

/// What is planned after a pause: twice as long, up to the longest.
pub open spec fn planned_after(pause: u64) -> u64 {
    if pause * 2 > MAX_BACKOFF {
        MAX_BACKOFF
    } else {
        (pause * 2) as u64
    }
}

/// What is reported after a session, where that is not what it reported itself.
pub open spec fn report_after(outcome: Result<(), Failure>) -> Option<Snapshot> {
    match outcome {
        Ok(()) => None,
        Err(Failure::WorldStopped) => Some(bare(WorldState::WorldStopped)),
        Err(_) => Some(bare(WorldState::Error)),
    }
}

impl Supervisor {
    #[verifier::type_invariant]
    spec fn bounded(self) -> bool {
        MIN_BACKOFF <= self.backoff <= MAX_BACKOFF
    }

    /// The pause that is planned, in seconds.
    pub closed spec fn planned(&self) -> u64 {
        self.backoff
    }

    pub fn new() -> (r: Supervisor)
        ensures
            r.planned() == MIN_BACKOFF,
    {
        Supervisor { backoff: MIN_BACKOFF }
    }

    /// What is reported after a session, if anything, and how many seconds to
    /// pause before the next.
    pub fn after_session(&mut self, outcome: Result<(), Failure>) -> (r: (
        Option<WorldSnapshot>,
        u64,
    ))
        ensures
            match (r.0, report_after(outcome)) {
                (Some(snapshot), Some(report)) => snapshot@ == report,
                (None, None) => true,
                _ => false,
            },
            r.1 == session_pause(old(self).planned(), outcome),
            final(self).planned() == planned_after(r.1),
            MIN_BACKOFF <= r.1 <= MAX_BACKOFF,
    {
        proof {
            use_type_invariant(&*self);
        }
        let planned: u64 = self.backoff;
        let (report, pause): (Option<WorldSnapshot>, u64) = match outcome {
            Ok(()) => (None, MIN_BACKOFF),
            Err(Failure::WorldStopped) => (
                Some(WorldSnapshot::bare(WorldState::WorldStopped)),
                STOPPED_BACKOFF,
            ),
            Err(_) => (Some(WorldSnapshot::bare(WorldState::Error)), planned),
        };
        let next: u64 = if pause * 2 > MAX_BACKOFF {
            MAX_BACKOFF
        } else {
            pause * 2
        };
        self.backoff = next;
        (report, pause)
    }
}

/// Once a session ended, the world is not reported as ready.
pub proof fn lemma_end_of_session_is_not_ready(outcome: Result<(), Failure>)
    ensures
        report_after(outcome) matches Some(snapshot) ==> snapshot.state != WorldState::Ready
            && !snapshot.is_gm,
{
}

/// The pauses between sessions that fail: they double, and stay within bounds.
pub proof fn lemma_pauses_are_bounded(backoff: u64, outcome: Result<(), Failure>)
    requires
        MIN_BACKOFF <= backoff <= MAX_BACKOFF,
    ensures
        MIN_BACKOFF <= session_pause(backoff, outcome) <= MAX_BACKOFF,
        MIN_BACKOFF <= planned_after(session_pause(backoff, outcome)) <= MAX_BACKOFF,
        planned_after(session_pause(backoff, outcome)) >= session_pause(backoff, outcome),
{
}

/// A world that is up and ready is reported exactly where a game master sees it
/// and each of the four values that were expected is the one that was seen; what
/// is reported is what was seen. Anything else is a breach of the contract.
pub proof fn lemma_watched_world(game: GameState, config: DriverConfig)
    requires
        game.ready,
        !game.no_world,
    ensures
        ({
            let next = session_next(SessionState::Watching, SessionEvent::World(game), config);
            if game.is_gm && text_of(game.world_id) == Some(config.world_id@) && text_of(
                game.foundry_version,
            ) == Some(config.foundry_version@) && text_of(game.system_id) == Some(
                config.system_id@,
            ) && text_of(game.system_version) == Some(config.system_version@) {
                next == (
                    SessionState::Watching,
                    SessionMove::Report(
                        Snapshot {
                            state: WorldState::Ready,
                            id: text_of(game.world_id),
                            epoch: 0,
                            foundry_version: text_of(game.foundry_version),
                            system_id: text_of(game.system_id),
                            system_version: text_of(game.system_version),
                            is_gm: true,
                        },
                        10,
                    ),
                )
            } else {
                next == (SessionState::Ended, SessionMove::End(Failure::Contract))
            }
        }),
{
}

/// A world is accepted exactly where a game master sees it and each of the four
/// values that were expected is the one that was seen, and the snapshot of it
/// holds what was seen.
pub proof fn lemma_expected_world(state: GameState, config: DriverConfig)
    ensures
        keeps_contract(state, config) <==> state.is_gm && text_of(state.world_id) == Some(
            config.world_id@,
        ) && text_of(state.foundry_version) == Some(config.foundry_version@) && text_of(
            state.system_id,
        ) == Some(config.system_id@) && text_of(state.system_version) == Some(
            config.system_version@,
        ),
        keeps_contract(state, config) ==> {
            let snapshot = ready_snapshot(config);
            &&& snapshot.state == WorldState::Ready
            &&& snapshot.id == text_of(state.world_id)
            &&& snapshot.epoch == 0
            &&& snapshot.foundry_version == text_of(state.foundry_version)
            &&& snapshot.system_id == text_of(state.system_id)
            &&& snapshot.system_version == text_of(state.system_version)
            &&& snapshot.is_gm == state.is_gm
        },
{
}

/// While the world is waited for, it is reported only where it would be reported
/// while it is watched; the page is reloaded first where the canvas is on and
/// that was not tried yet, and a world that is not ready is looked at again.
pub proof fn lemma_logging_in(game: GameState, config: DriverConfig, reloaded: bool)
    ensures
        ({
            let state = SessionState::LoggingIn { reloaded };
            let event = SessionEvent::World(game);
            let next = session_next(state, event, config);
            let watched = session_next(SessionState::Watching, event, config);
            &&& game.no_world ==> next == (
                SessionState::Ended,
                SessionMove::End(Failure::WorldStopped),
            )
            &&& !game.no_world && !game.ready ==> next == (state, SessionMove::LookAtWorld(2))
            &&& !game.no_world && game.ready && !(watched.1 is Report) ==> next == watched
            &&& !game.no_world && game.ready && watched.1 is Report && (game.no_canvas || reloaded)
                ==> next == watched
            &&& !game.no_world && game.ready && watched.1 is Report && !game.no_canvas && !reloaded
                ==> next == (
                SessionState::LoggingIn { reloaded: true },
                SessionMove::ReloadWithoutCanvas,
            )
        }),
{
}

/// A world that stops, or is no longer ready, ends the watch.
pub proof fn lemma_watch_ends(game: GameState, config: DriverConfig)
    ensures
        game.no_world ==> session_next(
            SessionState::Watching,
            SessionEvent::World(game),
            config,
        ) == (SessionState::Ended, SessionMove::End(Failure::WorldStopped)),
        !game.no_world && !game.ready ==> session_next(
            SessionState::Watching,
            SessionEvent::World(game),
            config,
        ) == (SessionState::Ended, SessionMove::End(Failure::Browser)),
{
}

/// A session goes from the page on which users join to the choice of the user,
/// and from there to the login; what does not come in time, or a user that is
/// not there, ends it.
pub proof fn lemma_way_to_the_login(page: JoinPageState, state: SessionState, config: DriverConfig)
    ensures
        session_next(state, SessionEvent::TimedOut, config) == (
            SessionState::Ended,
            SessionMove::End(Failure::Authentication),
        ),
        ({
            let next = session_next(SessionState::Joining, SessionEvent::JoinPage(page), config);
            &&& page.no_world ==> next == (
                SessionState::Ended,
                SessionMove::End(Failure::WorldStopped),
            )
            &&& !page.no_world && page.has_form ==> next == (
                SessionState::Choosing,
                SessionMove::ChooseUser,
            )
            &&& !page.no_world && page.game_ready ==> next == (
                SessionState::Choosing,
                SessionMove::ChooseUser,
            )
            &&& !page.no_world && !page.has_form && !page.game_ready ==> next == (
                SessionState::Joining,
                SessionMove::LookAtJoinPage(2),
            )
        }),
        session_next(SessionState::Choosing, SessionEvent::Chosen(true), config) == (
            SessionState::LoggingIn { reloaded: false },
            SessionMove::SubmitPassword,
        ),
        session_next(SessionState::Choosing, SessionEvent::Chosen(false), config) == (
            SessionState::Ended,
            SessionMove::End(Failure::Authentication),
        ),
{
}

/// What is said of required values is said of the first that is missing or
/// blank, and nothing is said where there is no such value.
pub proof fn lemma_first_bad_value(values: Seq<(Seq<char>, Option<Seq<char>>)>, n: int)
    requires
        0 <= n <= values.len(),
        forall|i: int|
            0 <= i < n ==> (#[trigger] values[i]).1 is Some && crate::text::trim(
                values[i].1->0,
            ).len() > 0,
    ensures
        n == values.len() ==> values_fault(values) is None,
        n < values.len() && values[n].1 is None ==> values_fault(values) == Some(
            ConfigFault::Missing(values[n].0),
        ),
        n < values.len() && values[n].1 is Some && crate::text::trim(values[n].1->0).len() == 0
            ==> values_fault(values) == Some(ConfigFault::Empty(values[n].0)),
    decreases n,
{
    if n > 0 {
        let rest = values.drop_first();
        assert(values[0].1 is Some);
        assert forall|i: int| 0 <= i < n - 1 implies (#[trigger] rest[i]).1 is Some
            && crate::text::trim(rest[i].1->0).len() > 0 by {
            assert(rest[i] == values[i + 1]);
        }
        lemma_first_bad_value(rest, n - 1);
        if n < values.len() {
            assert(rest[n - 1] == values[n]);
        }
    }
}

/// The values without which there is no configuration, by the names under which
/// the environment gives them.
pub proof fn lemma_required_values(env: DriverEnv)
    ensures
        env.required().len() == 8,
        env.required()[0] == ("FOUNDRY_WORLD_BASE_URL"@, text_of(env.base_url)),
        env.required()[1] == ("FOUNDRY_WORLD_API_USER"@, text_of(env.api_user)),
        env.required()[2] == ("FOUNDRY_WORLD_API_PASSWORD_FILE"@, text_of(env.password_file)),
        env.required()[3] == ("FOUNDRY_WORLD_ID"@, text_of(env.world_id)),
        env.required()[4] == ("FOUNDRY_EXPECTED_FOUNDRY_VERSION"@, text_of(env.foundry_version)),
        env.required()[5] == ("FOUNDRY_EXPECTED_SYSTEM_ID"@, text_of(env.system_id)),
        env.required()[6] == ("FOUNDRY_EXPECTED_SYSTEM_VERSION"@, text_of(env.system_version)),
        env.required()[7] == ("FOUNDRY_CHROMIUM"@, text_of(env.chromium)),
        values_fault(env.required()) is None <==> forall|i: int|
            0 <= i < 8 ==> (#[trigger] env.required()[i]).1 is Some && crate::text::trim(
                env.required()[i].1->0,
            ).len() > 0,
{
    lemma_bad_value(env.required());
}

/// A fault of required values comes from one that is missing or blank.
proof fn lemma_bad_value(values: Seq<(Seq<char>, Option<Seq<char>>)>)
    ensures
        values_fault(values) is None <==> forall|i: int|
            0 <= i < values.len() ==> (#[trigger] values[i]).1 is Some && crate::text::trim(
                values[i].1->0,
            ).len() > 0,
    decreases values.len(),
{
    if values.len() > 0 {
        let rest = values.drop_first();
        lemma_bad_value(rest);
        assert(forall|i: int| 0 <= i < rest.len() ==> #[trigger] rest[i] == values[i + 1]);
        assert(forall|i: int| 1 <= i < values.len() ==> #[trigger] values[i] == rest[i - 1]);
    }
}

/// The pauses between sessions: five seconds after one that ended well, fifteen
/// after a stopped world, and after any other failure the pause that was planned,
/// which is twice the last one and at most a minute.
pub proof fn lemma_pauses_between_sessions(backoff: u64, failure: Failure)
    ensures
        session_pause(backoff, Ok(())) == 5,
        session_pause(backoff, Err(Failure::WorldStopped)) == 15,
        failure != Failure::WorldStopped ==> session_pause(backoff, Err(failure)) == backoff,
        backoff <= 30 ==> planned_after(backoff) == 2 * backoff,
        backoff >= 30 ==> planned_after(backoff) == 60,
{
}

/// A session that fails leaves a snapshot that says so and nothing else; one
/// that ends well leaves what it reported itself.
pub proof fn lemma_reports_after_sessions(failure: Failure)
    ensures
        report_after(Ok(())) is None,
        report_after(Err(failure)) == Some(
            Snapshot {
                state: if failure == Failure::WorldStopped {
                    WorldState::WorldStopped
                } else {
                    WorldState::Error
                },
                id: None,
                epoch: 0,
                foundry_version: None,
                system_id: None,
                system_version: None,
                is_gm: false,
            },
        ),
{
}

/// Checking a world accepts it exactly where a game master sees it and each of
/// the four values that were expected is the one that was seen, and gives a
/// snapshot of what was seen.
pub proof fn lemma_validated_worlds(
    state: &GameState,
    config: &DriverConfig,
    r: Result<WorldSnapshot, Failure>,
)
    requires
        call_ensures(validate_state, (state, config), r),
    ensures
        r is Ok <==> state.is_gm && text_of(state.world_id) == Some(config.world_id@) && text_of(
            state.foundry_version,
        ) == Some(config.foundry_version@) && text_of(state.system_id) == Some(config.system_id@)
            && text_of(state.system_version) == Some(config.system_version@),
        r matches Err(failure) ==> failure == Failure::Contract,
        r matches Ok(snapshot) ==> {
            &&& snapshot.state == WorldState::Ready
            &&& snapshot.epoch == 0
            &&& snapshot.is_gm
            &&& text_of(snapshot.id) == text_of(state.world_id)
            &&& text_of(snapshot.foundry_version) == text_of(state.foundry_version)
            &&& text_of(snapshot.system_id) == text_of(state.system_id)
            &&& text_of(snapshot.system_version) == text_of(state.system_version)
        },
{
}

/// A password is what is left of its file without the white space around it, and
/// a file with nothing else holds none.
pub proof fn lemma_session_passwords(content: &str, r: Result<String, Failure>)
    requires
        call_ensures(session_password, (content,), r),
    ensures
        r is Ok <==> exists|i: int|
            0 <= i < content@.len() && !crate::text::is_white(#[trigger] content@[i]),
        r matches Ok(password) ==> password@.len() > 0 && !crate::text::is_white(password@[0])
            && !crate::text::is_white(password@.last()) && crate::text::has_text(
            content@,
            password@,
        ),
        r matches Err(failure) ==> failure == Failure::Authentication,
{
    let text = content@;
    let kept = crate::text::trim(text);
    crate::text::lemma_trim_cut(text);
    let at = choose|i: int| #[trigger]
        crate::text::occurs_at(text, kept, i) && (forall|k: int|
            0 <= k < i ==> crate::text::is_white(#[trigger] text[k])) && (forall|k: int|
            i + kept.len() <= k < text.len() ==> crate::text::is_white(#[trigger] text[k]));
    if kept.len() > 0 {
        assert(text.subrange(at, at + kept.len())[0] == kept[0]);
        assert(!crate::text::is_white(text[at]));
    } else {
        assert forall|i: int| 0 <= i < text.len() implies crate::text::is_white(
            #[trigger] text[i],
        ) by {}
    }
}

/// Something is waited for less than a minute.
pub proof fn lemma_waits(waited: Duration, r: WaitStep)
    requires
        call_ensures(wait_step, (waited,), r),
    ensures
        waited@ < 60_000_000_000 ==> r == WaitStep::LookAgain,
        waited@ >= 60_000_000_000 ==> r == WaitStep::Fail(Failure::Authentication),
{
}

/// A configuration holds the values of the environment as they are, but for the
/// slashes at the end of the base URL and the usual profile directory.
pub proof fn lemma_configurations(env: DriverEnv, r: Result<DriverConfig, ConfigError>)
    requires
        call_ensures(DriverConfig::from_env, (env,), r),
    ensures
        r matches Ok(config) ==> {
            &&& env.base_url is Some && env.api_user is Some && env.password_file is Some
                && env.world_id is Some && env.foundry_version is Some && env.system_id is Some
                && env.system_version is Some && env.chromium is Some
            &&& config.base_url@.len() > 0 ==> config.base_url@.last() != '/'
            &&& config.base_url@.is_prefix_of(env.base_url->0@)
            &&& config.api_user@ == env.api_user->0@
            &&& config.password_file@ == env.password_file->0@
            &&& config.world_id@ == env.world_id->0@
            &&& config.foundry_version@ == env.foundry_version->0@
            &&& config.system_id@ == env.system_id->0@
            &&& config.system_version@ == env.system_version->0@
            &&& config.chromium@ == env.chromium->0@
            &&& env.profile_dir is Some ==> config.profile_dir@ == env.profile_dir->0@
            &&& env.profile_dir is None ==> config.profile_dir@ == "/run/foundry-circle/browser"@
        },
        env.base_url is None ==> (r matches Err(e) && e@ == ConfigFault::Missing(
            "FOUNDRY_WORLD_BASE_URL"@,
        )),
{
    if let Ok(config) = r {
        crate::text::lemma_trim_end_char_cut(env.base_url->0@, '/');
    }
    if env.base_url is None {
        lemma_first_bad_value(env.required(), 0);
    }
}

}
