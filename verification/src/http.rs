//! The HTTP interface of the service: what its endpoints answer, and when the
//! database is connected.
use vstd::prelude::*;

use crate::auth::Principal;
use crate::driver::{Snapshot, WorldSnapshot, WorldState};
use crate::text::{copy_text, text_of, trim_text};

verus! {

/// How often the database is looked after, in seconds.
pub const DATABASE_SECONDS: u64 = 5;

/// The trimmed text, where there is anything in it.
pub open spec fn filled_text(text: Option<Seq<char>>) -> Option<Seq<char>> {
    match text {
        Some(text) => if crate::text::trim(text).len() == 0 {
            None
        } else {
            Some(crate::text::trim(text))
        },
        None => None,
    }
}

fn filled(text: &Option<String>) -> (r: Option<String>)
    ensures
        text_of(r) == filled_text(text_of(*text)),
{
    match text {
        Some(text) => {
            let inner = trim_text(text.as_str());
            if inner.is_empty() {
                None
            } else {
                Some(inner.to_owned())
            }
        },
        None => None,
    }
}

/// The URL of the database: the one that is given, or else the content of the
/// file that holds it. `content` is that content, where it could be read.
pub fn database_url(url: &Option<String>, content: &Option<String>) -> (r: Option<String>)
    ensures
        text_of(r) == match filled_text(text_of(*url)) {
            Some(url) => Some(url),
            None => filled_text(text_of(*content)),
        },
{
    match filled(url) {
        Some(url) => Some(url),
        None => filled(content),
    }
}

/// What is done about the database.
#[derive(Debug)]
pub enum DatabaseStep {
    /// It is asked whether it is still there.
    Probe,
    /// It is connected to.
    Connect(String),
    /// There is nothing to connect to.
    Wait,
}

/// Decides what is done about the database. `connected` says whether there is a
/// connection.
pub fn supervise(connected: bool, url: &Option<String>, content: &Option<String>) -> (r:
    DatabaseStep)
    ensures
        ({
            let target = match filled_text(text_of(*url)) {
                Some(url) => Some(url),
                None => filled_text(text_of(*content)),
            };
            match r {
                DatabaseStep::Probe => connected,
                DatabaseStep::Connect(url) => !connected && target == Some(url@),
                DatabaseStep::Wait => !connected && target is None,
            }
        }),
{
    if connected {
        DatabaseStep::Probe
    } else {
        match database_url(url, content) {
            Some(url) => DatabaseStep::Connect(url),
            None => DatabaseStep::Wait,
        }
    }
}

/// Whether there is a connection to the database after a step. `success` says
/// whether it answered, or was connected to and set up.
pub fn stays_connected(step: &DatabaseStep, success: bool) -> (r: bool)
    ensures
        r == (!(*step is Wait) && success),
{
    match step {
        DatabaseStep::Probe => success,
        DatabaseStep::Connect(_) => success,
        DatabaseStep::Wait => false,
    }
}

/// What the readiness endpoint answers.
#[derive(Debug, Clone, Copy, PartialEq, Eq, Structural)]
pub struct Readiness {
    pub status: u16,
    pub state: WorldState,
    pub database: bool,
    pub ready: bool,
}

/// The service is ready where both the world and the database are.
pub fn readyz(state: WorldState, database: bool) -> (r: Readiness)
    ensures
        r.state == state,
        r.database == database,
        r.ready == (state == WorldState::Ready && database),
        r.status == if r.ready {
            200u16
        } else {
            503u16
        },
{
    let ready = state == WorldState::Ready && database;
    let status: u16 = if ready {
        200
    } else {
        503
    };
    Readiness { status, state, database, ready }
}

/// The world as it is described to users.
#[derive(Debug, Clone)]
pub struct WorldDescriptor {
    pub id: String,
    pub epoch: u64,
    pub state: WorldState,
    pub foundry_version: Option<String>,
    pub system_id: Option<String>,
    pub system_version: Option<String>,
    pub is_gm: bool,
}

/// Whether a descriptor describes a snapshot. A world without an id is called
/// `active`.
pub open spec fn describes(descriptor: WorldDescriptor, snapshot: Snapshot) -> bool {
    &&& descriptor.id@ == match snapshot.id {
        Some(id) => id,
        None => "active"@,
    }
    &&& descriptor.epoch == snapshot.epoch
    &&& descriptor.state == snapshot.state
    &&& text_of(descriptor.foundry_version) == snapshot.foundry_version
    &&& text_of(descriptor.system_id) == snapshot.system_id
    &&& text_of(descriptor.system_version) == snapshot.system_version
    &&& descriptor.is_gm == snapshot.is_gm
}

/// What the world endpoint answers: the status, an error where the world is not
/// ready, and the description of the world.
pub fn world(snapshot: &WorldSnapshot) -> (r: (u16, Option<&'static str>, WorldDescriptor))
    ensures
        describes(r.2, snapshot@),
        match r.1 {
            None => snapshot.state == WorldState::Ready && r.0 == 200,
            Some(error) => snapshot.state != WorldState::Ready && r.0 == 503 && error@
                == "world_not_ready"@,
        },
{
    let id = match copy_text(&snapshot.id) {
        Some(id) => id,
        None => "active".to_owned(),
    };
    let descriptor = WorldDescriptor {
        id,
        epoch: snapshot.epoch,
        state: snapshot.state,
        foundry_version: copy_text(&snapshot.foundry_version),
        system_id: copy_text(&snapshot.system_id),
        system_version: copy_text(&snapshot.system_version),
        is_gm: snapshot.is_gm,
    };
    if snapshot.state == WorldState::Ready {
        (200, None, descriptor)
    } else {
        (503, Some("world_not_ready"), descriptor)
    }
}

/// What the service can do.
#[derive(Debug, Clone)]
pub struct Capabilities {
    pub collections: Vec<&'static str>,
    pub commands: Vec<&'static str>,
    pub supports_events: bool,
    pub supports_json_patch: bool,
}

/// The contents of names.
pub open spec fn names(list: Seq<&'static str>) -> Seq<Seq<char>> {
    list.map_values(|s: &'static str| s@)
}

/// What the service can do.
pub fn capabilities() -> (r: Capabilities)
    ensures
        names(r.collections@) == seq![
            "actors"@,
            "scenes"@,
            "messages"@,
            "playlists"@,
            "tables"@,
        ],
        names(r.commands@) == seq![
            "chat.create"@,
            "dice.roll"@,
            "scene.activate"@,
            "combat.update"@,
            "playlist.control"@,
        ],
        r.supports_events,
        r.supports_json_patch,
{
    let collections: Vec<&'static str> = vec!["actors", "scenes", "messages", "playlists", "tables"];
    let commands: Vec<&'static str> = vec![
        "chat.create",
        "dice.roll",
        "scene.activate",
        "combat.update",
        "playlist.control",
    ];
    assert(names(collections@) =~= seq![
        "actors"@,
        "scenes"@,
        "messages"@,
        "playlists"@,
        "tables"@,
    ]);
    assert(names(commands@) =~= seq![
        "chat.create"@,
        "dice.roll"@,
        "scene.activate"@,
        "combat.update"@,
        "playlist.control"@,
    ]);
    Capabilities { collections, commands, supports_events: true, supports_json_patch: true }
}

/// What the document endpoint answers: the status and the error. No documents
/// are handed out yet.
pub fn document(state: WorldState) -> (r: (u16, &'static str))
    ensures
        if state == WorldState::Ready {
            r.0 == 501 && r.1@ == "driver_contract_pending"@
        } else {
            r.0 == 503 && r.1@ == "world_not_ready"@
        },
{
    if state == WorldState::Ready {
        (501, "driver_contract_pending")
    } else {
        (503, "world_not_ready")
    }
}

/// A command that someone asks for. The payload is JSON.
#[derive(Debug)]
pub struct CommandRequest {
    pub command: String,
    pub payload: String,
    pub idempotency_key: Option<String>,
}

/// What the command endpoint answers. The command is repeated where it would be
/// carried out.
#[derive(Debug)]
pub struct CommandAnswer {
    pub status: u16,
    pub error: &'static str,
    pub command: Option<String>,
}

/// Decides about a command. `admin_group` is the group of administrators, where
/// logins are configured. Only an administrator gets as far as the world, and
/// only a ready world as far as the command, which is not carried out yet.
pub fn command(
    request: CommandRequest,
    principal: &Principal,
    admin_group: Option<&str>,
    state: WorldState,
) -> (r: CommandAnswer)
    ensures
        match admin_group {
            None => r.status == 503 && r.error@ == "oidc_not_configured"@ && r.command is None,
            Some(group) => if !crate::auth::in_group(principal.groups@, group@) {
                r.status == 403 && r.error@ == "admin_required"@ && r.command is None
            } else if state != WorldState::Ready {
                r.status == 503 && r.error@ == "world_not_ready"@ && r.command is None
            } else {
                r.status == 501 && r.error@ == "driver_contract_pending"@ && r.command == Some(
                    request.command,
                )
            },
        },
{
    let group = match admin_group {
        Some(group) => group,
        None => return CommandAnswer {
            status: 503,
            error: "oidc_not_configured",
            command: None,
        },
    };
    if !principal.is_admin(group) {
        return CommandAnswer { status: 403, error: "admin_required", command: None };
    }
    if state != WorldState::Ready {
        return CommandAnswer { status: 503, error: "world_not_ready", command: None };
    }
    CommandAnswer { status: 501, error: "driver_contract_pending", command: Some(request.command) }
}

/// A text counts where anything in it is not white space, and then without the
/// white space around it.
pub proof fn lemma_filled_texts(text: Seq<char>)
    ensures
        filled_text(None) is None,
        filled_text(Some(text)) is None <==> forall|i: int|
            0 <= i < text.len() ==> crate::text::is_white(#[trigger] text[i]),
        filled_text(Some(text)) matches Some(inner) ==> inner.len() > 0 && !crate::text::is_white(
            inner[0],
        ) && !crate::text::is_white(inner.last()) && crate::text::has_text(text, inner),
{
    let kept = crate::text::trim(text);
    crate::text::lemma_trim_cut(text);
    let at = choose|i: int| #[trigger]
        crate::text::occurs_at(text, kept, i) && (forall|k: int|
            0 <= k < i ==> crate::text::is_white(#[trigger] text[k])) && (forall|k: int|
            i + kept.len() <= k < text.len() ==> crate::text::is_white(#[trigger] text[k]));
    if kept.len() > 0 {
        assert(text.subrange(at, at + kept.len())[0] == kept[0]);
        assert(!crate::text::is_white(text[at]));
    } else {
        assert forall|i: int| 0 <= i < text.len() implies crate::text::is_white(
            #[trigger] text[i],
        ) by {}
    }
}

/// The service is ready exactly where the world and the database are, and says
/// so with its status.
pub proof fn lemma_readiness(state: WorldState, database: bool, r: Readiness)
    requires
        call_ensures(readyz, (state, database), r),
    ensures
        r.status == 200 <==> state is Ready && database,
        r.status == 503 <==> !(state is Ready && database),
        r.ready <==> r.status == 200,
        r.state == state && r.database == database,
{
}

/// The database is asked after while it is connected, connected to while it is
/// not and there is a URL, and waited for otherwise. A URL that is given counts
/// before the one in the file.
pub proof fn lemma_database_steps(
    connected: bool,
    url: &Option<String>,
    content: &Option<String>,
    step: DatabaseStep,
)
    requires
        call_ensures(supervise, (connected, url, content), step),
    ensures
        connected <==> step is Probe,
        step is Wait <==> !connected && filled_text(text_of(*url)) is None && filled_text(
            text_of(*content),
        ) is None,
        step matches DatabaseStep::Connect(to) ==> {
            &&& filled_text(text_of(*url)) is Some ==> Some(to@) == filled_text(text_of(*url))
            &&& filled_text(text_of(*url)) is None ==> Some(to@) == filled_text(text_of(*content))
        },
{
}

/// There is a connection after a step exactly where it was asked for or after,
/// and that succeeded.
pub proof fn lemma_connections(step: &DatabaseStep, success: bool, r: bool)
    requires
        call_ensures(stays_connected, (step, success), r),
    ensures
        *step is Wait ==> !r,
        !(*step is Wait) ==> r == success,
{
}

/// The world is described as it is, and with an error unless it is ready.
pub proof fn lemma_described_worlds(
    snapshot: &WorldSnapshot,
    r: (u16, Option<&'static str>, WorldDescriptor),
)
    requires
        call_ensures(world, (snapshot,), r),
    ensures
        r.0 == 200 <==> snapshot.state is Ready,
        r.0 == 503 <==> !(snapshot.state is Ready),
        r.1 is None <==> snapshot.state is Ready,
        r.2.state == snapshot.state,
        r.2.epoch == snapshot.epoch,
        r.2.is_gm == snapshot.is_gm,
        snapshot.id matches Some(id) ==> r.2.id@ == id@,
        snapshot.id is None ==> r.2.id@ == "active"@,
        text_of(r.2.foundry_version) == text_of(snapshot.foundry_version),
        text_of(r.2.system_id) == text_of(snapshot.system_id),
        text_of(r.2.system_version) == text_of(snapshot.system_version),
{
}

/// No command is carried out, and only an administrator's, in a ready world, is
/// repeated in the answer: without configured logins nobody is one, and who is
/// not in the group is refused whatever the world does.
pub proof fn lemma_commands(
    request: CommandRequest,
    principal: &Principal,
    admin_group: Option<&str>,
    state: WorldState,
    r: CommandAnswer,
)
    requires
        call_ensures(command, (request, principal, admin_group, state), r),
    ensures
        r.command is Some <==> admin_group is Some && crate::auth::texts(
            principal.groups@,
        ).contains(admin_group->0@) && state is Ready,
        r.command matches Some(command) ==> command == request.command && r.status == 501,
        admin_group is None ==> r.status == 503,
        admin_group is Some && !crate::auth::texts(principal.groups@).contains(admin_group->0@)
            ==> r.status == 403,
        admin_group is Some && crate::auth::texts(principal.groups@).contains(admin_group->0@) && !(
        state is Ready) ==> r.status == 503,
{
    if let Some(group) = admin_group {
        crate::auth::lemma_groups(principal.groups@, group@);
    }
}

/// No document is handed out: a ready world says that it has none yet.
pub proof fn lemma_documents(state: WorldState, r: (u16, &'static str))
    requires
        call_ensures(document, (state,), r),
    ensures
        r.0 == 501 <==> state is Ready,
        r.0 == 503 <==> !(state is Ready),
{
}

}
