//! Seeding of mutable module and system directories from immutable packages.
//!
//! A package is copied to its place once. That this happened is recorded, and
//! what was recorded is left alone from then on, whatever the manifest says
//! later. Only an explicit `absent` clears the record, and it touches nothing
//! else.
use vstd::prelude::*;

use crate::ledger::Ledger;
use crate::paths::{absolute, join, safe_symlink_target, same_path};
use crate::text::{chars_of, push_decimal, same_text, trimmed};

verus! {

/// The schema of manifests and of recorded states.
pub const SCHEMA_VERSION: u32 = 1;

#[derive(Debug)]
pub enum ReconcileError {
    Manifest(String),
    State(String),
    UnsafeId(String),
    InvalidStorePath(String),
    InvalidTarget(String),
    UnsupportedPlatform,
    Io(String),
}

/// The content of a `ReconcileError`.
pub ghost enum Trouble {
    Manifest(Seq<char>),
    State(Seq<char>),
    UnsafeId(Seq<char>),
    InvalidStorePath(Seq<char>),
    InvalidTarget(Seq<char>),
    UnsupportedPlatform,
    Io(Seq<char>),
}

impl View for ReconcileError {
    type V = Trouble;

    open spec fn view(&self) -> Trouble {
        match self {
            ReconcileError::Manifest(text) => Trouble::Manifest(text@),
            ReconcileError::State(text) => Trouble::State(text@),
            ReconcileError::UnsafeId(text) => Trouble::UnsafeId(text@),
            ReconcileError::InvalidStorePath(path) => Trouble::InvalidStorePath(path@),
            ReconcileError::InvalidTarget(path) => Trouble::InvalidTarget(path@),
            ReconcileError::UnsupportedPlatform => Trouble::UnsupportedPlatform,
            ReconcileError::Io(text) => Trouble::Io(text@),
        }
    }
}

/// What is shown of a trouble.
pub open spec fn trouble_text(trouble: Trouble) -> Seq<char> {
    match trouble {
        Trouble::Manifest(text) => "desired package manifest is invalid: "@ + text,
        Trouble::State(text) => "managed package state is invalid: "@ + text,
        Trouble::UnsafeId(text) => "package has an unsafe id: "@ + text,
        Trouble::InvalidStorePath(path) => "package store path is not an absolute directory: "@
            + path,
        Trouble::InvalidTarget(path) => "package target is not a directory: "@ + path,
        Trouble::UnsupportedPlatform => "reconciliation requires Unix symlink support"@,
        Trouble::Io(text) => "I/O error: "@ + text,
    }
}

/// Two texts, one behind the other.
fn text_with(start: &str, rest: &str) -> (r: String)
    ensures
        r@ == start@ + rest@,
{
    let mut out = start.to_owned();
    out.append(rest);
    out
}

impl ReconcileError {
    /// The text that is shown of the error.
    pub fn message(&self) -> (r: String)
        ensures
            r@ == trouble_text(self@),
    {
        match self {
            ReconcileError::Manifest(text) => text_with(
                "desired package manifest is invalid: ",
                text.as_str(),
            ),
            ReconcileError::State(text) => text_with(
                "managed package state is invalid: ",
                text.as_str(),
            ),
            ReconcileError::UnsafeId(text) => text_with("package has an unsafe id: ", text.as_str()),
            ReconcileError::InvalidStorePath(path) => text_with(
                "package store path is not an absolute directory: ",
                path.as_str(),
            ),
            ReconcileError::InvalidTarget(path) => text_with(
                "package target is not a directory: ",
                path.as_str(),
            ),
            ReconcileError::UnsupportedPlatform => "reconciliation requires Unix symlink support".to_owned(),
            ReconcileError::Io(text) => text_with("I/O error: ", text.as_str()),
        }
    }
}

/// A package as the manifest declares it.
#[derive(Debug, Clone, PartialEq, Eq)]
pub struct DesiredPackage {
    pub kind: String,
    pub id: String,
    pub state: String,
    pub version: String,
    pub store_path: String,
}

/// The content of a `DesiredPackage`.
pub ghost struct Desired {
    pub kind: Seq<char>,
    pub id: Seq<char>,
    pub state: Seq<char>,
    pub version: Seq<char>,
    pub store_path: Seq<char>,
}

impl View for DesiredPackage {
    type V = Desired;

    open spec fn view(&self) -> Desired {
        Desired {
            kind: self.kind@,
            id: self.id@,
            state: self.state@,
            version: self.version@,
            store_path: self.store_path@,
        }
    }
}

/// The state of a package whose manifest entry gives none.
pub fn default_state() -> (r: String)
    ensures
        r@ == "present"@,
{
    "present".to_owned()
}

#[derive(Debug, Clone)]
pub struct DesiredManifest {
    pub schema_version: u32,
    pub packages: Vec<DesiredPackage>,
}

/// The contents of packages.
pub open spec fn contents(packages: Seq<DesiredPackage>) -> Seq<Desired> {
    packages.map_values(|p: DesiredPackage| p@)
}

/// A package as it was recorded when it was initialized.
#[derive(Debug, Clone)]
pub struct ManagedPackage {
    pub kind: String,
    pub id: String,
    pub version: String,
    pub store_path: String,
}

/// The content of a `ManagedPackage`.
pub ghost struct Managed {
    pub kind: Seq<char>,
    pub id: Seq<char>,
    pub version: Seq<char>,
    pub store_path: Seq<char>,
}

impl View for ManagedPackage {
    type V = Managed;

    open spec fn view(&self) -> Managed {
        Managed {
            kind: self.kind@,
            id: self.id@,
            version: self.version@,
            store_path: self.store_path@,
        }
    }
}

/// The recorded packages, by their keys.
pub type ManagedState = Ledger<ManagedPackage>;

/// The contents of recorded packages.
pub open spec fn records(state: Map<Seq<char>, ManagedPackage>) -> Map<Seq<char>, Managed> {
    state.map_values(|p: ManagedPackage| p@)
}

/// Checks the schema of a manifest.
pub fn check_desired_schema(schema_version: u32) -> (r: Result<(), ReconcileError>)
    ensures
        match r {
            Ok(()) => schema_version == SCHEMA_VERSION,
            Err(e) => schema_version != SCHEMA_VERSION && e@ == Trouble::UnsafeId(
                "unsupported desired schema "@ + crate::text::decimal(schema_version as nat),
            ),
        },
        r is Ok <==> schema_version == 1,
{
    if schema_version == SCHEMA_VERSION {
        return Ok(());
    }
    let mut message = "unsupported desired schema ".to_owned();
    push_decimal(&mut message, schema_version as u64);
    Err(ReconcileError::UnsafeId(message))
}

/// Checks the schema of a recorded state.
pub fn check_state_schema(schema_version: u32) -> (r: Result<(), ReconcileError>)
    ensures
        match r {
            Ok(()) => schema_version == SCHEMA_VERSION,
            Err(e) => schema_version != SCHEMA_VERSION && e@ == Trouble::UnsafeId(
                "unsupported managed state schema "@ + crate::text::decimal(schema_version as nat),
            ),
        },
        r is Ok <==> schema_version == 1,
{
    if schema_version == SCHEMA_VERSION {
        return Ok(());
    }
    let mut message = "unsupported managed state schema ".to_owned();
    push_decimal(&mut message, schema_version as u64);
    Err(ReconcileError::UnsafeId(message))
}

/// Whether a character may stand in a package id.
pub open spec fn is_id_char(c: char) -> bool {
    ||| 'a' <= c <= 'z'
    ||| 'A' <= c <= 'Z'
    ||| '0' <= c <= '9'
    ||| c == '.'
    ||| c == '_'
    ||| c == '-'
}

/// Whether a package id is the name of a place right below a directory.
pub open spec fn is_safe_id(id: Seq<char>) -> bool {
    &&& id.len() > 0
    &&& id != "."@
    &&& id != ".."@
    &&& forall|i: int| 0 <= i < id.len() ==> is_id_char(#[trigger] id[i])
}

/// What speaks against the path of a package. `directory` says whether a
/// directory, and no link to one, stands there.
pub open spec fn store_trouble(path: Seq<char>, directory: bool) -> Option<Trouble> {
    if directory && crate::paths::is_absolute(path) {
        None
    } else {
        Some(Trouble::InvalidStorePath(path))
    }
}

/// What speaks against a package.
pub open spec fn package_trouble(package: Desired, directory: bool) -> Option<Trouble> {
    if package.kind != "module"@ && package.kind != "system"@ {
        Some(Trouble::UnsafeId(package.kind))
    } else if package.state != "present"@ && package.state != "absent"@ {
        Some(Trouble::UnsafeId(package.id + " has invalid state "@ + package.state))
    } else if !is_safe_id(package.id) {
        Some(Trouble::UnsafeId(package.id))
    } else if package.state == "absent"@ {
        None
    } else if crate::text::trim(package.version).len() == 0 {
        Some(Trouble::UnsafeId(package.id + " has no version"@))
    } else {
        store_trouble(package.store_path, directory)
    }
}

fn id_char(c: char) -> (r: bool)
    ensures
        r == is_id_char(c),
{
    ('a' <= c && c <= 'z') || ('A' <= c && c <= 'Z') || ('0' <= c && c <= '9') || c == '.' || c
        == '_' || c == '-'
}

/// Whether a package id is the name of a place right below a directory.
fn safe_id(id: &str) -> (r: bool)
    ensures
        r == is_safe_id(id@),
{
    if id.is_empty() || same_text(id, ".") || same_text(id, "..") {
        return false;
    }
    let chars = chars_of(id);
    let mut i: usize = 0;
    while i < chars.len()
        invariant
            chars@ == id@,
            i <= chars.len(),
            forall|j: int| 0 <= j < i ==> is_id_char(#[trigger] id@[j]),
        decreases chars.len() - i,
    {
        if !id_char(chars[i]) {
            assert(!is_id_char(id@[i as int]));
            return false;
        }
        i = i + 1;
    }
    true
}

/// Checks the path of a package. `directory` says whether a directory, and no
/// link to one, stands there.
pub fn validate_store_path(path: &str, directory: bool) -> (r: Result<(), ReconcileError>)
    ensures
        match r {
            Ok(()) => store_trouble(path@, directory) is None,
            Err(e) => store_trouble(path@, directory) == Some(e@),
        },
{
    if directory && absolute(path) {
        Ok(())
    } else {
        Err(ReconcileError::InvalidStorePath(path.to_owned()))
    }
}

/// Checks a package. `directory` says whether a directory, and no link to one,
/// stands at its path.
pub fn validate_package(package: &DesiredPackage, directory: bool) -> (r: Result<
    (),
    ReconcileError,
>)
    ensures
        match r {
            Ok(()) => package_trouble(package@, directory) is None,
            Err(e) => package_trouble(package@, directory) == Some(e@),
        },
{
    if !same_text(package.kind.as_str(), "module") && !same_text(package.kind.as_str(), "system") {
        return Err(ReconcileError::UnsafeId(package.kind.clone()));
    }
    let absent = same_text(package.state.as_str(), "absent");
    if !same_text(package.state.as_str(), "present") && !absent {
        let mut message = text_with(package.id.as_str(), " has invalid state ");
        message.append(package.state.as_str());
        return Err(ReconcileError::UnsafeId(message));
    }
    if !safe_id(package.id.as_str()) {
        return Err(ReconcileError::UnsafeId(package.id.clone()));
    }
    if absent {
        return Ok(());
    }
    let version = chars_of(package.version.as_str());
    if trimmed(version.as_slice()).len() == 0 {
        return Err(
            ReconcileError::UnsafeId(text_with(package.id.as_str(), " has no version")),
        );
    }
    validate_store_path(package.store_path.as_str(), directory)
}

/// The key of a package.
pub open spec fn key_text(kind: Seq<char>, id: Seq<char>) -> Seq<char> {
    kind + "/"@ + id
}

pub open spec fn key_of(package: Desired) -> Seq<char> {
    key_text(package.kind, package.id)
}

/// The key of a package.
pub fn key(kind: &str, id: &str) -> (r: String)
    ensures
        r@ == key_text(kind@, id@),
{
    let mut out = text_with(kind, "/");
    out.append(id);
    out
}

/// The directory below `Data` for the packages of a kind.
pub open spec fn kind_directory(kind: Seq<char>) -> Seq<char> {
    if kind == "module"@ {
        "modules"@
    } else {
        "systems"@
    }
}

/// Where the mutable copy of a package stands.
pub open spec fn target_of(data: Seq<char>, package: Desired) -> Seq<char> {
    crate::paths::joined(
        crate::paths::joined(
            crate::paths::joined(data, "Data"@),
            kind_directory(package.kind),
        ),
        package.id,
    )
}

/// Where the mutable copy of a package stands.
pub fn target(data: &str, package: &DesiredPackage) -> (r: String)
    ensures
        r@ == target_of(data@, package@),
{
    let root = join(data, "Data");
    let directory = if same_text(package.kind.as_str(), "module") {
        "modules"
    } else {
        "systems"
    };
    join(join(root.as_str(), directory).as_str(), package.id.as_str())
}

/// Whether a package of the given key and state is declared.
pub open spec fn declares(packages: Seq<Desired>, key: Seq<char>, state: Seq<char>) -> bool {
    exists|i: int|
        0 <= i < packages.len() && key_of(#[trigger] packages[i]) == key && packages[i].state
            == state
}

/// What speaks against the packages of a manifest: what speaks against the
/// first one that is invalid or has the key of an earlier one.
pub open spec fn manifest_trouble(packages: Seq<Desired>, directories: Seq<bool>) -> Option<Trouble>
    decreases packages.len(),
{
    if packages.len() == 0 {
        None
    } else {
        let earlier = packages.drop_last();
        let package = packages.last();
        match manifest_trouble(earlier, directories.drop_last()) {
            Some(trouble) => Some(trouble),
            None => match package_trouble(package, directories.last()) {
                Some(trouble) => Some(trouble),
                None => if exists|i: int|
                    0 <= i < earlier.len() && key_of(#[trigger] earlier[i]) == key_of(package) {
                    Some(Trouble::UnsafeId("duplicate package "@ + key_of(package)))
                } else {
                    None
                },
            },
        }
    }
}

/// A place that is looked at before anything is copied: the target of a package
/// that should be present, and the directory that it was, or would be, seeded
/// from.
#[derive(Debug)]
pub struct Check {
    pub target: String,
    pub source: String,
    /// Whether the package was initialized before.
    pub recorded: bool,
}

/// The content of a `Check`.
pub ghost struct Place {
    pub target: Seq<char>,
    pub source: Seq<char>,
    pub recorded: bool,
}

impl View for Check {
    type V = Place;

    open spec fn view(&self) -> Place {
        Place { target: self.target@, source: self.source@, recorded: self.recorded }
    }
}

/// The place of a package.
pub open spec fn place(package: Desired, state: Map<Seq<char>, Managed>, data: Seq<char>) -> Place {
    Place {
        target: target_of(data, package),
        source: if state.contains_key(key_of(package)) {
            state[key_of(package)].store_path
        } else {
            package.store_path
        },
        recorded: state.contains_key(key_of(package)),
    }
}

/// What is recorded of a package when it is initialized.
pub open spec fn managed(package: Desired) -> Managed {
    Managed {
        kind: package.kind,
        id: package.id,
        version: package.version,
        store_path: package.store_path,
    }
}

/// The declared package with a key.
pub open spec fn declared(packages: Seq<Desired>, key: Seq<char>) -> Desired {
    packages[choose|i: int| 0 <= i < packages.len() && key_of(#[trigger] packages[i]) == key]
}

/// What is recorded once a manifest was put into effect: what was recorded
/// before stays as it was, what is declared present is added, and what is
/// declared absent is taken out.
pub open spec fn settled(packages: Seq<Desired>, state: Map<Seq<char>, Managed>) -> Map<
    Seq<char>,
    Managed,
> {
    Map::new(
        |k: Seq<char>|
            (state.contains_key(k) || declares(packages, k, "present"@)) && !declares(
                packages,
                k,
                "absent"@,
            ),
        |k: Seq<char>|
            if state.contains_key(k) {
                state[k]
            } else {
                managed(declared(packages, k))
            },
    )
}

/// Whether checks are those of the packages that should be present.
pub open spec fn checks_present(
    checks: Map<Seq<char>, Check>,
    packages: Seq<Desired>,
    state: Map<Seq<char>, Managed>,
    data: Seq<char>,
) -> bool {
    &&& forall|k: Seq<char>| #[trigger]
        checks.contains_key(k) <==> declares(packages, k, "present"@)
    &&& forall|k: Seq<char>| #[trigger]
        checks.contains_key(k) ==> checks[k]@ == place(declared(packages, k), state, data)
}

/// What a manifest asks for.
#[derive(Debug)]
pub struct Plan {
    /// The places of the packages that should be present, by their keys.
    pub checks: Ledger<Check>,
    /// What is recorded once the manifest was put into effect.
    pub state: ManagedState,
}

/// Whether no two packages have the same key.
pub open spec fn distinct(packages: Seq<Desired>) -> bool {
    forall|i: int, j: int|
        0 <= i < j < packages.len() ==> key_of(#[trigger] packages[i]) != key_of(
            #[trigger] packages[j],
        )
}

proof fn lemma_declared(packages: Seq<Desired>, i: int)
    requires
        distinct(packages),
        0 <= i < packages.len(),
    ensures
        declared(packages, key_of(packages[i])) == packages[i],
{
    let k = key_of(packages[i]);
    let j = choose|j: int| 0 <= j < packages.len() && key_of(#[trigger] packages[j]) == k;
    assert(key_of(packages[j]) == k);
    if i < j {
        assert(key_of(packages[i]) != key_of(packages[j]));
    } else if j < i {
        assert(key_of(packages[j]) != key_of(packages[i]));
    }
}

/// What one more package changes of what is declared.
proof fn lemma_declares_step(packages: Seq<Desired>, package: Desired, k: Seq<char>, state: Seq<char>)
    ensures
        declares(packages.push(package), k, state) <==> declares(packages, k, state) || (key_of(
            package,
        ) == k && package.state == state),
{
    let more = packages.push(package);
    if declares(more, k, state) {
        let i = choose|i: int|
            0 <= i < more.len() && key_of(#[trigger] more[i]) == k && more[i].state == state;
        if i < packages.len() {
            assert(packages[i] == more[i]);
        }
    }
    if declares(packages, k, state) {
        let i = choose|i: int|
            0 <= i < packages.len() && key_of(#[trigger] packages[i]) == k && packages[i].state
                == state;
        assert(more[i] == packages[i]);
    }
    assert(more[packages.len() as int] == package);
}

/// A key that is declared is the key of a package.
proof fn lemma_declared_package(packages: Seq<Desired>, k: Seq<char>, state: Seq<char>)
    requires
        distinct(packages),
        declares(packages, k, state),
    ensures
        exists|i: int|
            0 <= i < packages.len() && packages[i] == declared(packages, k) && key_of(
                #[trigger] packages[i],
            ) == k,
        declared(packages, k).state == state,
{
    let i = choose|i: int|
        0 <= i < packages.len() && key_of(#[trigger] packages[i]) == k && packages[i].state
            == state;
    lemma_declared(packages, i);
}

/// What one more package changes of the declared packages.
proof fn lemma_declared_step(packages: Seq<Desired>, package: Desired)
    requires
        distinct(packages.push(package)),
    ensures
        distinct(packages),
        declared(packages.push(package), key_of(package)) == package,
        forall|k: Seq<char>, state: Seq<char>|
            declares(packages, k, state) ==> #[trigger] declares(packages.push(package), k, state)
                && declared(packages.push(package), k) == declared(packages, k) && k != key_of(
                package,
            ),
{
    let more = packages.push(package);
    assert forall|i: int, j: int| 0 <= i < j < packages.len() implies key_of(
        #[trigger] packages[i],
    ) != key_of(#[trigger] packages[j]) by {
        assert(more[i] == packages[i] && more[j] == packages[j]);
    }
    assert(more[packages.len() as int] == package);
    lemma_declared(more, packages.len() as int);
    assert forall|k: Seq<char>, state: Seq<char>| declares(packages, k, state) implies
        #[trigger] declares(more, k, state) && declared(more, k) == declared(packages, k) && k
        != key_of(package) by {
        lemma_declares_step(packages, package, k, state);
        let i = choose|i: int|
            0 <= i < packages.len() && key_of(#[trigger] packages[i]) == k && packages[i].state
                == state;
        lemma_declared(packages, i);
        assert(more[i] == packages[i]);
        lemma_declared(more, i);
        assert(key_of(more[i]) != key_of(more[packages.len() as int]));
    }
}

/// What one more package changes of what is recorded.
proof fn lemma_settled_step(
    packages: Seq<Desired>,
    package: Desired,
    state: Map<Seq<char>, Managed>,
)
    requires
        distinct(packages.push(package)),
        package.state == "present"@ || package.state == "absent"@,
    ensures
        settled(packages.push(package), state) == if package.state == "absent"@ {
            settled(packages, state).remove(key_of(package))
        } else if state.contains_key(key_of(package)) {
            settled(packages, state)
        } else {
            settled(packages, state).insert(key_of(package), managed(package))
        },
        settled(packages, state).contains_key(key_of(package)) == state.contains_key(
            key_of(package),
        ),
        state.contains_key(key_of(package)) ==> settled(packages, state)[key_of(package)]
            == state[key_of(package)],
{
    reveal_strlit("present");
    reveal_strlit("absent");
    assert("present"@.len() == 7 && "absent"@.len() == 6);
    let more = packages.push(package);
    let key = key_of(package);
    let left = settled(more, state);
    let right = if package.state == "absent"@ {
        settled(packages, state).remove(key)
    } else if state.contains_key(key) {
        settled(packages, state)
    } else {
        settled(packages, state).insert(key, managed(package))
    };
    lemma_declared_step(packages, package);
    assert forall|k: Seq<char>, word: Seq<char>| #[trigger] declares(more, k, word) <==> declares(
        packages,
        k,
        word,
    ) || (key == k && package.state == word) by {
        lemma_declares_step(packages, package, k, word);
    }
    assert(!declares(packages, key, "present"@)) by {
        if declares(packages, key, "present"@) {
            assert(declares(more, key, "present"@));
        }
    }
    assert(!declares(packages, key, "absent"@)) by {
        if declares(packages, key, "absent"@) {
            assert(declares(more, key, "absent"@));
        }
    }
    assert forall|k: Seq<char>| left.contains_key(k) implies right.contains_key(k) && left[k]
        == right[k] by {
        assert(declares(more, k, "present"@) <==> declares(packages, k, "present"@) || (key == k
            && package.state == "present"@));
        assert(declares(more, k, "absent"@) <==> declares(packages, k, "absent"@) || (key == k
            && package.state == "absent"@));
    }
    assert forall|k: Seq<char>| right.contains_key(k) implies left.contains_key(k) by {
        assert(declares(more, k, "present"@) <==> declares(packages, k, "present"@) || (key == k
            && package.state == "present"@));
        assert(declares(more, k, "absent"@) <==> declares(packages, k, "absent"@) || (key == k
            && package.state == "absent"@));
    }
    assert(left =~= right);
}

/// What one more package changes of the checks.
proof fn lemma_checks_step(
    checks: Map<Seq<char>, Check>,
    packages: Seq<Desired>,
    package: Desired,
    state: Map<Seq<char>, Managed>,
    data: Seq<char>,
    check: Check,
)
    requires
        distinct(packages.push(package)),
        package.state == "present"@ || package.state == "absent"@,
        checks_present(checks, packages, state, data),
        package.state == "present"@ ==> check@ == place(package, state, data),
    ensures
        package.state == "present"@ ==> checks_present(
            checks.insert(key_of(package), check),
            packages.push(package),
            state,
            data,
        ),
        package.state == "absent"@ ==> checks_present(checks, packages.push(package), state, data),
{
    reveal_strlit("present");
    reveal_strlit("absent");
    assert("present"@.len() == 7 && "absent"@.len() == 6);
    let more = packages.push(package);
    lemma_declared_step(packages, package);
    assert forall|k: Seq<char>| #[trigger] declares(more, k, "present"@) <==> declares(
        packages,
        k,
        "present"@,
    ) || (key_of(package) == k && package.state == "present"@) by {
        lemma_declares_step(packages, package, k, "present"@);
    }
    let after = if package.state == "present"@ {
        checks.insert(key_of(package), check)
    } else {
        checks
    };
    assert forall|k: Seq<char>| #[trigger] after.contains_key(k) <==> declares(
        more,
        k,
        "present"@,
    ) by {
        assert(checks.contains_key(k) <==> declares(packages, k, "present"@));
    }
    assert forall|k: Seq<char>| #[trigger] after.contains_key(k) implies after[k]@ == place(
        declared(more, k),
        state,
        data,
    ) by {
        assert(declares(more, k, "present"@));
        if checks.contains_key(k) {
            assert(declares(packages, k, "present"@));
        }
    }
}

/// The first fault of a manifest is also that of a longer one.
proof fn lemma_trouble_stays(packages: Seq<Desired>, directories: Seq<bool>, n: int)
    requires
        packages.len() == directories.len(),
        0 <= n <= packages.len(),
        manifest_trouble(packages.take(n), directories.take(n)) is Some,
    ensures
        manifest_trouble(packages, directories) == manifest_trouble(
            packages.take(n),
            directories.take(n),
        ),
    decreases packages.len() - n,
{
    if n < packages.len() {
        assert(packages.take(n + 1).drop_last() == packages.take(n));
        assert(directories.take(n + 1).drop_last() == directories.take(n));
        lemma_trouble_stays(packages, directories, n + 1);
    } else {
        assert(packages.take(n) == packages);
        assert(directories.take(n) == directories);
    }
}

/// Reads a manifest: checks its packages one after the other, and says which
/// places are to be looked at and what is recorded in the end. `directories`
/// says of each package whether a directory, and no link to one, stands at its
/// path.
pub fn plan_manifest(
    packages: &Vec<DesiredPackage>,
    previous: ManagedState,
    directories: &Vec<bool>,
    data: &str,
) -> (r: Result<Plan, ReconcileError>)
    requires
        directories@.len() == packages@.len(),
    ensures
        match r {
            Ok(plan) => {
                &&& manifest_trouble(contents(packages@), directories@) is None
                &&& distinct(contents(packages@))
                &&& checks_present(
                    plan.checks@,
                    contents(packages@),
                    records(previous@),
                    data@,
                )
                &&& records(plan.state@) == settled(contents(packages@), records(previous@))
            },
            Err(e) => manifest_trouble(contents(packages@), directories@) == Some(e@),
        },
{
    let ghost all = contents(packages@);
    let ghost recorded_before = records(previous@);
    let mut state = previous;
    let mut seen: Ledger<()> = Ledger::new();
    let mut checks: Ledger<Check> = Ledger::new();
    let mut i: usize = 0;
    proof {
        assert(records(state@) =~= settled(all.take(0), recorded_before));
    }
    while i < packages.len()
        invariant
            i <= packages.len(),
            directories@.len() == packages@.len(),
            all == contents(packages@),
            manifest_trouble(all.take(i as int), directories@.take(i as int)) is None,
            distinct(all.take(i as int)),
            forall|k: Seq<char>| #[trigger]
                seen@.contains_key(k) <==> exists|j: int|
                    0 <= j < i && key_of(#[trigger] all[j]) == k,
            checks_present(checks@, all.take(i as int), recorded_before, data@),
            records(state@) == settled(all.take(i as int), recorded_before),
        decreases packages.len() - i,
    {
        let package = &packages[i];
        let ghost done = all.take(i as int);
        let ghost more = all.take(i + 1);
        proof {
            assert(all[i as int] == package@);
            assert(more == done.push(package@));
            assert(more.drop_last() == done);
            assert(directories@.take(i + 1).drop_last() == directories@.take(i as int));
            assert(directories@.take(i + 1).last() == directories@[i as int]);
        }
        match validate_package(package, directories[i]) {
            Ok(()) => {},
            Err(e) => {
                proof {
                    lemma_trouble_stays(all, directories@, i + 1);
                }
                return Err(e);
            },
        }
        let name = key(package.kind.as_str(), package.id.as_str());
        if seen.get(name.as_str()).is_some() {
            proof {
                let j = choose|j: int| 0 <= j < i && key_of(#[trigger] all[j]) == name@;
                assert(done[j] == all[j]);
                lemma_trouble_stays(all, directories@, i + 1);
            }
            return Err(ReconcileError::UnsafeId(text_with("duplicate package ", name.as_str())));
        }
        proof {
            assert forall|j: int| 0 <= j < done.len() implies key_of(#[trigger] done[j]) != name@ by {
                assert(done[j] == all[j]);
            }
            assert forall|a: int, b: int| 0 <= a < b < more.len() implies key_of(
                #[trigger] more[a],
            ) != key_of(#[trigger] more[b]) by {
                assert(more[a] == done[a]);
                if b < done.len() {
                    assert(more[b] == done[b]);
                }
            }
            lemma_settled_step(done, package@, recorded_before);
            reveal_strlit("present");
            reveal_strlit("absent");
            assert("present"@.len() == 7 && "absent"@.len() == 6);
        }
        let ghost old_seen = seen@;
        seen.insert(name.clone(), ());
        proof {
            assert forall|k: Seq<char>| #[trigger] seen@.contains_key(k) <==> exists|j: int|
                0 <= j < i + 1 && key_of(#[trigger] all[j]) == k by {
                if seen@.contains_key(k) {
                    if k == name@ {
                        assert(key_of(all[i as int]) == k);
                    } else {
                        assert(old_seen.contains_key(k));
                    }
                }
                if exists|j: int| 0 <= j < i + 1 && key_of(#[trigger] all[j]) == k {
                    let j = choose|j: int| 0 <= j < i + 1 && key_of(#[trigger] all[j]) == k;
                    if j < i {
                        assert(old_seen.contains_key(k));
                    }
                }
            }
        }
        let ghost state_before = state@;
        if same_text(package.state.as_str(), "present") {
            let found = match state.get(name.as_str()) {
                Some(recorded) => Some(recorded.store_path.clone()),
                None => None,
            };
            let check = match found {
                Some(source) => Check {
                    target: target(data, package),
                    source,
                    recorded: true,
                },
                None => Check {
                    target: target(data, package),
                    source: package.store_path.clone(),
                    recorded: false,
                },
            };
            proof {
                assert(records(state@).contains_key(name@) == state@.contains_key(name@));
                assert(check@ == place(package@, recorded_before, data@));
                lemma_checks_step(checks@, done, package@, recorded_before, data@, check);
            }
            if !check.recorded {
                let entry = ManagedPackage {
                    kind: package.kind.clone(),
                    id: package.id.clone(),
                    version: package.version.clone(),
                    store_path: package.store_path.clone(),
                };
                assert(entry@ == managed(package@));
                state.insert(name.clone(), entry);
                assert(records(state@) =~= records(state_before).insert(name@, managed(package@)));
            }
            checks.insert(name, check);
        } else {
            proof {
                lemma_checks_step(checks@, done, package@, recorded_before, data@, arbitrary());
            }
            state.remove(name.as_str());
            assert(records(state@) =~= records(state_before).remove(name@));
        }
        i = i + 1;
    }
    proof {
        assert(all.take(i as int) == all);
        assert(directories@.take(i as int) == directories@);
    }
    Ok(Plan { checks, state })
}

/// What stands at a target.
#[derive(Debug)]
pub enum Found {
    Nothing,
    /// A link, with the path that it leads to.
    Link(String),
    /// Anything that is no link.
    Other,
    /// It could not be looked at.
    Unreadable(String),
}

/// What was seen of a place.
#[derive(Debug)]
pub struct Sight {
    pub found: Found,
    /// Whether the target, with links followed, is a directory.
    pub leads_to_directory: bool,
    /// Whether a directory, and no link to one, stands at the source.
    pub source_is_directory: bool,
}

/// Whether a link to the source stands at the target.
pub open spec fn is_legacy_link(found: Found, source: Seq<char>) -> bool {
    found matches Found::Link(to) && crate::paths::is_same_path(to@, source)
}

/// What speaks against a place.
pub open spec fn place_trouble(place: Place, sight: Sight) -> Option<Trouble> {
    match sight.found {
        Found::Nothing => None,
        Found::Unreadable(text) => Some(Trouble::Io(text@)),
        _ => if is_legacy_link(sight.found, place.source) {
            store_trouble(place.source, sight.source_is_directory)
        } else if sight.leads_to_directory {
            None
        } else {
            Some(Trouble::InvalidTarget(place.target))
        },
    }
}

/// What speaks against places: what speaks against the first that is refused.
pub open spec fn places_trouble(checks: Seq<(String, Check)>, sights: Seq<Sight>) -> Option<Trouble>
    decreases checks.len(),
{
    if checks.len() == 0 {
        None
    } else {
        match place_trouble(checks[0].1@, sights[0]) {
            Some(trouble) => Some(trouble),
            None => places_trouble(checks.drop_first(), sights.drop_first()),
        }
    }
}

/// Whether a link to the source stands at the target.
fn legacy_link(found: &Found, source: &str) -> (r: bool)
    ensures
        r == is_legacy_link(*found, source@),
{
    match found {
        Found::Link(to) => same_path(to.as_str(), source),
        _ => false,
    }
}

/// Checks that a target is a directory. `directory` says whether it is one,
/// with links followed.
pub fn validate_existing_target(path: &str, directory: bool) -> (r: Result<(), ReconcileError>)
    ensures
        match r {
            Ok(()) => directory,
            Err(e) => !directory && e@ == Trouble::InvalidTarget(path@),
        },
{
    if directory {
        Ok(())
    } else {
        Err(ReconcileError::InvalidTarget(path.to_owned()))
    }
}

/// Checks a place: nothing stands at the target, or a directory, or a link to
/// a source that is valid.
pub fn check_target(check: &Check, sight: &Sight) -> (r: Result<(), ReconcileError>)
    ensures
        match r {
            Ok(()) => place_trouble(check@, *sight) is None,
            Err(e) => place_trouble(check@, *sight) == Some(e@),
        },
{
    match &sight.found {
        Found::Nothing => Ok(()),
        Found::Unreadable(text) => Err(ReconcileError::Io(text.clone())),
        _ => if legacy_link(&sight.found, check.source.as_str()) {
            validate_store_path(check.source.as_str(), sight.source_is_directory)
        } else {
            validate_existing_target(check.target.as_str(), sight.leads_to_directory)
        },
    }
}

/// Checks all places, in their order, before anything is copied.
pub fn preflight(checks: &Vec<(String, Check)>, sights: &Vec<Sight>) -> (r: Result<
    (),
    ReconcileError,
>)
    requires
        checks@.len() == sights@.len(),
    ensures
        match r {
            Ok(()) => places_trouble(checks@, sights@) is None,
            Err(e) => places_trouble(checks@, sights@) == Some(e@),
        },
{
    let mut i: usize = 0;
    assert(checks@.skip(0) == checks@);
    assert(sights@.skip(0) == sights@);
    while i < checks.len()
        invariant
            i <= checks.len(),
            checks@.len() == sights@.len(),
            places_trouble(checks@, sights@) == places_trouble(
                checks@.skip(i as int),
                sights@.skip(i as int),
            ),
        decreases checks.len() - i,
    {
        assert(checks@.skip(i as int).drop_first() == checks@.skip(i + 1));
        assert(sights@.skip(i as int).drop_first() == sights@.skip(i + 1));
        match check_target(&checks[i].1, &sights[i]) {
            Ok(()) => {},
            Err(e) => return Err(e),
        }
        i = i + 1;
    }
    Ok(())
}

/// What is done about a place.
#[derive(Debug)]
pub enum Step {
    /// Nothing: what stands there, if anything does, is left alone.
    Leave,
    /// The source is copied to the target, where nothing stands.
    Seed,
    /// The link at the target is replaced by a copy of the source.
    Materialize,
    /// The target could not be looked at.
    Fail(ReconcileError),
}

/// Decides what is done about a place whose package was not initialized before:
/// it is seeded where nothing stands there, and a link to the source becomes a
/// copy.
pub fn seed_if_missing(found: &Found, source: &str) -> (r: Step)
    ensures
        match r {
            Step::Seed => *found is Nothing,
            Step::Materialize => is_legacy_link(*found, source@),
            Step::Leave => *found is Other || (*found is Link && !is_legacy_link(*found, source@)),
            Step::Fail(e) => *found matches Found::Unreadable(text) && e@ == Trouble::Io(text@),
        },
{
    match found {
        Found::Nothing => Step::Seed,
        Found::Unreadable(text) => Step::Fail(ReconcileError::Io(text.clone())),
        _ => if legacy_link(found, source) {
            Step::Materialize
        } else {
            Step::Leave
        },
    }
}

/// Decides what is done about a place whose package was initialized before:
/// only a link to the source that was recorded becomes a copy.
pub fn materialize_legacy_link(found: &Found, source: &str) -> (r: Step)
    ensures
        match r {
            Step::Seed => false,
            Step::Materialize => is_legacy_link(*found, source@),
            Step::Leave => !(*found is Unreadable) && !is_legacy_link(*found, source@),
            Step::Fail(e) => *found matches Found::Unreadable(text) && e@ == Trouble::Io(text@),
        },
{
    match found {
        Found::Unreadable(text) => Step::Fail(ReconcileError::Io(text.clone())),
        _ => if legacy_link(found, source) {
            Step::Materialize
        } else {
            Step::Leave
        },
    }
}

/// Decides what is done about a place.
pub fn next_step(check: &Check, found: &Found) -> (r: Step)
    ensures
        match r {
            Step::Seed => *found is Nothing && !check.recorded,
            Step::Materialize => is_legacy_link(*found, check.source@),
            Step::Leave => {
                &&& !(*found is Unreadable)
                &&& !is_legacy_link(*found, check.source@)
                &&& *found is Nothing ==> check.recorded
            },
            Step::Fail(e) => *found matches Found::Unreadable(text) && e@ == Trouble::Io(text@),
        },
{
    if check.recorded {
        materialize_legacy_link(found, check.source.as_str())
    } else {
        seed_if_missing(found, check.source.as_str())
    }
}

/// What stands in a package, below its root.
#[derive(Debug)]
pub enum TreeEntry {
    Directory,
    File,
    /// A link, with its path below the root and the path that it leads to, each
    /// where it is a text.
    Link { name: Option<String>, target: Option<String> },
    Other,
}

/// Whether something in a package can be copied.
pub open spec fn can_copy(entry: TreeEntry) -> bool {
    match entry {
        TreeEntry::Directory => true,
        TreeEntry::File => true,
        TreeEntry::Link { name: Some(name), target: Some(target) } => crate::paths::is_safe_link(
            name@,
            target@,
        ),
        _ => false,
    }
}

/// Checks something in a package before it is copied: directories, files and
/// links that stay inside the package are accepted.
pub fn check_tree_entry(entry: &TreeEntry, root: &str) -> (r: Result<(), ReconcileError>)
    ensures
        match r {
            Ok(()) => can_copy(*entry),
            Err(e) => !can_copy(*entry) && e@ == Trouble::InvalidStorePath(root@),
        },
{
    let good = match entry {
        TreeEntry::Directory => true,
        TreeEntry::File => true,
        TreeEntry::Link { name: Some(name), target: Some(target) } => safe_symlink_target(
            name.as_str(),
            target.as_str(),
        ),
        _ => false,
    };
    if good {
        Ok(())
    } else {
        Err(ReconcileError::InvalidStorePath(root.to_owned()))
    }
}

/// The bit that lets its owner write to a file.
pub const OWNER_WRITE: u32 = 0o200;

/// The mode of a copy: that of the source, and writable by its owner.
pub fn mutable_mode(mode: u32) -> (r: u32)
    ensures
        r & OWNER_WRITE == OWNER_WRITE,
        r & !OWNER_WRITE == mode & !OWNER_WRITE,
        r == mode | 0o200,
{
    let r: u32 = mode | 0o200;
    assert(r & 0o200 == 0o200 && r & !0o200u32 == mode & !0o200u32) by (bit_vector)
        requires
            r == mode | 0o200,
    ;
    r
}

/// The error of a link that could not be made.
pub fn map_symlink_error(unsupported: bool, text: String) -> (r: ReconcileError)
    ensures
        r@ == if unsupported {
            Trouble::UnsupportedPlatform
        } else {
            Trouble::Io(text@)
        },
{
    if unsupported {
        ReconcileError::UnsupportedPlatform
    } else {
        ReconcileError::Io(text)
    }
}

/// What was recorded stays as it was, whatever version, path or place among
/// the packages a manifest gives it, and also where the manifest leaves it out:
/// only an explicit `absent` takes it out.
pub proof fn lemma_records_stay(
    packages: Seq<Desired>,
    state: Map<Seq<char>, Managed>,
    k: Seq<char>,
)
    requires
        state.contains_key(k),
        !declares(packages, k, "absent"@),
    ensures
        settled(packages, state).contains_key(k),
        settled(packages, state)[k] == state[k],
{
}

/// An `absent` package is no longer recorded, and its place is not even looked
/// at.
pub proof fn lemma_absent_resets_only_the_marker(
    packages: Seq<Desired>,
    state: Map<Seq<char>, Managed>,
    checks: Map<Seq<char>, Check>,
    data: Seq<char>,
    k: Seq<char>,
)
    requires
        distinct(packages),
        checks_present(checks, packages, state, data),
        declares(packages, k, "absent"@),
    ensures
        !settled(packages, state).contains_key(k),
        !checks.contains_key(k),
{
    reveal_strlit("present");
    reveal_strlit("absent");
    assert("present"@.len() == 7 && "absent"@.len() == 6);
    if declares(packages, k, "present"@) {
        lemma_declared_package(packages, k, "present"@);
        lemma_declared_package(packages, k, "absent"@);
    }
}

/// The recorded packages after a manifest: those from before and those that it
/// declares present, without those that it declares absent.
pub proof fn lemma_recorded_keys(
    packages: Seq<Desired>,
    state: Map<Seq<char>, Managed>,
    k: Seq<char>,
)
    ensures
        settled(packages, state).contains_key(k) <==> (state.contains_key(k) || declares(
            packages,
            k,
            "present"@,
        )) && !declares(packages, k, "absent"@),
{
}

/// A package is recorded with the version and the path from which it was
/// seeded.
pub proof fn lemma_new_record(packages: Seq<Desired>, state: Map<Seq<char>, Managed>, i: int)
    requires
        distinct(packages),
        0 <= i < packages.len(),
        packages[i].state == "present"@,
        !state.contains_key(key_of(packages[i])),
    ensures
        settled(packages, state).contains_key(key_of(packages[i])),
        settled(packages, state)[key_of(packages[i])] == managed(packages[i]),
{
    reveal_strlit("present");
    reveal_strlit("absent");
    assert("present"@.len() == 7 && "absent"@.len() == 6);
    let k = key_of(packages[i]);
    lemma_declared(packages, i);
    assert(declares(packages, k, "present"@));
    if declares(packages, k, "absent"@) {
        lemma_declared_package(packages, k, "absent"@);
    }
}

/// Putting a manifest into effect once more changes nothing of what is
/// recorded.
pub proof fn lemma_settling_again_changes_nothing(
    packages: Seq<Desired>,
    state: Map<Seq<char>, Managed>,
)
    ensures
        settled(packages, settled(packages, state)) == settled(packages, state),
{
    assert(settled(packages, settled(packages, state)) =~= settled(packages, state));
}

/// A package is seeded once: after a manifest that declares it present was put
/// into effect, any manifest finds it recorded, from the path that it was first
/// seeded from. So its place is never seeded again, until it is declared absent.
pub proof fn lemma_seeded_once(
    packages: Seq<Desired>,
    state: Map<Seq<char>, Managed>,
    i: int,
    later: Desired,
    data: Seq<char>,
)
    requires
        distinct(packages),
        0 <= i < packages.len(),
        packages[i].state == "present"@,
        key_of(later) == key_of(packages[i]),
    ensures
        place(later, settled(packages, state), data).recorded,
        place(later, settled(packages, state), data).source == place(
            packages[i],
            state,
            data,
        ).source,
{
    if state.contains_key(key_of(packages[i])) {
        reveal_strlit("present");
        reveal_strlit("absent");
        assert("present"@.len() == 7 && "absent"@.len() == 6);
        lemma_declared(packages, i);
        if declares(packages, key_of(later), "absent"@) {
            lemma_declared_package(packages, key_of(later), "absent"@);
        }
    } else {
        lemma_new_record(packages, state, i);
    }
}

/// A package that was declared absent may be seeded again later.
pub proof fn lemma_seeded_again_after_absent(
    packages: Seq<Desired>,
    state: Map<Seq<char>, Managed>,
    later: Desired,
    data: Seq<char>,
)
    requires
        declares(packages, key_of(later), "absent"@),
    ensures
        !place(later, settled(packages, state), data).recorded,
        place(later, settled(packages, state), data).source == later.store_path,
{
}

proof fn lemma_safe_id_is_a_name(id: Seq<char>)
    requires
        is_safe_id(id),
    ensures
        !id.contains('/'),
{
    if id.contains('/') {
        let i = choose|i: int| 0 <= i < id.len() && id[i] == '/';
        assert(is_id_char(id[i]));
    }
}

/// The target of a package with a safe id is the place with that name in the
/// directory for its kind below `Data`.
pub proof fn lemma_target_is_inside(data: Seq<char>, package: Desired)
    requires
        is_safe_id(package.id),
    ensures
        crate::paths::components(target_of(data, package)) == crate::paths::components(data)
            + seq!["Data"@, kind_directory(package.kind), package.id],
        crate::paths::is_absolute(target_of(data, package)) == crate::paths::is_absolute(data),
        package.id != ".."@,
{
    reveal_strlit("Data");
    reveal_strlit("modules");
    reveal_strlit("systems");
    reveal_strlit(".");
    let directory = kind_directory(package.kind);
    lemma_safe_id_is_a_name(package.id);
    assert("."@.len() == 1 && "Data"@.len() == 4 && directory.len() == 7);
    assert(!"Data"@.contains('/'));
    assert(!directory.contains('/'));
    let root = crate::paths::joined(data, "Data"@);
    let holder = crate::paths::joined(root, directory);
    crate::paths::lemma_joined_components(data, "Data"@);
    crate::paths::lemma_joined_components(root, directory);
    crate::paths::lemma_joined_components(holder, package.id);
}

/// Packages with different keys have different targets.
pub proof fn lemma_targets_differ(data: Seq<char>, a: Desired, b: Desired)
    requires
        a.kind == "module"@ || a.kind == "system"@,
        b.kind == "module"@ || b.kind == "system"@,
        is_safe_id(a.id),
        is_safe_id(b.id),
        key_of(a) != key_of(b),
    ensures
        !crate::paths::is_same_path(target_of(data, a), target_of(data, b)),
{
    lemma_target_is_inside(data, a);
    lemma_target_is_inside(data, b);
    let start = crate::paths::components(data);
    let n = start.len() as int;
    let left = crate::paths::components(target_of(data, a));
    let right = crate::paths::components(target_of(data, b));
    if left == right {
        assert(left[n + 1] == kind_directory(a.kind) && right[n + 1] == kind_directory(b.kind));
        assert(left[n + 2] == a.id && right[n + 2] == b.id);
        reveal_strlit("modules");
        reveal_strlit("systems");
        assert("modules"@[0] == 'm' && "systems"@[0] == 's');
        assert(a.kind == b.kind);
    }
}

/// A manifest is put into effect only where all its packages are valid and no
/// two of them have the same key.
pub proof fn lemma_good_manifest(packages: Seq<Desired>, directories: Seq<bool>)
    requires
        packages.len() == directories.len(),
    ensures
        manifest_trouble(packages, directories) is None <==> distinct(packages) && forall|i: int|
            0 <= i < packages.len() ==> package_trouble(#[trigger] packages[i], directories[i]) is None,
    decreases packages.len(),
{
    if packages.len() > 0 {
        let earlier = packages.drop_last();
        let package = packages.last();
        let n = earlier.len() as int;
        lemma_good_manifest(earlier, directories.drop_last());
        assert(packages[n] == package);
        assert(forall|i: int| 0 <= i < n ==> earlier[i] == packages[i]);
        if manifest_trouble(packages, directories) is None {
            assert forall|i: int, j: int| 0 <= i < j < packages.len() implies key_of(
                #[trigger] packages[i],
            ) != key_of(#[trigger] packages[j]) by {
                assert(earlier[i] == packages[i]);
                if j < n {
                    assert(earlier[j] == packages[j]);
                }
            }
            assert forall|i: int| 0 <= i < packages.len() implies package_trouble(
                #[trigger] packages[i],
                directories[i],
            ) is None by {
                if i < n {
                    assert(earlier[i] == packages[i]);
                    assert(directories.drop_last()[i] == directories[i]);
                }
            }
        }
        if distinct(packages) && forall|i: int|
            0 <= i < packages.len() ==> package_trouble(#[trigger] packages[i], directories[i]) is None {
            assert forall|i: int, j: int| 0 <= i < j < earlier.len() implies key_of(
                #[trigger] earlier[i],
            ) != key_of(#[trigger] earlier[j]) by {
                assert(earlier[i] == packages[i] && earlier[j] == packages[j]);
            }
            assert forall|i: int| 0 <= i < earlier.len() implies package_trouble(
                #[trigger] earlier[i],
                directories.drop_last()[i],
            ) is None by {
                assert(earlier[i] == packages[i]);
            }
            assert(package_trouble(packages[n], directories[n]) is None);
            assert forall|i: int| 0 <= i < earlier.len() implies key_of(#[trigger] earlier[i])
                != key_of(package) by {
                assert(earlier[i] == packages[i]);
                assert(key_of(packages[i]) != key_of(packages[n]));
            }
        }
    }
}

/// A place is accepted where nothing stands at the target. A link to the source
/// is accepted exactly where a directory stands at the source and its path is
/// absolute. Anything else, a link or not, is accepted exactly where it leads to
/// a directory.
pub proof fn lemma_accepted_places(place: Place, sight: Sight)
    ensures
        sight.found is Nothing ==> place_trouble(place, sight) is None,
        sight.found matches Found::Unreadable(text) ==> place_trouble(place, sight) == Some(
            Trouble::Io(text@),
        ),
        sight.leads_to_directory && !(sight.found is Unreadable) && !(sight.found matches Found::Link(
            to,
        ) && crate::paths::is_same_path(to@, place.source)) ==> place_trouble(place, sight) is None,
        !sight.leads_to_directory && sight.found is Other ==> place_trouble(place, sight) == Some(
            Trouble::InvalidTarget(place.target),
        ),
        sight.found matches Found::Link(to) ==> {
            if crate::paths::is_same_path(to@, place.source) {
                if sight.source_is_directory && place.source.len() > 0 && place.source[0] == '/' {
                    place_trouble(place, sight) is None
                } else {
                    place_trouble(place, sight) == Some(Trouble::InvalidStorePath(place.source))
                }
            } else if sight.leads_to_directory {
                place_trouble(place, sight) is None
            } else {
                place_trouble(place, sight) == Some(Trouble::InvalidTarget(place.target))
            }
        },
{
}

/// What is no link to the source is judged by where it leads alone: a link and a
/// thing that is no link, both of which lead to a directory or both of which do
/// not, are judged alike.
pub proof fn lemma_links_count_as_what_they_lead_to(place: Place, a: Sight, b: Sight)
    requires
        a.found is Link,
        !is_legacy_link(a.found, place.source),
        b.found is Other,
        a.leads_to_directory == b.leads_to_directory,
    ensures
        place_trouble(place, a) == place_trouble(place, b),
        place_trouble(place, a) is None <==> a.leads_to_directory,
{
}

/// All places are accepted exactly where each of them is, and otherwise what
/// speaks against the first that is refused is what is said.
pub proof fn lemma_places_are_checked_in_order(
    checks: Seq<(String, Check)>,
    sights: Seq<Sight>,
    n: int,
)
    requires
        checks.len() == sights.len(),
        0 <= n <= checks.len(),
        forall|i: int|
            0 <= i < n ==> place_trouble((#[trigger] checks[i]).1@, sights[i]) is None,
    ensures
        n == checks.len() ==> places_trouble(checks, sights) is None,
        n < checks.len() && place_trouble(checks[n].1@, sights[n]) is Some ==> places_trouble(
            checks,
            sights,
        ) == place_trouble(checks[n].1@, sights[n]),
    decreases n,
{
    if n > 0 {
        assert(place_trouble(checks[0].1@, sights[0]) is None);
        let rest = checks.drop_first();
        assert forall|i: int| 0 <= i < n - 1 implies place_trouble(
            (#[trigger] rest[i]).1@,
            sights.drop_first()[i],
        ) is None by {
            assert(rest[i] == checks[i + 1]);
        }
        lemma_places_are_checked_in_order(rest, sights.drop_first(), n - 1);
        if n < checks.len() {
            assert(rest[n - 1] == checks[n]);
        }
    }
}

/// The characters of an id, by their codes: capital and small letters, digits,
/// the hyphen, the full stop and the underscore.
pub proof fn lemma_id_chars(c: char)
    ensures
        is_id_char(c) <==> 65 <= c as int <= 90 || 97 <= c as int <= 122 || 48 <= c as int <= 57 || c
            as int == 45 || c as int == 46 || c as int == 95,
{
}

/// A package is accepted exactly where it is a module or a system, present or
/// absent, its id is a plain name, and, where it is present, it has a version
/// and a directory stands at its absolute path.
pub proof fn lemma_accepted_packages(package: Desired, directory: bool)
    ensures
        package_trouble(package, directory) is None <==> {
            &&& package.kind == "module"@ || package.kind == "system"@
            &&& package.state == "present"@ || package.state == "absent"@
            &&& package.id.len() > 0 && package.id != "."@ && package.id != ".."@
            &&& forall|i: int|
                0 <= i < package.id.len() ==> ('a' <= #[trigger] package.id[i] <= 'z' || 'A'
                    <= package.id[i] <= 'Z' || '0' <= package.id[i] <= '9' || package.id[i] == '.'
                    || package.id[i] == '_' || package.id[i] == '-')
            &&& package.state == "present"@ ==> directory && package.store_path.len() > 0
                && package.store_path[0] == '/' && exists|i: int|
                0 <= i < package.version.len() && !crate::text::is_white(
                    #[trigger] package.version[i],
                )
        },
{
    reveal_strlit("present");
    reveal_strlit("absent");
    assert("present"@.len() == 7 && "absent"@.len() == 6);
    assert((forall|i: int| 0 <= i < package.id.len() ==> is_id_char(#[trigger] package.id[i]))
        <==> (forall|i: int|
        0 <= i < package.id.len() ==> ('a' <= #[trigger] package.id[i] <= 'z' || 'A'
            <= package.id[i] <= 'Z' || '0' <= package.id[i] <= '9' || package.id[i] == '.'
            || package.id[i] == '_' || package.id[i] == '-')));
    let version = package.version;
    let kept = crate::text::trim(version);
    crate::text::lemma_trim_cut(version);
    let at = choose|i: int| #[trigger]
        crate::text::occurs_at(version, kept, i) && (forall|k: int|
            0 <= k < i ==> crate::text::is_white(#[trigger] version[k])) && (forall|k: int|
            i + kept.len() <= k < version.len() ==> crate::text::is_white(#[trigger] version[k]));
    if kept.len() > 0 {
        assert(version.subrange(at, at + kept.len())[0] == kept[0]);
        assert(!crate::text::is_white(version[at]));
    } else {
        assert forall|i: int| 0 <= i < version.len() implies crate::text::is_white(
            #[trigger] version[i],
        ) by {}
    }
}

/// A copy stands in `modules` or `systems` below `Data`, under the id.
pub proof fn lemma_target_places(data: Seq<char>, package: Desired)
    requires
        is_safe_id(package.id),
    ensures
        package.kind == "module"@ ==> crate::paths::components(target_of(data, package))
            == crate::paths::components(data) + seq!["Data"@, "modules"@, package.id],
        package.kind == "system"@ ==> crate::paths::components(target_of(data, package))
            == crate::paths::components(data) + seq!["Data"@, "systems"@, package.id],
{
    reveal_strlit("module");
    reveal_strlit("system");
    assert("module"@[0] == 'm' && "system"@[0] == 's');
    lemma_target_is_inside(data, package);
}

/// Packages have the same key exactly where they have the same kind and id.
pub proof fn lemma_keys(a: Desired, b: Desired)
    requires
        a.kind == "module"@ || a.kind == "system"@,
        b.kind == "module"@ || b.kind == "system"@,
    ensures
        key_of(a) == key_of(b) <==> a.kind == b.kind && a.id == b.id,
        key_of(a) == a.kind + "/"@ + a.id,
{
    reveal_strlit("module");
    reveal_strlit("system");
    reveal_strlit("/");
    assert("module"@.len() == 6 && "system"@.len() == 6);
    if key_of(a) == key_of(b) {
        assert(key_of(a).take(6) == a.kind && key_of(b).take(6) == b.kind);
        assert(key_of(a).skip(7) == a.id && key_of(b).skip(7) == b.id);
    }
}

/// What is looked at for a package is its target, and the directory from which it
/// was seeded or, where it never was, the one that the manifest gives.
pub proof fn lemma_looked_at(package: Desired, state: Map<Seq<char>, Managed>, data: Seq<char>)
    ensures
        place(package, state, data).target == target_of(data, package),
        place(package, state, data).recorded <==> state.contains_key(
            package.kind + "/"@ + package.id,
        ),
        state.contains_key(package.kind + "/"@ + package.id) ==> place(package, state, data).source
            == state[package.kind + "/"@ + package.id].store_path,
        !state.contains_key(package.kind + "/"@ + package.id) ==> place(package, state, data).source
            == package.store_path,
{
}

/// A package that is declared present for the first time is recorded under its
/// key, with the kind, id, version and path that the manifest gives.
pub proof fn lemma_first_record(packages: Seq<Desired>, state: Map<Seq<char>, Managed>, i: int)
    requires
        distinct(packages),
        0 <= i < packages.len(),
        packages[i].state == "present"@,
        !state.contains_key(packages[i].kind + "/"@ + packages[i].id),
    ensures
        settled(packages, state).contains_key(packages[i].kind + "/"@ + packages[i].id),
        settled(packages, state)[packages[i].kind + "/"@ + packages[i].id] == (Managed {
            kind: packages[i].kind,
            id: packages[i].id,
            version: packages[i].version,
            store_path: packages[i].store_path,
        }),
{
    lemma_new_record(packages, state, i);
}

/// What a manifest does not name is recorded after it exactly as before.
pub proof fn lemma_unnamed_is_left_alone(
    packages: Seq<Desired>,
    state: Map<Seq<char>, Managed>,
    k: Seq<char>,
)
    requires
        forall|i: int| 0 <= i < packages.len() ==> (#[trigger] packages[i]).kind + "/"@
            + packages[i].id != k,
    ensures
        settled(packages, state).contains_key(k) <==> state.contains_key(k),
        state.contains_key(k) ==> settled(packages, state)[k] == state[k],
{
    assert forall|i: int| 0 <= i < packages.len() implies key_of(#[trigger] packages[i]) != k by {
        assert(packages[i].kind + "/"@ + packages[i].id != k);
    }
}

/// Directories and files are copied, and links with a name and a target that stay
/// inside the package; nothing else is.
pub proof fn lemma_what_is_copied(entry: TreeEntry)
    ensures
        entry is Directory || entry is File ==> can_copy(entry),
        entry is Other ==> !can_copy(entry),
        entry matches TreeEntry::Link { name, target } ==> (can_copy(entry) <==> name is Some
            && target is Some && crate::paths::is_safe_link(name->0@, target->0@)),
{
}

/// What speaks against a package is named by its kind, its state, its id, its
/// version or its path, in that order.
pub proof fn lemma_refused_packages(package: Desired, directory: bool)
    ensures
        ({
            let kind = package.kind == "module"@ || package.kind == "system"@;
            let state = package.state == "present"@ || package.state == "absent"@;
            let blank = crate::text::trim(package.version).len() == 0;
            let trouble = package_trouble(package, directory);
            &&& !kind ==> trouble == Some(Trouble::UnsafeId(package.kind))
            &&& kind && !state ==> trouble == Some(
                Trouble::UnsafeId(package.id + " has invalid state "@ + package.state),
            )
            &&& kind && state && !is_safe_id(package.id) ==> trouble == Some(
                Trouble::UnsafeId(package.id),
            )
            &&& kind && package.state == "present"@ && is_safe_id(package.id) && blank ==> trouble
                == Some(Trouble::UnsafeId(package.id + " has no version"@))
            &&& kind && package.state == "present"@ && is_safe_id(package.id) && !blank && (!directory
                || package.store_path.len() == 0 || package.store_path[0] != '/') ==> trouble
                == Some(Trouble::InvalidStorePath(package.store_path))
        }),
{
    reveal_strlit("present");
    reveal_strlit("absent");
    assert("present"@.len() == 7 && "absent"@.len() == 6);
}

/// A package that repeats the key of an earlier one is refused, where nothing
/// else is wrong up to it.
pub proof fn lemma_duplicates_are_refused(
    packages: Seq<Desired>,
    directories: Seq<bool>,
    i: int,
    j: int,
)
    requires
        packages.len() == directories.len(),
        0 <= i < j < packages.len(),
        packages[i].kind == packages[j].kind,
        packages[i].id == packages[j].id,
        manifest_trouble(packages.take(j), directories.take(j)) is None,
        package_trouble(packages[j], directories[j]) is None,
    ensures
        manifest_trouble(packages, directories) == Some(
            Trouble::UnsafeId("duplicate package "@ + packages[j].kind + "/"@ + packages[j].id),
        ),
{
    let more = packages.take(j + 1);
    assert(more.drop_last() == packages.take(j));
    assert(directories.take(j + 1).drop_last() == directories.take(j));
    assert(more.last() == packages[j]);
    assert(directories.take(j + 1).last() == directories[j]);
    assert(packages.take(j)[i] == packages[i]);
    assert(key_of(packages.take(j)[i]) == key_of(packages[j]));
    assert("duplicate package "@ + (packages[j].kind + "/"@ + packages[j].id)
        == "duplicate package "@ + packages[j].kind + "/"@ + packages[j].id);
    lemma_trouble_stays(packages, directories, j + 1);
}

/// What stands at a target is left alone, unless it is a link to the source,
/// which becomes a copy. Where nothing stands there, the source is copied once:
/// not where the package was initialized before.
pub proof fn lemma_what_is_done(check: &Check, found: &Found, step: Step)
    requires
        call_ensures(next_step, (check, found), step),
    ensures
        *found is Nothing ==> (step is Seed <==> !check.recorded) && (step is Leave
            <==> check.recorded),
        *found is Other ==> step is Leave,
        *found matches Found::Link(to) ==> {
            &&& crate::paths::is_same_path(to@, check.source@) ==> step is Materialize
            &&& !crate::paths::is_same_path(to@, check.source@) ==> step is Leave
        },
        *found matches Found::Unreadable(text) ==> (step matches Step::Fail(e) && e@ == Trouble::Io(
            text@,
        )),
{
}

/// Checking a place accepts what leads to a directory, whether it is a link or
/// not, as long as it is no link to the source; a link to the source is judged by
/// the source.
pub proof fn lemma_checked_targets(check: &Check, sight: &Sight, r: Result<(), ReconcileError>)
    requires
        call_ensures(check_target, (check, sight), r),
    ensures
        sight.found is Nothing ==> r is Ok,
        sight.found is Unreadable ==> r is Err,
        sight.found is Other ==> (r is Ok <==> sight.leads_to_directory),
        sight.found matches Found::Link(to) ==> (r is Ok <==> if crate::paths::is_same_path(
            to@,
            check.source@,
        ) {
            sight.source_is_directory && check.source@.len() > 0 && check.source@[0] == '/'
        } else {
            sight.leads_to_directory
        }),
{
}

/// A copy has the mode of the source with the bit with which its owner may write.
pub proof fn lemma_mutable_modes(mode: u32, r: u32)
    requires
        call_ensures(mutable_mode, (mode,), r),
    ensures
        (mode / 128) % 2 == 1 ==> r == mode,
        (mode / 128) % 2 == 0 ==> r == mode + 128,
{
    assert((mode / 128) % 2 == 1 ==> mode | 0o200 == mode) by (bit_vector);
    assert((mode / 128) % 2 == 0 ==> (mode | 0o200) == mode + 128) by (bit_vector);
}

/// A plan looks at the target of every package that should be present, and at
/// nothing else, and records it.
pub proof fn lemma_plans(
    packages: &Vec<DesiredPackage>,
    previous: ManagedState,
    directories: &Vec<bool>,
    data: &str,
    plan: Plan,
    i: int,
)
    requires
        directories@.len() == packages@.len(),
        call_ensures(
            plan_manifest,
            (packages, previous, directories, data),
            Ok::<Plan, ReconcileError>(plan),
        ),
        0 <= i < packages@.len(),
    ensures
        ({
            let package = packages@[i]@;
            let key = package.kind + "/"@ + package.id;
            &&& package.state == "present"@ ==> plan.checks@.contains_key(key)
                && plan.checks@[key].target@ == target_of(data@, package)
                && plan.state@.contains_key(key)
            &&& package.state == "present"@ && previous@.contains_key(key) ==> plan.checks@[key].recorded
                && plan.checks@[key].source@ == previous@[key].store_path@ && plan.state@[key]@
                == previous@[key]@
            &&& package.state == "present"@ && !previous@.contains_key(key)
                ==> !plan.checks@[key].recorded && plan.checks@[key].source@ == package.store_path
                && plan.state@[key].version@ == package.version
                && plan.state@[key].store_path@ == package.store_path
            &&& package.state == "absent"@ ==> !plan.checks@.contains_key(key)
                && !plan.state@.contains_key(key)
        }),
{
    reveal_strlit("present");
    reveal_strlit("absent");
    assert("present"@.len() == 7 && "absent"@.len() == 6);
    let all = contents(packages@);
    let package = packages@[i]@;
    let key = key_of(package);
    let before = records(previous@);
    assert(all[i] == package);
    lemma_declared(all, i);
    assert(before.contains_key(key) == previous@.contains_key(key));
    assert(records(plan.state@).contains_key(key) == plan.state@.contains_key(key));
    if package.state == "present"@ {
        assert(declares(all, key, "present"@));
        assert(plan.checks@.contains_key(key));
        assert(plan.checks@[key]@ == place(package, before, data@));
        if previous@.contains_key(key) {
            if declares(all, key, "absent"@) {
                lemma_declared_package(all, key, "absent"@);
            }
            lemma_records_stay(all, before, key);
            assert(records(plan.state@)[key] == plan.state@[key]@);
        } else {
            lemma_new_record(all, before, i);
            assert(records(plan.state@)[key] == plan.state@[key]@);
        }
    }
    if package.state == "absent"@ {
        assert(declares(all, key, "absent"@));
        lemma_absent_resets_only_the_marker(all, before, plan.checks@, data@, key);
    }
}

}
