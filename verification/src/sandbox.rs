//! Sandboxes: backends that run a file and report on it.
//!
//! No backend here runs anything by itself. The two that are not built out
//! report every file as suspicious: nothing was observed, and that does not
//! make a file safe.
use crate::identifiers;
use crate::identifiers::new_id;
use crate::json;
use crate::json::{
    bool_value, display, int_value, list_value, object_value, text_value, with_member, Json,
};
use crate::text;
use serde_json::Value;
use vstd::prelude::*;

verus! {

/// Outcome of a detonation.
#[derive(Debug)]
pub struct DetonationReport {
    /// Exit code of the process, if it exited in time.
    pub exit_code: Option<i32>,
    /// Flagged behaviours.
    pub flagged_behaviors: Vec<String>,
    /// Attempts to reach the network.
    pub network_attempts: Vec<String>,
    pub verdict: Verdict,
}

/// What a report says.
pub struct ReportModel {
    pub exit_code: Option<i32>,
    pub flagged_behaviors: Seq<Seq<char>>,
    pub network_attempts: Seq<Seq<char>>,
    pub verdict: Verdict,
}

impl View for DetonationReport {
    type V = ReportModel;

    open spec fn view(&self) -> ReportModel {
        ReportModel {
            exit_code: self.exit_code,
            flagged_behaviors: text::texts(self.flagged_behaviors@),
            network_attempts: text::texts(self.network_attempts@),
            verdict: self.verdict,
        }
    }
}

/// Verdict of a sandbox.
#[derive(Debug, Clone, Copy, PartialEq, Eq, Structural)]
pub enum Verdict {
    Clean,
    Suspicious,
    Malicious,
}

/// The word for a verdict.
pub open spec fn verdict_text(v: Verdict) -> Seq<char> {
    match v {
        Verdict::Clean => "CLEAN"@,
        Verdict::Suspicious => "SUSPICIOUS"@,
        Verdict::Malicious => "MALICIOUS"@,
    }
}

impl Verdict {
    /// The word for this verdict.
    pub fn text(&self) -> (r: &'static str)
        ensures
            r@ == verdict_text(*self),
    {
        match self {
            Verdict::Clean => "CLEAN",
            Verdict::Suspicious => "SUSPICIOUS",
            Verdict::Malicious => "MALICIOUS",
        }
    }
}

/// A backend that runs a file for a time and reports on it.
pub trait Sandbox {
    fn detonate(&self, binary_path: &str, timeout_secs: u64) -> (r: Result<
        DetonationReport,
        String,
    >);
}

/// A report of a run of which only one thing can be said.
pub open spec fn bare_report(behavior: Seq<char>, verdict: Verdict) -> ReportModel {
    ReportModel {
        exit_code: None,
        flagged_behaviors: seq![behavior],
        network_attempts: Seq::empty(),
        verdict,
    }
}

/// A report of a run of which only one thing can be said.
fn report(behavior: &str, verdict: Verdict) -> (r: DetonationReport)
    ensures
        r@ == bare_report(behavior@, verdict),
{
    let mut flagged_behaviors: Vec<String> = Vec::new();
    flagged_behaviors.push(behavior.to_string());
    let network_attempts: Vec<String> = Vec::new();
    assert(text::texts(flagged_behaviors@) =~= seq![behavior@]);
    assert(text::texts(network_attempts@) =~= Seq::<Seq<char>>::empty());
    DetonationReport { exit_code: None, flagged_behaviors, network_attempts, verdict }
}

/// What the stub reports of every file.
pub const STUB_REPORT: &'static str = "STUB: HCS not available on Linux dev machine — treat as suspicious";

/// A stub that runs nothing.
#[derive(Debug)]
pub struct StubSandbox;

impl StubSandbox {
    pub fn new() -> (r: Self)
        ensures
            r == StubSandbox,
    {
        StubSandbox
    }
}

impl Default for StubSandbox {
    fn default() -> (r: Self)
        ensures
            r == StubSandbox,
    {
        StubSandbox
    }
}

impl Sandbox for StubSandbox {
    fn detonate(&self, binary_path: &str, timeout_secs: u64) -> (r: Result<
        DetonationReport,
        String,
    >)
        ensures
            r matches Ok(d) && d@ == bare_report(STUB_REPORT@, Verdict::Suspicious),
    {
        Ok(report(STUB_REPORT, Verdict::Suspicious))
    }
}

/// What the restricted process reports of every file.
pub const RESTRICTED_REPORT: &'static str = "STUB: restricted-process sandbox not yet implemented — sample was NOT \
     executed. Verdict is a fail-closed default, not an observed behaviour.";

/// A restricted process, of which the restrictions are not built yet. It runs
/// nothing.
#[derive(Debug)]
pub struct RestrictedSandbox;

impl RestrictedSandbox {
    pub fn new() -> (r: Self)
        ensures
            r == RestrictedSandbox,
    {
        RestrictedSandbox
    }
}

impl Default for RestrictedSandbox {
    fn default() -> (r: Self)
        ensures
            r == RestrictedSandbox,
    {
        RestrictedSandbox
    }
}

impl Sandbox for RestrictedSandbox {
    fn detonate(&self, binary_path: &str, timeout_secs: u64) -> (r: Result<
        DetonationReport,
        String,
    >)
        ensures
            r matches Ok(d) && d@ == bare_report(RESTRICTED_REPORT@, Verdict::Suspicious),
    {
        Ok(report(RESTRICTED_REPORT, Verdict::Suspicious))
    }
}

/// The backend of a platform.
#[derive(Debug)]
pub enum PlatformSandbox {
    Restricted(RestrictedSandbox),
    Stub(StubSandbox),
}

/// The backend of this platform: the restricted process on Windows, the stub
/// elsewhere.
pub fn platform_sandbox(windows: bool) -> (r: PlatformSandbox)
    ensures
        r == if windows {
            PlatformSandbox::Restricted(RestrictedSandbox)
        } else {
            PlatformSandbox::Stub(StubSandbox)
        },
{
    if windows {
        PlatformSandbox::Restricted(RestrictedSandbox::new())
    } else {
        PlatformSandbox::Stub(StubSandbox::new())
    }
}

/// What the backend of a platform reports of every file.
pub open spec fn platform_report(s: PlatformSandbox) -> ReportModel {
    match s {
        PlatformSandbox::Restricted(_) => bare_report(RESTRICTED_REPORT@, Verdict::Suspicious),
        PlatformSandbox::Stub(_) => bare_report(STUB_REPORT@, Verdict::Suspicious),
    }
}

impl Sandbox for PlatformSandbox {
    fn detonate(&self, binary_path: &str, timeout_secs: u64) -> (r: Result<
        DetonationReport,
        String,
    >)
        ensures
            r matches Ok(d) && d@ == platform_report(*self),
    {
        match self {
            PlatformSandbox::Restricted(s) => s.detonate(binary_path, timeout_secs),
            PlatformSandbox::Stub(s) => s.detonate(binary_path, timeout_secs),
        }
    }
}

// ---------------------------------------------------------------------------
// Containers of the Host Compute Service
// ---------------------------------------------------------------------------

/// A container of the Host Compute Service, without a network.
#[derive(Debug)]
pub struct HcsSandbox {
    /// Path of the read-only base image, which must exist.
    pub base_layer_path: String,
}

/// The first and only layer of a container.
pub open spec fn layer(id: Seq<char>, base: Seq<char>) -> Map<Seq<char>, Json> {
    Map::empty().insert("Id"@, Json::Text(id)).insert("Path"@, Json::Text(base))
}

/// The scratch disk of a container.
pub open spec fn scratch_disk(path: Seq<char>) -> Map<Seq<char>, Json> {
    Map::empty().insert("Path"@, Json::Text(path)).insert("CreateInstead"@, Json::Bool(true)).insert(
        "SizeInGB"@,
        Json::Int(2),
    )
}

/// The disks of a container.
pub open spec fn storage(id: Seq<char>, base: Seq<char>, scratch: Seq<char>) -> Map<
    Seq<char>,
    Json,
> {
    Map::empty().insert("Layers"@, Json::List(seq![Json::Object(layer(id, base))])).insert(
        "ScratchVhd"@,
        Json::Object(scratch_disk(scratch)),
    )
}

/// An object with one member.
pub open spec fn single(key: Seq<char>, value: Json) -> Json {
    Json::Object(Map::empty().insert(key, value))
}

/// The document that describes a container: no network adapter, a scratch disk
/// of its own, and bounded resources.
pub open spec fn container(id: Seq<char>, base: Seq<char>, scratch: Seq<char>) -> Json {
    Json::Object(
        Map::empty().insert(
            "SchemaVersion"@,
            Json::Object(
                Map::empty().insert("Major"@, Json::Int(2)).insert("Minor"@, Json::Int(1)),
            ),
        ).insert("Owner"@, Json::Text("aegis-host"@)).insert(
            "GuestOs"@,
            single("HostName"@, Json::Text("aegis-sandbox"@)),
        ).insert("Storage"@, Json::Object(storage(id, base, scratch))).insert(
            "Networking"@,
            Json::Object(Map::empty()),
        ).insert("Processor"@, single("Count"@, Json::Int(1))).insert(
            "Memory"@,
            single("SizeInMB"@, Json::Int(512)),
        ),
    )
}

/// An object with one member.
fn single_value(key: &str, value: Value) -> (r: Value)
    ensures
        json::json(r) == single(key@, json::json(value)),
{
    let mut pairs: Vec<(String, Value)> = Vec::new();
    with_member(&mut pairs, key, value);
    object_value(pairs)
}

/// The disks of a container.
fn storage_value(id: &str, base: &str, scratch: &str) -> (r: Value)
    ensures
        json::json(r) == Json::Object(storage(id@, base@, scratch@)),
{
    let mut pairs: Vec<(String, Value)> = Vec::new();
    with_member(&mut pairs, "Id", text_value(id));
    with_member(&mut pairs, "Path", text_value(base));
    let first = object_value(pairs);
    let mut layers: Vec<Value> = Vec::new();
    layers.push(first);
    assert(json::contents(layers@) =~= seq![Json::Object(layer(id@, base@))]);
    let mut pairs: Vec<(String, Value)> = Vec::new();
    with_member(&mut pairs, "Path", text_value(scratch));
    with_member(&mut pairs, "CreateInstead", bool_value(true));
    with_member(&mut pairs, "SizeInGB", int_value(2));
    let disk = object_value(pairs);
    let mut pairs: Vec<(String, Value)> = Vec::new();
    with_member(&mut pairs, "Layers", list_value(layers));
    with_member(&mut pairs, "ScratchVhd", disk);
    object_value(pairs)
}

/// The document that describes a container.
fn container_value(id: &str, base: &str, scratch: &str) -> (r: Value)
    ensures
        json::json(r) == container(id@, base@, scratch@),
{
    let mut version: Vec<(String, Value)> = Vec::new();
    with_member(&mut version, "Major", int_value(2));
    with_member(&mut version, "Minor", int_value(1));
    let none: Vec<(String, Value)> = Vec::new();
    let mut pairs: Vec<(String, Value)> = Vec::new();
    with_member(&mut pairs, "SchemaVersion", object_value(version));
    with_member(&mut pairs, "Owner", text_value("aegis-host"));
    with_member(&mut pairs, "GuestOs", single_value("HostName", text_value("aegis-sandbox")));
    with_member(&mut pairs, "Storage", storage_value(id, base, scratch));
    with_member(&mut pairs, "Networking", object_value(none));
    with_member(&mut pairs, "Processor", single_value("Count", int_value(1)));
    with_member(&mut pairs, "Memory", single_value("SizeInMB", int_value(512)));
    object_value(pairs)
}

/// What is said where a container could not be created.
pub const CREATE_FAILED: &'static str = "HcsCreateComputeSystem failed: ";

/// What is said where a container did not start.
pub const START_FAILED: &'static str = "HcsStartComputeSystem failed: ";

/// What is reported of every run in a container.
pub const CONTAINER_REPORT: &'static str = "Phase 4 stub: behavioral telemetry (ETW) not yet wired";

/// Why a step failed, where it did.
pub open spec fn words_of(step: Result<(), String>) -> Option<Seq<char>> {
    match step {
        Ok(_) => None,
        Err(words) => Some(words@),
    }
}

/// What comes of a run in a container, where `create` and `start` tell why those
/// steps failed: a report, or the words of the error.
pub open spec fn contained_run(create: Option<Seq<char>>, start: Option<Seq<char>>) -> Result<
    ReportModel,
    Seq<char>,
> {
    match (create, start) {
        (Some(words), _) => Err(CREATE_FAILED@ + words),
        (None, Some(words)) => Err(START_FAILED@ + words),
        (None, None) => Ok(bare_report(CONTAINER_REPORT@, Verdict::Suspicious)),
    }
}

impl HcsSandbox {
    /// A container with this base image.
    pub fn new(base_layer_path: &str) -> (r: Self)
        ensures
            r.base_layer_path@ == base_layer_path@,
    {
        HcsSandbox { base_layer_path: base_layer_path.to_string() }
    }

    /// The document that describes a container with this base image and
    /// scratch disk, under the name `id` for its layer.
    pub fn config_json(&self, id: &str, scratch_vhd_path: &str) -> (r: String)
        ensures
            r@ == json::displayed(container(id@, self.base_layer_path@, scratch_vhd_path@)),
    {
        display(&container_value(id, self.base_layer_path.as_str(), scratch_vhd_path))
    }

    /// The document that describes a container with this base image and
    /// scratch disk, under a fresh name for its layer.
    pub fn build_config_json(&self, scratch_vhd_path: &str) -> (r: String)
        ensures
            exists|id: Seq<char>| #[trigger]
                identifiers::random_uuid_text(id) && r@ == json::displayed(
                    container(id, self.base_layer_path@, scratch_vhd_path@),
                ),
    {
        let id = new_id();
        self.config_json(id.as_str(), scratch_vhd_path)
    }

    /// The scratch disk of the run with this name.
    pub fn scratch_path(temp_dir: &str, id: &str) -> (r: String)
        ensures
            r@ == temp_dir@ + "\\aegis_scratch_"@ + id@ + ".vhdx"@,
    {
        let mut out: String = temp_dir.to_string();
        out.append("\\aegis_scratch_");
        out.append(id);
        out.append(".vhdx");
        out
    }

    /// What comes of a run, by how the container was created and started. Of
    /// one that started, nothing was observed: it is suspicious, however the run
    /// ended.
    pub fn conclude(created: &Result<(), String>, started: &Result<(), String>) -> (r: Result<
        DetonationReport,
        String,
    >)
        ensures
            (match r {
                Ok(d) => Ok(d@),
                Err(words) => Err(words@),
            }) == contained_run(words_of(*created), words_of(*started)),
    {
        if let Err(words) = created {
            let mut out: String = CREATE_FAILED.to_string();
            out.append(words.as_str());
            return Err(out);
        }
        if let Err(words) = started {
            let mut out: String = START_FAILED.to_string();
            out.append(words.as_str());
            return Err(out);
        }
        Ok(report(CONTAINER_REPORT, Verdict::Suspicious))
    }
}

// ---------------------------------------------------------------------------
// Laws
// ---------------------------------------------------------------------------

/// A run in a container never reports a file as clean, whatever failed.
pub proof fn law_a_container_never_reports_clean(
    create: Option<Seq<char>>,
    start: Option<Seq<char>>,
)
    ensures
        contained_run(create, start) matches Ok(report) ==> report.verdict != Verdict::Clean,
        contained_run(create, start) is Ok <==> create is None && start is None,
{
}

/// A backend that runs nothing never reports a file as clean, on any platform.
pub proof fn law_an_unfinished_sandbox_never_reports_clean(s: PlatformSandbox)
    ensures
        platform_report(s).verdict == Verdict::Suspicious,
        platform_report(s).flagged_behaviors.len() == 1,
{
}

/// A container is described without a network, with limits on what it may use,
/// on the base image and the scratch disk that it was given.
pub proof fn law_a_container_has_no_network(id: Seq<char>, base: Seq<char>, scratch: Seq<char>)
    ensures
        container(id, base, scratch) matches Json::Object(m) && {
            &&& m.contains_key("Networking"@)
            &&& m["Networking"@] == Json::Object(Map::empty())
            &&& m.contains_key("Storage"@)
            &&& m["Storage"@] == Json::Object(storage(id, base, scratch))
            &&& m.contains_key("Memory"@)
            &&& m.contains_key("Processor"@)
        },
        storage(id, base, scratch)["Layers"@] == Json::List(seq![Json::Object(layer(id, base))]),
        layer(id, base)["Id"@] == Json::Text(id),
        layer(id, base)["Path"@] == Json::Text(base),
        scratch_disk(scratch)["Path"@] == Json::Text(scratch),
{
    reveal_strlit("Networking");
    reveal_strlit("Storage");
    reveal_strlit("Memory");
    reveal_strlit("Processor");
    reveal_strlit("SchemaVersion");
    reveal_strlit("Owner");
    reveal_strlit("GuestOs");
    reveal_strlit("Layers");
    reveal_strlit("ScratchVhd");
    reveal_strlit("Id");
    reveal_strlit("Path");
    reveal_strlit("CreateInstead");
    reveal_strlit("SizeInGB");
    assert("Networking"@.len() == 10 && "Storage"@.len() == 7 && "Memory"@.len() == 6
        && "Processor"@.len() == 9 && "Layers"@.len() == 6 && "ScratchVhd"@.len() == 10 && "Id"@.len()
        == 2 && "Path"@.len() == 4 && "CreateInstead"@.len() == 13 && "SizeInGB"@.len() == 8);
}

} // verus!
