//! Running one import profile end to end: which importer serves it, and what
//! a run reports at each stage where it can fail.
//!
//! A run never returns an error: every failure travels in its result, so a
//! sweep over several profiles can continue past it. The work between the
//! decisions here (parsing the profile's files, planning or writing the rows)
//! is done by the caller, which hands each outcome back to these functions.

use vstd::prelude::*;
use vstd::string::*;

use crate::model::ProfileId;
use crate::text::str_equal_text;

verus! {

/// Whether a run writes.
#[derive(Debug, Clone, Copy, PartialEq, Eq, Structural)]
pub enum Mode {
    /// Resolve and report; open no batch, write nothing, take no snapshot.
    DryRun,
    /// Import for real: one batch per profile.
    Commit,
}

/// Which profiles a sweep covers.
#[derive(Debug, Clone, PartialEq, Eq)]
pub enum Selection {
    /// One profile, by its unique name.
    One(String),
    /// Every profile, in name order.
    All,
}

/// The identity of the profile a result belongs to.
#[derive(Debug, Clone, PartialEq, Eq)]
pub struct ProfileRef {
    /// The profile's id.
    pub id: ProfileId,
    /// The profile's unique name.
    pub name: String,
    /// The importer the profile names.
    pub importer: String,
}

/// Where a profile's run failed.
#[derive(Debug, Clone, Copy, PartialEq, Eq, Structural)]
pub enum FailureStage {
    /// The profile names an importer the registry does not hold.
    UnknownImporter,
    /// The importer failed: unreadable or unparseable files.
    Importer,
    /// Planning or executing the import returned an error.
    Engine,
}

/// The stable snake-case key of a stage.
pub open spec fn stage_label(stage: FailureStage) -> Seq<char> {
    match stage {
        FailureStage::UnknownImporter => "unknown_importer"@,
        FailureStage::Importer => "importer"@,
        FailureStage::Engine => "engine"@,
    }
}

impl FailureStage {
    /// Returns the stable snake-case key a machine-readable report uses.
    pub fn label(self) -> (r: &'static str)
        ensures
            r@ == stage_label(self),
    {
        match self {
            FailureStage::UnknownImporter => "unknown_importer",
            FailureStage::Importer => "importer",
            FailureStage::Engine => "engine",
        }
    }
}

/// Why a profile's run produced nothing.
#[derive(Debug, Clone, PartialEq, Eq)]
pub struct ProfileFailure {
    /// The step that failed.
    pub stage: FailureStage,
    /// The underlying error's message, without a stage prefix.
    pub message: String,
}

/// The text a failure renders as: importer errors carry an `import error: `
/// prefix, the others none.
pub open spec fn failure_text(f: ProfileFailure) -> Seq<char> {
    match f.stage {
        FailureStage::Importer => "import error: "@ + f.message@,
        _ => f.message@,
    }
}

/// The message of a failure to find the importer a profile names.
pub open spec fn unknown_importer_message(importer: Seq<char>, profile: Seq<char>) -> Seq<char> {
    "unknown importer '"@ + importer + "' for profile '"@ + profile + "'"@
}

impl ProfileFailure {
    /// Renders the message printed for this failure.
    pub fn to_string(&self) -> (r: String)
        ensures
            r@ == failure_text(*self),
    {
        match self.stage {
            FailureStage::Importer => {
                let mut out = String::from_str("import error: ");
                out.append(self.message.as_str());
                out
            },
            _ => self.message.clone(),
        }
    }
}

/// The failure of an importer that could not read or parse its files.
pub fn importer_failure(message: String) -> (r: ProfileFailure)
    ensures
        r.stage == FailureStage::Importer,
        r.message@ == message@,
{
    ProfileFailure { stage: FailureStage::Importer, message }
}

/// What to ask of the engine once the importer has produced its rows.
#[derive(Debug, Clone, Copy, PartialEq, Eq, Structural)]
pub enum EngineCall {
    /// Resolve and report without writing.
    Plan,
    /// Write the rows in one batch.
    Execute,
}

/// The step that follows the importer: a failure at the importer stage when
/// it reported one, else a plan for a dry run and an execution for a commit.
pub fn after_import(mode: Mode, imported: Result<(), String>) -> (r: Result<EngineCall, ProfileFailure>)
    ensures
        match imported {
            Err(m) => r matches Err(f) && f.stage == FailureStage::Importer && f.message@ == m@,
            Ok(()) => r == (if mode == Mode::DryRun {
                Ok::<EngineCall, ProfileFailure>(EngineCall::Plan)
            } else {
                Ok::<EngineCall, ProfileFailure>(EngineCall::Execute)
            }),
        },
{
    match imported {
        Err(m) => Err(importer_failure(m)),
        Ok(()) => match mode {
            Mode::DryRun => Ok(EngineCall::Plan),
            Mode::Commit => Ok(EngineCall::Execute),
        },
    }
}

/// The run's result once the engine has answered: what it produced, or a
/// failure at the engine stage carrying its message.
pub fn after_engine<T>(ran: Result<T, String>) -> (r: Result<T, ProfileFailure>)
    ensures
        match ran {
            Ok(v) => r == Ok::<T, ProfileFailure>(v),
            Err(m) => r matches Err(f) && f.stage == FailureStage::Engine && f.message@ == m@,
        },
{
    match ran {
        Ok(v) => Ok(v),
        Err(m) => Err(ProfileFailure { stage: FailureStage::Engine, message: m }),
    }
}

/// The index of the first name in `names` equal to `name`.
pub open spec fn first_named(names: Seq<String>, name: Seq<char>) -> Option<int> {
    if exists|i: int| 0 <= i < names.len() && names[i]@ == name {
        Some(choose|i: int|
            0 <= i < names.len() && names[i]@ == name && forall|j: int|
                0 <= j < i ==> names[j]@ != name)
    } else {
        None
    }
}

/// Runs import profiles: knows the importers it can drive, by name in
/// registration order, and whether a committing sweep snapshots first.
#[derive(Debug)]
pub struct ImportEngine {
    /// The registered importers' names, in registration order.
    importers: Vec<String>,
    /// Take a snapshot before the first write of a committing sweep.
    snapshot_before_write: bool,
}

impl ImportEngine {
    /// The registered importers' names.
    pub closed spec fn importer_names(&self) -> Seq<String> {
        self.importers@
    }

    /// The snapshot policy.
    pub closed spec fn spec_snapshot_before_write(&self) -> bool {
        self.snapshot_before_write
    }

    /// Builds an engine over the importers registered under `importers`.
    pub fn new(importers: Vec<String>, snapshot_before_write: bool) -> (r: ImportEngine)
        ensures
            r.importer_names() == importers@,
            r.spec_snapshot_before_write() == snapshot_before_write,
    {
        ImportEngine { importers, snapshot_before_write }
    }

    /// Whether a committing sweep snapshots before its first write.
    pub fn snapshot_before_write(&self) -> (r: bool)
        ensures
            r == self.spec_snapshot_before_write(),
    {
        self.snapshot_before_write
    }

    /// The first step of a run: the position of the importer `profile`
    /// names, or the failure of a profile naming none that is registered.
    pub fn select_importer(&self, profile: &ProfileRef) -> (r: Result<usize, ProfileFailure>)
        ensures
            match first_named(self.importer_names(), profile.importer@) {
                Some(i) => r == Ok::<usize, ProfileFailure>(i as usize),
                None => r matches Err(f) && f.stage == FailureStage::UnknownImporter
                    && f.message@ == unknown_importer_message(profile.importer@, profile.name@),
            },
    {
        let n = self.importers.len();
        let mut i: usize = 0;
        while i < n
            invariant
                n == self.importers@.len(),
                i <= n,
                forall|j: int| 0 <= j < i ==> self.importers@[j]@ != profile.importer@,
            decreases n - i,
        {
            if str_equal_text(self.importers[i].as_str(), profile.importer.as_str()) {
                proof {
                    let names = self.importers@;
                    let name = profile.importer@;
                    assert(names[i as int]@ == name);
                    let k = choose|k: int|
                        0 <= k < names.len() && names[k]@ == name && forall|j: int|
                            0 <= j < k ==> names[j]@ != name;
                    if k < i {
                    } else if k > i {
                        assert(names[i as int]@ != name);
                    }
                }
                return Ok(i);
            }
            i = i + 1;
        }
        let mut message = String::from_str("unknown importer '");
        message.append(profile.importer.as_str());
        message.append("' for profile '");
        message.append(profile.name.as_str());
        message.append("'");
        Err(ProfileFailure { stage: FailureStage::UnknownImporter, message })
    }
}

} // verus!
