//! Relocation: moving an entry inside the content root, and moving one into
//! the trash directory. Both are one rename, which is decided only once the
//! source was found and nothing was found at the destination.

use vstd::prelude::*;
use vstd::string::*;
use crate::error::{ErrorKind, GatewayError};
use crate::path::{resolve, resolvable, resolved_names, joined, lemma_resolved_is_contained};

verus! {

/// The body of a move request: where the entry is to go, relative to the root.
pub struct MoveRequest {
    pub destination: String,
}

/// Where a relocation stands.
#[derive(Clone, Copy, Debug, PartialEq, Eq, Structural)]
pub enum RelocPhase {
    /// Waiting to learn whether the source exists.
    Source,
    /// Waiting to learn whether the destination's parent directory exists.
    Parent,
    /// Waiting for the parent directory to be created.
    CreatingParent,
    /// Waiting to learn whether the destination exists.
    Destination,
    /// Waiting for the rename.
    Renaming,
    /// The outcome was decided.
    Done,
}

/// What the caller reports back.
#[derive(Clone, Copy, Debug, PartialEq, Eq, Structural)]
pub enum RelocEvent {
    /// What was probed for exists.
    Present,
    /// What was probed for does not exist.
    Absent,
    /// What was probed for lies, with its links followed, outside the root.
    Outside,
    /// The operation that was asked for succeeded.
    Succeeded,
    /// The operation that was asked for failed.
    Failed,
}

/// What the caller does next.
#[derive(Clone, Copy, Debug, PartialEq, Eq, Structural)]
pub enum RelocAction {
    /// Ask whether the destination's parent directory exists.
    ProbeParent,
    /// Create the destination's parent directory, and those above it.
    CreateParent,
    /// Ask whether the destination exists.
    ProbeDestination,
    /// Rename the source to the destination.
    Rename,
    /// Stop, and report this failure.
    Fail(ErrorKind),
    /// Stop, and report success.
    Succeed,
}

/// The decision table of a relocation. A source that is absent fails with
/// `NotFound`; a source, a parent directory or a destination that links lead
/// out of the root fails with `InvalidPath`; a missing parent of the destination is created first; a
/// destination that exists fails with `Conflict`; the rename is asked for only
/// after the report that the destination is absent; a failure of the file
/// system gives `IOFailure`, and a report that was not asked for
/// `InvalidInput`.
pub open spec fn reloc_next(phase: RelocPhase, has_parent: bool, event: RelocEvent) -> (
    RelocPhase,
    RelocAction,
) {
    match (phase, event) {
        (RelocPhase::Source, RelocEvent::Absent) => (
            RelocPhase::Done,
            RelocAction::Fail(ErrorKind::NotFound),
        ),
        (RelocPhase::Source, RelocEvent::Outside)
        | (RelocPhase::Parent, RelocEvent::Outside)
        | (RelocPhase::Destination, RelocEvent::Outside) => (
            RelocPhase::Done,
            RelocAction::Fail(ErrorKind::InvalidPath),
        ),
        (RelocPhase::Source, RelocEvent::Present) => if has_parent {
            (RelocPhase::Parent, RelocAction::ProbeParent)
        } else {
            (RelocPhase::Destination, RelocAction::ProbeDestination)
        },
        (RelocPhase::Parent, RelocEvent::Present) => (
            RelocPhase::Destination,
            RelocAction::ProbeDestination,
        ),
        (RelocPhase::Parent, RelocEvent::Absent) => (
            RelocPhase::CreatingParent,
            RelocAction::CreateParent,
        ),
        (RelocPhase::CreatingParent, RelocEvent::Succeeded) => (
            RelocPhase::Destination,
            RelocAction::ProbeDestination,
        ),
        (RelocPhase::CreatingParent, RelocEvent::Failed) => (
            RelocPhase::Done,
            RelocAction::Fail(ErrorKind::IOFailure),
        ),
        (RelocPhase::Destination, RelocEvent::Present) => (
            RelocPhase::Done,
            RelocAction::Fail(ErrorKind::Conflict),
        ),
        (RelocPhase::Destination, RelocEvent::Absent) => (
            RelocPhase::Renaming,
            RelocAction::Rename,
        ),
        (RelocPhase::Renaming, RelocEvent::Succeeded) => (RelocPhase::Done, RelocAction::Succeed),
        (RelocPhase::Renaming, RelocEvent::Failed) => (
            RelocPhase::Done,
            RelocAction::Fail(ErrorKind::IOFailure),
        ),
        _ => (RelocPhase::Done, RelocAction::Fail(ErrorKind::InvalidInput)),
    }
}

/// No destination is overwritten, nothing is touched outside the root, and a
/// source that is gone is reported: the rename is decided only on the report
/// that the destination is absent, and the report that something lies outside
/// the root ends the relocation before anything is created or renamed; a
/// destination that is present always gives `Conflict`, an absent source
/// always `NotFound`; and a relocation that is done stays done.
pub proof fn lemma_rename_only_where_absent(phase: RelocPhase, has_parent: bool, event: RelocEvent)
    ensures
        reloc_next(phase, has_parent, event).1 == RelocAction::Rename ==> phase
            == RelocPhase::Destination && event == RelocEvent::Absent,
        phase == RelocPhase::Destination && event == RelocEvent::Present ==> reloc_next(
            phase,
            has_parent,
            event,
        ) == (RelocPhase::Done, RelocAction::Fail(ErrorKind::Conflict)),
        phase == RelocPhase::Source && event == RelocEvent::Absent ==> reloc_next(
            phase,
            has_parent,
            event,
        ) == (RelocPhase::Done, RelocAction::Fail(ErrorKind::NotFound)),
        event == RelocEvent::Outside ==> reloc_next(phase, has_parent, event).0
            == RelocPhase::Done && reloc_next(phase, has_parent, event).1 is Fail,
        reloc_next(phase, has_parent, event).1 == RelocAction::CreateParent ==> phase
            == RelocPhase::Parent && event == RelocEvent::Absent,
        phase == RelocPhase::Done ==> reloc_next(phase, has_parent, event).0 == RelocPhase::Done,
{
}

/// One rename that was asked for: from where, to where, and which directory
/// has to exist before it.
pub struct Relocation {
    source: String,
    destination: String,
    parent: Option<String>,
}

impl Relocation {
    /// The path of the source in the file system.
    pub closed spec fn source(&self) -> Seq<char> {
        self.source@
    }

    /// The path of the destination in the file system.
    pub closed spec fn destination(&self) -> Seq<char> {
        self.destination@
    }

    /// The path of the directory that is to hold the destination, if it has one.
    pub closed spec fn parent(&self) -> Option<Seq<char>> {
        match self.parent {
            Some(p) => Some(p@),
            None => None,
        }
    }

    /// The path of the source in the file system.
    pub fn source_path(&self) -> (p: &str)
        ensures
            p@ == self.source(),
    {
        self.source.as_str()
    }

    /// The path of the destination in the file system.
    pub fn destination_path(&self) -> (p: &str)
        ensures
            p@ == self.destination(),
    {
        self.destination.as_str()
    }

    /// The path of the directory that is to hold the destination.
    pub fn parent_path(&self) -> (p: Option<&str>)
        ensures
            match p {
                Some(d) => self.parent() == Some(d@),
                None => self.parent() is None,
            },
    {
        match &self.parent {
            Some(d) => Some(d.as_str()),
            None => None,
        }
    }

    /// Where a relocation starts: the caller first asks whether the source
    /// exists.
    pub fn start(&self) -> (phase: RelocPhase)
        ensures
            phase == RelocPhase::Source,
    {
        RelocPhase::Source
    }

    /// Takes the caller's report and decides what comes next, by the table
    /// `reloc_next`.
    pub fn step(&self, phase: RelocPhase, event: RelocEvent) -> (r: (RelocPhase, RelocAction))
        ensures
            r == reloc_next(phase, self.parent() is Some, event),
    {
        match (phase, event) {
            (RelocPhase::Source, RelocEvent::Absent) => (
                RelocPhase::Done,
                RelocAction::Fail(ErrorKind::NotFound),
            ),
            (RelocPhase::Source, RelocEvent::Outside)
            | (RelocPhase::Parent, RelocEvent::Outside)
            | (RelocPhase::Destination, RelocEvent::Outside) => (
                RelocPhase::Done,
                RelocAction::Fail(ErrorKind::InvalidPath),
            ),
            (RelocPhase::Source, RelocEvent::Present) => if self.parent.is_some() {
                (RelocPhase::Parent, RelocAction::ProbeParent)
            } else {
                (RelocPhase::Destination, RelocAction::ProbeDestination)
            },
            (RelocPhase::Parent, RelocEvent::Present) => (
                RelocPhase::Destination,
                RelocAction::ProbeDestination,
            ),
            (RelocPhase::Parent, RelocEvent::Absent) => (
                RelocPhase::CreatingParent,
                RelocAction::CreateParent,
            ),
            (RelocPhase::CreatingParent, RelocEvent::Succeeded) => (
                RelocPhase::Destination,
                RelocAction::ProbeDestination,
            ),
            (RelocPhase::CreatingParent, RelocEvent::Failed) => (
                RelocPhase::Done,
                RelocAction::Fail(ErrorKind::IOFailure),
            ),
            (RelocPhase::Destination, RelocEvent::Present) => (
                RelocPhase::Done,
                RelocAction::Fail(ErrorKind::Conflict),
            ),
            (RelocPhase::Destination, RelocEvent::Absent) => (
                RelocPhase::Renaming,
                RelocAction::Rename,
            ),
            (RelocPhase::Renaming, RelocEvent::Succeeded) => (
                RelocPhase::Done,
                RelocAction::Succeed,
            ),
            (RelocPhase::Renaming, RelocEvent::Failed) => (
                RelocPhase::Done,
                RelocAction::Fail(ErrorKind::IOFailure),
            ),
            _ => (RelocPhase::Done, RelocAction::Fail(ErrorKind::InvalidInput)),
        }
    }
}

/// Plans the move of the entry at `path` to `request.destination`, both
/// relative to `wwwroot`.
///
/// Refused with `InvalidPath` where either path leaves the root. Otherwise
/// source and destination are the two resolved paths, and the directory that
/// has to exist is the one that holds the destination (none where the
/// destination is the root itself).
pub fn mv(path: &str, request: &MoveRequest, wwwroot: &str) -> (r: Result<Relocation, GatewayError>)
    ensures
        match r {
            Ok(plan) => {
                &&& resolvable(path@)
                &&& resolvable(request.destination@)
                &&& plan.source() == wwwroot@ + joined(resolved_names(path@))
                &&& plan.destination() == wwwroot@ + joined(resolved_names(request.destination@))
                &&& plan.parent() == if resolved_names(request.destination@).len() == 0 {
                    None
                } else {
                    Some(wwwroot@ + joined(resolved_names(request.destination@).drop_last()))
                }
            },
            Err(e) => !(resolvable(path@) && resolvable(request.destination@)) && e is InvalidPath,
        },
{
    let source = match resolve(wwwroot, path) {
        Ok(p) => p,
        Err(e) => {
            return Err(e);
        },
    };
    let destination = match resolve(wwwroot, request.destination.as_str()) {
        Ok(p) => p,
        Err(e) => {
            return Err(e);
        },
    };
    let parent = match destination.parent() {
        Some(dir) => Some(dir.full_path()),
        None => None,
    };
    Ok(Relocation { source: source.full_path(), destination: destination.full_path(), parent })
}

/// Plans the soft deletion of the entry at `path` under `wwwroot`: its move
/// into the trash directory `trash_can`, under its own last name.
///
/// Refused with `InvalidPath` where the path leaves the root or resolves to
/// the root itself, which has no name. Otherwise the destination is the trash
/// directory, `/` and the last name of the resolved path, however deep the
/// entry lies; and the trash directory is what has to exist.
pub fn del(path: &str, wwwroot: &str, trash_can: &str) -> (r: Result<Relocation, GatewayError>)
    ensures
        match r {
            Ok(plan) => {
                &&& resolvable(path@)
                &&& resolved_names(path@).len() > 0
                &&& plan.source() == wwwroot@ + joined(resolved_names(path@))
                &&& plan.destination() == trash_can@ + seq!['/'] + resolved_names(path@).last()
                &&& plan.parent() == Some(trash_can@)
            },
            Err(e) => !(resolvable(path@) && resolved_names(path@).len() > 0) && e is InvalidPath,
        },
{
    let source = match resolve(wwwroot, path) {
        Ok(p) => p,
        Err(e) => {
            return Err(e);
        },
    };
    let name = match source.file_name() {
        Some(n) => n,
        None => {
            return Err(GatewayError::InvalidPath);
        },
    };
    let mut destination = trash_can.to_owned();
    destination.append("/");
    destination.append(name.as_str());
    proof {
        reveal_strlit("/");
        assert("/"@ =~= seq!['/']);
        assert(destination@ =~= trash_can@ + seq!['/'] + resolved_names(path@).last());
    }
    Ok(Relocation { source: source.full_path(), destination, parent: Some(trash_can.to_owned()) })
}

/// Plans the soft deletion of the root itself, which is never granted: the
/// root has no name under which it could lie in the trash directory.
pub fn del_root(wwwroot: &str, trash_can: &str) -> (r: Result<Relocation, GatewayError>)
    ensures
        r is Err,
        r->Err_0 is InvalidPath,
{
    proof {
        crate::path::lemma_empty_is_root();
        reveal_strlit("");
        assert(""@ =~= Seq::<char>::empty());
    }
    del("", wwwroot, trash_can)
}

/// The trash directory is flat: wherever the entry lies, the name under which
/// it is trashed holds no separator, so it lies directly in the trash
/// directory.
pub proof fn lemma_trash_is_flat(path: Seq<char>)
    requires
        resolvable(path),
        resolved_names(path).len() > 0,
    ensures
        crate::path::is_plain_name(resolved_names(path).last()),
        !resolved_names(path).last().contains('/'),
{
    lemma_resolved_is_contained(path);
}

/// Where the creation of a directory stands.
#[derive(Clone, Copy, Debug, PartialEq, Eq, Structural)]
pub enum CreatePhase {
    /// Waiting to learn whether the place of the new directory lies under the
    /// root once its links are followed.
    Containment,
    /// Waiting for the directory to be created.
    Creating,
    /// The outcome was decided.
    Done,
}

/// What the caller reports back.
#[derive(Clone, Copy, Debug, PartialEq, Eq, Structural)]
pub enum CreateEvent {
    /// The place of the new directory lies under the root.
    Inside,
    /// The place of the new directory lies, with its links followed, outside
    /// the root.
    Outside,
    /// The directory was created.
    Succeeded,
    /// The directory could not be created.
    Failed,
}

/// What the caller does next.
#[derive(Clone, Copy, Debug, PartialEq, Eq, Structural)]
pub enum CreateAction {
    /// Create the directory.
    Create,
    /// Stop, and report this failure.
    Fail(ErrorKind),
    /// Stop, and report success.
    Succeed,
}

/// The decision table of creating a directory: it is created only after the
/// report that its place lies under the root; a place outside fails with
/// `InvalidPath`, a failure of the file system with `IOFailure`, and a report
/// that was not asked for with `InvalidInput`.
pub open spec fn create_next(phase: CreatePhase, event: CreateEvent) -> (CreatePhase, CreateAction) {
    match (phase, event) {
        (CreatePhase::Containment, CreateEvent::Inside) => (
            CreatePhase::Creating,
            CreateAction::Create,
        ),
        (CreatePhase::Containment, CreateEvent::Outside) => (
            CreatePhase::Done,
            CreateAction::Fail(ErrorKind::InvalidPath),
        ),
        (CreatePhase::Creating, CreateEvent::Succeeded) => (CreatePhase::Done, CreateAction::Succeed),
        (CreatePhase::Creating, CreateEvent::Failed) => (
            CreatePhase::Done,
            CreateAction::Fail(ErrorKind::IOFailure),
        ),
        _ => (CreatePhase::Done, CreateAction::Fail(ErrorKind::InvalidInput)),
    }
}

/// One decision of creating a directory, by the table `create_next`.
pub fn create_dir_step(phase: CreatePhase, event: CreateEvent) -> (r: (CreatePhase, CreateAction))
    ensures
        r == create_next(phase, event),
{
    match (phase, event) {
        (CreatePhase::Containment, CreateEvent::Inside) => (
            CreatePhase::Creating,
            CreateAction::Create,
        ),
        (CreatePhase::Containment, CreateEvent::Outside) => (
            CreatePhase::Done,
            CreateAction::Fail(ErrorKind::InvalidPath),
        ),
        (CreatePhase::Creating, CreateEvent::Succeeded) => (CreatePhase::Done, CreateAction::Succeed),
        (CreatePhase::Creating, CreateEvent::Failed) => (
            CreatePhase::Done,
            CreateAction::Fail(ErrorKind::IOFailure),
        ),
        _ => (CreatePhase::Done, CreateAction::Fail(ErrorKind::InvalidInput)),
    }
}

/// No directory is created outside the root: creation is decided only on the
/// report that the place lies under the root.
pub proof fn lemma_create_only_inside(phase: CreatePhase, event: CreateEvent)
    ensures
        create_next(phase, event).1 == CreateAction::Create ==> phase == CreatePhase::Containment
            && event == CreateEvent::Inside,
        event == CreateEvent::Outside ==> create_next(phase, event).0 == CreatePhase::Done
            && create_next(phase, event).1 is Fail,
        phase == CreatePhase::Done ==> create_next(phase, event).0 == CreatePhase::Done,
{
}

/// Plans the creation of the directory at `path` under `wwwroot`: the path
/// to create, or `InvalidPath` where the request leaves the root. The creation
/// then starts in `CreatePhase::Containment`.
pub fn create_dir(path: &str, wwwroot: &str) -> (r: Result<String, GatewayError>)
    ensures
        match r {
            Ok(dir) => resolvable(path@) && dir@ == wwwroot@ + joined(resolved_names(path@)),
            Err(e) => !resolvable(path@) && e is InvalidPath,
        },
{
    match resolve(wwwroot, path) {
        Ok(p) => Ok(p.full_path()),
        Err(e) => Err(e),
    }
}

} // verus!
