//! Uploads: the bookkeeping of a multipart request, part by part.
//!
//! The caller reads the parts and writes the bytes; the session decides. Each
//! part is offered with its name, probed for at its destination, and written
//! only where nothing was found there. The first file that was written gives
//! the URL that the response reports.

use vstd::prelude::*;
use vstd::string::*;
use crate::error::{ErrorKind, GatewayError};
use crate::path::{resolve, resolvable, resolved_names, joined, is_plain_name, check_plain_name,
    lemma_joined_push, ResolvedPath};
use crate::text::{names, lemma_names_push};

verus! {

/// Where an upload stands.
#[derive(Clone, Copy, Debug, PartialEq, Eq, Structural)]
pub enum UploadPhase {
    /// Between parts: the next part, or the end of the request, is awaited.
    Ready,
    /// Waiting to learn whether the pending file exists already.
    Probing,
    /// Waiting for the pending file to be written.
    Writing,
    /// The upload has ended, and every part was written.
    Succeeded,
    /// The upload has ended in a failure.
    Failed,
}

/// What the caller reports back.
#[derive(Clone, Copy, Debug, PartialEq, Eq, Structural)]
pub enum UploadEvent {
    /// Nothing exists at the pending path.
    Absent,
    /// Something exists at the pending path.
    Present,
    /// The target directory, with its links followed, lies outside the root.
    Outside,
    /// The pending file was written to its end.
    Written,
    /// Creating or writing the pending file failed.
    WriteFailed,
    /// The request's next part could not be read.
    Malformed,
    /// The request has no more parts.
    End,
}

/// What the caller does next.
#[derive(Clone, Copy, Debug, PartialEq, Eq, Structural)]
pub enum UploadAction {
    /// Read the next part and offer it.
    NextPart,
    /// Ask whether anything exists at the pending path.
    Probe,
    /// Create the file at the pending path and stream the part into it.
    Write,
    /// Stop, and report this failure.
    Fail(ErrorKind),
    /// Stop, and report success.
    Succeed,
}

/// The decision table of an upload, from where it stands, whether a file was
/// written already, and what the caller reports. A file is written only where
/// nothing was found at its path; a file that is found ends the whole upload
/// with `Conflict`, and a target directory that links lead out of the root ends
/// it with `InvalidPath`; a request that ends before any file was written fails with
/// `NoFileUploaded`; a report that was not asked for, also one after the end,
/// ends the upload with `InvalidInput`.
pub open spec fn upload_next(phase: UploadPhase, any_written: bool, event: UploadEvent) -> (
    UploadPhase,
    UploadAction,
) {
    match (phase, event) {
        (UploadPhase::Probing, UploadEvent::Absent) => (UploadPhase::Writing, UploadAction::Write),
        (UploadPhase::Probing, UploadEvent::Present) => (
            UploadPhase::Failed,
            UploadAction::Fail(ErrorKind::Conflict),
        ),
        (UploadPhase::Probing, UploadEvent::Outside) => (
            UploadPhase::Failed,
            UploadAction::Fail(ErrorKind::InvalidPath),
        ),
        (UploadPhase::Writing, UploadEvent::Written) => (
            UploadPhase::Ready,
            UploadAction::NextPart,
        ),
        (UploadPhase::Writing, UploadEvent::WriteFailed) => (
            UploadPhase::Failed,
            UploadAction::Fail(ErrorKind::IOFailure),
        ),
        (UploadPhase::Ready, UploadEvent::End) => if any_written {
            (UploadPhase::Succeeded, UploadAction::Succeed)
        } else {
            (UploadPhase::Failed, UploadAction::Fail(ErrorKind::NoFileUploaded))
        },
        _ => (UploadPhase::Failed, UploadAction::Fail(ErrorKind::InvalidInput)),
    }
}

/// No file is overwritten and none is written outside the root: a write is
/// decided only on the report that nothing exists at the pending path, and the
/// reports that something does, or that the directory lies outside the root,
/// always end the upload in a failure. An upload succeeds only where the request ends
/// between parts after a file was written, and one that failed stays failed.
pub proof fn lemma_write_only_where_absent(phase: UploadPhase, any_written: bool, event: UploadEvent)
    ensures
        upload_next(phase, any_written, event).1 == UploadAction::Write ==> phase
            == UploadPhase::Probing && event == UploadEvent::Absent,
        event == UploadEvent::Present ==> upload_next(phase, any_written, event).0
            == UploadPhase::Failed && upload_next(phase, any_written, event).1 is Fail,
        phase == UploadPhase::Probing && event == UploadEvent::Present ==> upload_next(
            phase,
            any_written,
            event,
        ).1 == UploadAction::Fail(ErrorKind::Conflict),
        event == UploadEvent::Outside ==> upload_next(phase, any_written, event).0
            == UploadPhase::Failed && upload_next(phase, any_written, event).1 is Fail,
        phase == UploadPhase::Probing && event == UploadEvent::Outside ==> upload_next(
            phase,
            any_written,
            event,
        ).1 == UploadAction::Fail(ErrorKind::InvalidPath),
        upload_next(phase, any_written, event).0 == UploadPhase::Succeeded <==> phase
            == UploadPhase::Ready && event == UploadEvent::End && any_written,
        upload_next(phase, any_written, event).0 == UploadPhase::Succeeded <==> upload_next(
            phase,
            any_written,
            event,
        ).1 == UploadAction::Succeed,
        phase == UploadPhase::Failed ==> upload_next(phase, any_written, event).0
            == UploadPhase::Failed,
{
}

/// The names of the files that are written after `event`: the pending name is
/// added by the report that the pending file was written, and by no other.
pub open spec fn created_after(
    phase: UploadPhase,
    created: Seq<Seq<char>>,
    pending: Seq<char>,
    event: UploadEvent,
) -> Seq<Seq<char>> {
    if phase == UploadPhase::Writing && event == UploadEvent::Written {
        created.push(pending)
    } else {
        created
    }
}

/// The first file that was written stays the one that is reported: no report
/// removes or changes the name of a file that was written, so once there is a
/// first name it stays; and the file that is written first gives it.
pub proof fn lemma_first_file_is_kept(
    phase: UploadPhase,
    created: Seq<Seq<char>>,
    pending: Seq<char>,
    event: UploadEvent,
)
    ensures
        created_after(phase, created, pending, event).len() >= created.len(),
        forall|i: int|
            0 <= i < created.len() ==> created_after(phase, created, pending, event)[i]
                == #[trigger] created[i],
        created.len() == 0 && created_after(phase, created, pending, event).len() > 0
            ==> created_after(phase, created, pending, event)[0] == pending,
{
}

/// The body of a successful response to an upload of one file.
pub open spec fn single_body(url: Seq<char>) -> Seq<char> {
    "{\"image_url\":\""@ + url + "\"}"@
}

/// The state of one multipart upload into one directory.
pub struct UploadSession {
    host: String,
    dir: ResolvedPath,
    phase: UploadPhase,
    created: Vec<String>,
    pending: String,
}

impl UploadSession {
    /// The public base URL.
    pub closed spec fn host(&self) -> Seq<char> {
        self.host@
    }

    /// The content root.
    pub closed spec fn root(&self) -> Seq<char> {
        self.dir.root()
    }

    /// The names of the target directory below the root.
    pub closed spec fn dir_names(&self) -> Seq<Seq<char>> {
        self.dir.segments()
    }

    /// Where the upload stands.
    pub closed spec fn phase(&self) -> UploadPhase {
        self.phase
    }

    /// The names of the files that were written, in the order of their parts.
    pub closed spec fn created(&self) -> Seq<Seq<char>> {
        names(self.created@)
    }

    /// The name of the file that is being probed for or written.
    pub closed spec fn pending(&self) -> Seq<char> {
        self.pending@
    }

    /// The target directory lies under the root, and the names in hand are
    /// plain: every path that the session hands out lies under the root.
    pub closed spec fn wf(&self) -> bool {
        &&& self.dir.wf()
        &&& forall|i: int|
            0 <= i < self.created@.len() ==> is_plain_name(#[trigger] self.created@[i]@)
        &&& self.phase == UploadPhase::Probing || self.phase == UploadPhase::Writing
            ==> is_plain_name(self.pending@)
        &&& self.phase == UploadPhase::Succeeded ==> self.created@.len() > 0
    }

    /// The URL of the file `name` in the target directory.
    pub open spec fn url_of(&self, name: Seq<char>) -> Seq<char> {
        self.host() + joined(self.dir_names().push(name))
    }

    /// Whether `post` and `action` are what offering a part named `name` to
    /// `self` gives: between parts, a plain name becomes the pending file and is
    /// probed for; any other offer ends the upload with `InvalidInput`.
    pub open spec fn offered(self, name: Seq<char>, post: UploadSession, action: UploadAction) -> bool {
        &&& post.host() == self.host()
        &&& post.root() == self.root()
        &&& post.dir_names() == self.dir_names()
        &&& post.created() == self.created()
        &&& if self.phase() == UploadPhase::Ready && is_plain_name(name) {
            post.phase() == UploadPhase::Probing && post.pending() == name && action
                == UploadAction::Probe
        } else {
            post.phase() == UploadPhase::Failed && post.pending() == self.pending() && action
                == UploadAction::Fail(ErrorKind::InvalidInput)
        }
    }

    /// Offers the next part under the name `name`.
    pub fn offer_named(&mut self, name: &str) -> (action: UploadAction)
        ensures
            old(self).offered(name@, *final(self), action),
            old(self).wf() ==> final(self).wf(),
    {
        if self.phase == UploadPhase::Ready && check_plain_name(name) {
            self.pending = name.to_owned();
            self.phase = UploadPhase::Probing;
            UploadAction::Probe
        } else {
            self.phase = UploadPhase::Failed;
            UploadAction::Fail(ErrorKind::InvalidInput)
        }
    }

    /// Offers the next part, under the name that it suggests or, where it
    /// suggests none, under a freshly generated one. A part without a name is
    /// never refused for its name: between parts it is always probed for.
    pub fn offer(&mut self, suggested: Option<&str>) -> (action: UploadAction)
        ensures
            match suggested {
                Some(name) => old(self).offered(name@, *final(self), action),
                None => exists|name: Seq<char>|
                    is_generated_name(name) && old(self).offered(name, *final(self), action),
            },
            suggested is None && old(self).phase() == UploadPhase::Ready ==> action
                == UploadAction::Probe && final(self).phase() == UploadPhase::Probing
                && is_generated_name(final(self).pending()),
            old(self).wf() ==> final(self).wf(),
    {
        match suggested {
            Some(name) => self.offer_named(name),
            None => {
                let name = fresh_name();
                proof {
                    lemma_generated_name_is_plain(name@);
                }
                let action = self.offer_named(name.as_str());
                proof {
                    assert(is_generated_name(name@) && old(self).offered(name@, *self, action));
                }
                action
            },
        }
    }

    /// Takes the caller's report and decides what comes next, by the table
    /// `upload_next`. The name of a file that was written is kept, in the order
    /// of the parts.
    pub fn step(&mut self, event: UploadEvent) -> (action: UploadAction)
        ensures
            (final(self).phase(), action) == upload_next(
                old(self).phase(),
                old(self).created().len() > 0,
                event,
            ),
            final(self).host() == old(self).host(),
            final(self).root() == old(self).root(),
            final(self).dir_names() == old(self).dir_names(),
            final(self).pending() == old(self).pending(),
            final(self).created() == created_after(
                old(self).phase(),
                old(self).created(),
                old(self).pending(),
                event,
            ),
            old(self).wf() ==> final(self).wf(),
    {
        match (self.phase, event) {
            (UploadPhase::Probing, UploadEvent::Absent) => {
                self.phase = UploadPhase::Writing;
                UploadAction::Write
            },
            (UploadPhase::Probing, UploadEvent::Present) => {
                self.phase = UploadPhase::Failed;
                UploadAction::Fail(ErrorKind::Conflict)
            },
            (UploadPhase::Probing, UploadEvent::Outside) => {
                self.phase = UploadPhase::Failed;
                UploadAction::Fail(ErrorKind::InvalidPath)
            },
            (UploadPhase::Writing, UploadEvent::Written) => {
                let name = self.pending.clone();
                proof {
                    lemma_names_push(self.created@, name);
                }
                self.created.push(name);
                self.phase = UploadPhase::Ready;
                UploadAction::NextPart
            },
            (UploadPhase::Writing, UploadEvent::WriteFailed) => {
                self.phase = UploadPhase::Failed;
                UploadAction::Fail(ErrorKind::IOFailure)
            },
            (UploadPhase::Ready, UploadEvent::End) => {
                if self.created.len() > 0 {
                    self.phase = UploadPhase::Succeeded;
                    UploadAction::Succeed
                } else {
                    self.phase = UploadPhase::Failed;
                    UploadAction::Fail(ErrorKind::NoFileUploaded)
                }
            },
            _ => {
                self.phase = UploadPhase::Failed;
                UploadAction::Fail(ErrorKind::InvalidInput)
            },
        }
    }

    /// The path in the file system of the file that is probed for or written:
    /// the root, the target directory, the pending name.
    pub fn pending_path(&self) -> (p: String)
        ensures
            p@ == self.root() + joined(self.dir_names().push(self.pending())),
    {
        let mut out = self.dir.full_path();
        out.append("/");
        out.append(self.pending.as_str());
        proof {
            reveal_strlit("/");
            assert("/"@ =~= seq!['/']);
            lemma_joined_push(self.dir_names(), self.pending());
            assert(out@ =~= self.root() + joined(self.dir_names().push(self.pending())));
        }
        out
    }

    /// The path in the file system of the directory that the files go to.
    pub fn target_dir(&self) -> (p: String)
        ensures
            p@ == self.root() + joined(self.dir_names()),
    {
        self.dir.full_path()
    }

    /// The name of the file that is probed for or written.
    pub fn pending_name(&self) -> (name: &str)
        ensures
            name@ == self.pending(),
    {
        self.pending.as_str()
    }

    /// How many files were written so far.
    pub fn count(&self) -> (n: usize)
        ensures
            n == self.created().len(),
    {
        self.created.len()
    }

    /// The name of the file that was written as the `i`-th, counted from zero;
    /// `None` where fewer files were written.
    pub fn created_name(&self, i: usize) -> (r: Option<String>)
        ensures
            match r {
                Some(name) => i < self.created().len() && name@ == self.created()[i as int],
                None => i >= self.created().len(),
            },
    {
        if i < self.created.len() {
            Some(self.created[i].clone())
        } else {
            None
        }
    }

    /// The public URL of the first file that was written: the host, the target
    /// directory and the file's name; `None` before any file was written.
    pub fn primary_url(&self) -> (r: Option<String>)
        ensures
            match r {
                Some(url) => self.created().len() > 0 && url@ == self.url_of(self.created()[0]),
                None => self.created().len() == 0,
            },
    {
        if self.created.len() == 0 {
            return None;
        }
        let mut out = self.dir.rooted_at(self.host.as_str());
        out.append("/");
        out.append(self.created[0].as_str());
        proof {
            reveal_strlit("/");
            assert("/"@ =~= seq!['/']);
            lemma_joined_push(self.dir_names(), self.created()[0]);
            assert(out@ =~= self.url_of(self.created()[0]));
        }
        Some(out)
    }

    /// The result of the upload, once it has succeeded: the body of the
    /// response. For one file that is its URL as a JSON object; for more than
    /// one, a message that names none. `None` while the upload goes on, and
    /// after it has failed.
    pub fn success_body(&self) -> (r: Option<String>)
        ensures
            match r {
                Some(body) => self.phase() == UploadPhase::Succeeded && self.created().len() > 0
                    && body@ == if self.created().len() == 1 {
                    single_body(self.url_of(self.created()[0]))
                } else {
                    "Files uploaded sussecfully"@
                },
                None => self.phase() != UploadPhase::Succeeded || self.created().len() == 0,
            },
            self.wf() && self.phase() == UploadPhase::Succeeded ==> r is Some,
    {
        if self.phase != UploadPhase::Succeeded {
            return None;
        }
        match self.primary_url() {
            None => None,
            Some(url) => {
                if self.created.len() == 1 {
                    let mut out = "{\"image_url\":\"".to_owned();
                    out.append(url.as_str());
                    out.append("\"}");
                    Some(out)
                } else {
                    Some("Files uploaded sussecfully".to_owned())
                }
            },
        }
    }
}

/// A lower-case hexadecimal digit.
pub open spec fn is_lower_hex(c: char) -> bool {
    ('0' <= c <= '9') || ('a' <= c <= 'f')
}

/// The shape of a generated name: 36 characters, each a lower-case hexadecimal
/// digit or a hyphen.
pub open spec fn is_generated_name(name: Seq<char>) -> bool {
    name.len() == 36 && forall|i: int|
        0 <= i < name.len() ==> is_lower_hex(#[trigger] name[i]) || name[i] == '-'
}

/// A generated name is a plain name: it can stand in a path as it is.
pub proof fn lemma_generated_name_is_plain(name: Seq<char>)
    requires
        is_generated_name(name),
    ensures
        is_plain_name(name),
{
    if name.contains('/') {
        let i = choose|i: int| 0 <= i < name.len() && name[i] == '/';
        assert(is_lower_hex(name[i]) || name[i] == '-');
    }
    if name.contains('\0') {
        let i = choose|i: int| 0 <= i < name.len() && name[i] == '\0';
        assert(is_lower_hex(name[i]) || name[i] == '-');
    }
}

/// Calls `uuid::Uuid::new_v4` and writes the identifier out with `to_string`.
/// Trusted: the text is the identifier's hyphenated form, 36 characters that
/// are lower-case hexadecimal digits or hyphens. Which digits they are is not
/// said: they are drawn at random.
#[verifier::external_body]
fn fresh_name() -> (r: String)
    ensures
        is_generated_name(r@),
{
    uuid::Uuid::new_v4().to_string()
}

/// Begins an upload into the directory `path` under `wwwroot`; `host` is the
/// public base URL.
///
/// A directory path that leaves the root is refused with `InvalidPath`. Any
/// other gives a session that stands between parts, with no file written.
pub fn upload(path: &str, wwwroot: &str, host: &str) -> (r: Result<UploadSession, GatewayError>)
    ensures
        match r {
            Ok(s) => resolvable(path@) && s.wf() && s.host() == host@ && s.root() == wwwroot@
                && s.dir_names() == resolved_names(path@) && s.phase() == UploadPhase::Ready
                && s.created().len() == 0,
            Err(e) => !resolvable(path@) && e is InvalidPath,
        },
{
    match resolve(wwwroot, path) {
        Err(e) => Err(e),
        Ok(dir) => Ok(
            UploadSession {
                host: host.to_owned(),
                dir,
                phase: UploadPhase::Ready,
                created: Vec::new(),
                pending: String::new(),
            },
        ),
    }
}

} // verus!
