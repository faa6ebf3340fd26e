//! The ways in which severing one path can fail.
use vstd::prelude::*;
use vstd::string::*;
use crate::text::{path_debug_quoted, path_debug_text};

verus! {

/// The step that failed, with the message of the I/O error that stopped it.
#[derive(Debug)]
#[non_exhaustive]
pub enum ErrorKind {
    /// Reading the file's metadata failed.
    Stat(String),
    /// Opening the file failed.
    Open(String),
    /// Copying the file aside failed.
    Copy(String),
    /// Removing the path's link failed.
    Unlink(String),
    /// Moving the copy into place failed.
    Move(String),
}

/// The advice printed with every failure that is not skipped.
pub open spec fn suggestion_text() -> Seq<char> {
    "Are you sure file exists, and you have write privilages here?"@
}

/// The words that open the message of each kind, before the quoted path.
pub open spec fn kind_lead(kind: ErrorKind) -> Seq<char> {
    match kind {
        ErrorKind::Stat(_) => "Failed to stat file "@,
        ErrorKind::Open(_) => "Failed to open file "@,
        ErrorKind::Copy(_) => "Failed to create copy of file "@,
        ErrorKind::Unlink(_) => "Failed to remove file "@,
        ErrorKind::Move(_) => "Failed to move file "@,
    }
}

/// The message of the I/O error that a kind carries.
pub open spec fn kind_cause(kind: ErrorKind) -> Seq<char> {
    match kind {
        ErrorKind::Stat(m) => m@,
        ErrorKind::Open(m) => m@,
        ErrorKind::Copy(m) => m@,
        ErrorKind::Unlink(m) => m@,
        ErrorKind::Move(m) => m@,
    }
}

impl ErrorKind {
    /// A failure to read metadata only skips the file; every other kind is
    /// reported as an error.
    pub fn is_skippable(&self) -> (r: bool)
        ensures
            r <==> self is Stat,
    {
        match self {
            ErrorKind::Stat(_) => true,
            _ => false,
        }
    }

    /// What the user is told to check after a failure.
    pub fn suggestion(&self) -> (r: &'static str)
        ensures
            r@ == suggestion_text(),
    {
        "Are you sure file exists, and you have write privilages here?"
    }

    /// The message of the I/O error behind this kind.
    pub fn cause(&self) -> (r: &str)
        ensures
            r@ == kind_cause(*self),
    {
        match self {
            ErrorKind::Stat(m) => m.as_str(),
            ErrorKind::Open(m) => m.as_str(),
            ErrorKind::Copy(m) => m.as_str(),
            ErrorKind::Unlink(m) => m.as_str(),
            ErrorKind::Move(m) => m.as_str(),
        }
    }

    fn lead(&self) -> (r: &'static str)
        ensures
            r@ == kind_lead(*self),
    {
        match self {
            ErrorKind::Stat(_) => "Failed to stat file ",
            ErrorKind::Open(_) => "Failed to open file ",
            ErrorKind::Copy(_) => "Failed to create copy of file ",
            ErrorKind::Unlink(_) => "Failed to remove file ",
            ErrorKind::Move(_) => "Failed to move file ",
        }
    }
}

/// A failure on one path.
#[derive(Debug)]
pub struct Error {
    kind: ErrorKind,
    path: String,
}

impl Error {
    /// The kind of the failure.
    pub closed spec fn spec_kind(&self) -> ErrorKind {
        self.kind
    }

    /// The path that failed.
    pub closed spec fn spec_path(&self) -> Seq<char> {
        self.path@
    }

    /// The text that `Display` shows for this error: the kind's lead and
    /// the path as `Debug` renders it.
    pub open spec fn spec_message(&self) -> Seq<char> {
        kind_lead(self.spec_kind()) + path_debug_quoted(self.spec_path())
    }

    /// The headline of a reported failure: `<"path"> Failed`.
    pub open spec fn spec_headline(&self) -> Seq<char> {
        "<"@ + path_debug_quoted(self.spec_path()) + "> Failed"@
    }

    /// The error of `kind` on `path`.
    pub closed spec fn made(kind: ErrorKind, path: String) -> Error {
        Error { kind, path }
    }

    pub fn new(kind: ErrorKind, path: String) -> (e: Error)
        ensures
            e == Error::made(kind, path),
            e.spec_kind() == kind,
            e.spec_path() == path@,
    {
        Error { kind, path }
    }

    pub fn path(&self) -> (r: &str)
        ensures
            r@ == self.spec_path(),
    {
        self.path.as_str()
    }

    pub fn kind(&self) -> (r: &ErrorKind)
        ensures
            *r == self.spec_kind(),
    {
        &self.kind
    }

    /// The message of this error, as the tool prints and records it.
    pub fn message(&self) -> (r: String)
        ensures
            r@ == self.spec_message(),
    {
        let mut r = String::from_str(self.kind.lead());
        let quoted = path_debug_text(self.path.as_str());
        r.append(quoted.as_str());
        r
    }

    /// The headline under which a failure that is not skipped is reported.
    pub fn headline(&self) -> (r: String)
        ensures
            r@ == self.spec_headline(),
    {
        let mut r = String::from_str("<");
        let quoted = path_debug_text(self.path.as_str());
        r.append(quoted.as_str());
        r.append("> Failed");
        r
    }
}

/// `From` on a kind and a path gives the error of that kind on that path,
/// the same error as `Error::new`.
pub proof fn law_from_pair(kind: ErrorKind, path: String)
    ensures
        <Error as vstd::std_specs::convert::FromSpec<(ErrorKind, String)>>::from_spec((kind, path))
            == Error::made(kind, path),
        Error::made(kind, path).spec_kind() == kind,
        Error::made(kind, path).spec_path() == path@,
{
}

impl From<(ErrorKind, String)> for Error {
    fn from(pair: (ErrorKind, String)) -> (e: Error) {
        let (kind, path) = pair;
        Error::new(kind, path)
    }
}

impl vstd::std_specs::convert::FromSpecImpl<(ErrorKind, String)> for Error {
    open spec fn obeys_from_spec() -> bool {
        true
    }

    open spec fn from_spec(v: (ErrorKind, String)) -> Error {
        Error::made(v.0, v.1)
    }
}

} // verus!
