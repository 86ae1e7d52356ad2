use vstd::prelude::*;

verus! {

/// How a MAT file is opened.
#[derive(Debug, Clone, Copy, PartialEq, Eq, Structural)]
pub enum AccessMode {
    ReadOnly,
    ReadWrite,
}

impl AccessMode {
    /// The access code of the MAT library for this mode.
    pub fn code(&self) -> (r: i32)
        ensures
            *self == AccessMode::ReadOnly ==> r == 0,
            *self == AccessMode::ReadWrite ==> r == 1,
    {
        match self {
            AccessMode::ReadOnly => 0,
            AccessMode::ReadWrite => 1,
        }
    }
}

/// The settings with which a MAT file is opened: its path and the access mode.
pub struct Builder {
    mat_name: String,
    access_mode: AccessMode,
}

impl Builder {
    /// The path of the file.
    pub closed spec fn path_spec(&self) -> Seq<char> {
        self.mat_name@
    }

    /// The access mode.
    pub closed spec fn mode_spec(&self) -> AccessMode {
        self.access_mode
    }

    /// Settings for the file at `path`, read-only.
    pub fn new(path: &str) -> (r: Builder)
        ensures
            r.path_spec() == path@,
            r.mode_spec() == AccessMode::ReadOnly,
    {
        Builder { mat_name: path.to_owned(), access_mode: AccessMode::ReadOnly }
    }

    /// Sets the access mode to read-only (the default).
    pub fn read_only(self) -> (r: Builder)
        ensures
            r.path_spec() == self.path_spec(),
            r.mode_spec() == AccessMode::ReadOnly,
    {
        Builder { access_mode: AccessMode::ReadOnly, ..self }
    }

    /// Sets the access mode to read-write.
    pub fn read_write(self) -> (r: Builder)
        ensures
            r.path_spec() == self.path_spec(),
            r.mode_spec() == AccessMode::ReadWrite,
    {
        Builder { access_mode: AccessMode::ReadWrite, ..self }
    }

    /// Returns the path of the file.
    pub fn path(&self) -> (r: &str)
        ensures
            r@ == self.path_spec(),
    {
        self.mat_name.as_str()
    }

    /// Returns the access mode.
    pub fn access_mode(&self) -> (r: AccessMode)
        ensures
            r == self.mode_spec(),
    {
        self.access_mode
    }
}

} // verus!
