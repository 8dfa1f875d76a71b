//! The two file handlers: one serves a directory tree by request path, the
//! other serves one fixed file whatever the path.
//!
//! Each says which file a request asks for and, once the caller has looked
//! for that file, writes the response.

use vstd::prelude::*;
use crate::http::request::Request;
use crate::http::response::{spec_after_send, spec_with_not_found, Response};
use crate::http_file::{spec_file_head, FileSystem};

verus! {

/// Serves the files below a directory: the request path is appended to the
/// directory's path.
pub struct FileSystemHandler {
    fs: FileSystem,
}

impl FileSystemHandler {
    /// The directory that is served.
    pub closed spec fn root(&self) -> Seq<char> {
        self.fs@
    }

    pub fn new(path: &str) -> (h: FileSystemHandler)
        ensures
            h.root() == path@,
    {
        FileSystemHandler { fs: FileSystem::new(path) }
    }

    /// A fresh handler for the same directory.
    pub fn duplicate(&self) -> (h: FileSystemHandler)
        ensures
            h.root() == self.root(),
    {
        FileSystemHandler::new(self.fs.path())
    }

    /// The file on disk that `req` asks for.
    pub fn target(&self, req: &Request) -> (p: String)
        ensures
            p@ == self.root() + req@.uri,
    {
        self.fs.full_path(req.path())
    }

    /// Answers `req`, given what the disk holds at `target(req)`: the
    /// length of a regular file, or `None`. Returns whether the file's
    /// bytes are to follow as raw data.
    pub fn process(&mut self, req: Request, file: Option<u64>, resp: &mut Response) -> (streaming:
        bool)
        ensures
            final(self).root() == old(self).root(),
            streaming == file is Some,
            match file {
                Some(len) => final(resp)@ == spec_file_head(
                    old(resp)@,
                    old(self).root() + req@.uri,
                    len,
                ),
                None => final(resp)@ == spec_after_send(spec_with_not_found(old(resp)@)),
            },
            old(resp).wf() ==> final(resp).wf(),
    {
        self.fs.serve(req.path(), file, resp)
    }
}

/// Serves one file, whatever the request asks for.
pub struct FileHandler {
    fs: FileSystem,
}

impl FileHandler {
    /// The file that is served.
    pub closed spec fn file(&self) -> Seq<char> {
        self.fs@
    }

    pub fn new(path: &str) -> (h: FileHandler)
        ensures
            h.file() == path@,
    {
        FileHandler { fs: FileSystem::new(path) }
    }

    /// A fresh handler for the same file.
    pub fn duplicate(&self) -> (h: FileHandler)
        ensures
            h.file() == self.file(),
    {
        FileHandler::new(self.fs.path())
    }

    /// The file on disk that every request gets.
    pub fn target(&self) -> (p: String)
        ensures
            p@ == self.file(),
    {
        let p = self.fs.full_path("");
        proof {
            reveal_strlit("");
            assert(self.file() + ""@ =~= self.file());
        }
        p
    }

    /// Answers a request, given what the disk holds at `target()`: the
    /// length of a regular file, or `None`. Returns whether the file's
    /// bytes are to follow as raw data.
    pub fn process(&mut self, req: Request, file: Option<u64>, resp: &mut Response) -> (streaming:
        bool)
        ensures
            final(self).file() == old(self).file(),
            streaming == file is Some,
            match file {
                Some(len) => final(resp)@ == spec_file_head(old(resp)@, old(self).file(), len),
                None => final(resp)@ == spec_after_send(spec_with_not_found(old(resp)@)),
            },
            old(resp).wf() ==> final(resp).wf(),
    {
        proof {
            reveal_strlit("");
            assert(self.file() + ""@ =~= self.file());
        }
        self.fs.serve("", file, resp)
    }
}

} // verus!
