//! Serving files: where a request path leads on disk, what media type a
//! file has, and what the response to a file request looks like.
//!
//! Looking at the disk and reading the file are the caller's part. The
//! caller says what it found; the rules here turn that into the response.

use vstd::prelude::*;
use vstd::string::{StringExecFns, StringSliceAdditionalSpecFns};
use vstd::utf8::encode_utf8;
use crate::http::response::{
    spec_after_send, spec_length_name, spec_ok, spec_type_name, spec_with_header,
    spec_with_not_found, Response, ResponseView, Status,
};
use crate::text::{cut_str, lemma_str_bytes, spec_decimal, spec_text, str_eq};

verus! {

pub const DOT: u8 = 46;

/// Index of the last occurrence of `b` in `s`, or -1 when there is none.
pub open spec fn spec_find_last(s: Seq<u8>, b: u8) -> int
    decreases s.len(),
{
    if s.len() == 0 {
        -1
    } else if s.last() == b {
        s.len() - 1
    } else {
        spec_find_last(s.drop_last(), b)
    }
}

/// An index that matches, with no match after it, is the last match.
pub proof fn lemma_find_last_unique(s: Seq<u8>, b: u8, i: int)
    requires
        -1 <= i < s.len(),
        i >= 0 ==> s[i] == b,
        forall|j: int| i < j < s.len() ==> s[j] != b,
    ensures
        spec_find_last(s, b) == i,
    decreases s.len(),
{
    if s.len() > 0 && i < s.len() - 1 {
        lemma_find_last_unique(s.drop_last(), b, i);
    }
}

/// The media type that goes with a file name extension.
pub open spec fn spec_mime_of(ext: Seq<char>) -> Seq<char> {
    if ext == "html"@ {
        "text/html"@
    } else if ext == "css"@ {
        "text/css"@
    } else if ext == "js"@ {
        "text/javascript"@
    } else if ext == "jpg"@ || ext == "jpeg"@ {
        "image/jpeg"@
    } else if ext == "png"@ {
        "image/png"@
    } else if ext == "svg"@ {
        "image/svg+xml"@
    } else if ext == "woff"@ || ext == "woff2"@ {
        "application/x-font-woff"@
    } else {
        "application/octet-stream"@
    }
}

/// The media type of the file at `path`: that of the extension after the
/// path's last dot, and binary data for a path without a dot.
pub open spec fn spec_mime(path: Seq<u8>) -> Seq<char> {
    let dot = spec_find_last(path, DOT);
    if dot >= 0 {
        spec_mime_of(spec_text(path.subrange(dot + 1, path.len() as int)))
    } else {
        "application/octet-stream"@
    }
}

/// The response writer after a file of `len` bytes at `path` has been
/// announced: status 200, its media type and its length are sent as the
/// head of a response whose body follows as raw bytes.
pub open spec fn spec_file_head(r: ResponseView, path: Seq<char>, len: u64) -> ResponseView {
    spec_after_send(
        spec_with_header(
            spec_with_header(
                ResponseView { status: spec_ok(), ..r },
                spec_type_name(),
                spec_mime(encode_utf8(path)),
            ),
            spec_length_name(),
            spec_decimal(len as nat),
        ),
    )
}

/// A directory, or a single file, that is served.
pub struct FileSystem {
    path: String,
}

impl View for FileSystem {
    type V = Seq<char>;

    closed spec fn view(&self) -> Seq<char> {
        self.path@
    }
}

impl FileSystem {
    pub fn new(path: &str) -> (fs: FileSystem)
        ensures
            fs@ == path@,
    {
        FileSystem { path: path.to_owned() }
    }

    /// The root: the path that request paths are appended to.
    pub fn path(&self) -> (p: &str)
        ensures
            p@ == self@,
    {
        self.path.as_str()
    }

    /// The path on disk that `uri` leads to: the root with `uri` appended.
    pub fn full_path(&self, uri: &str) -> (p: String)
        ensures
            p@ == self@ + uri@,
    {
        self.path.clone().concat(uri)
    }

    /// Answers a request for `uri`. `file` is what the disk holds at
    /// `full_path(uri)`: the length of a regular file that could be opened,
    /// or `None`. For a file the head of the response is sent and the
    /// result is `true`: the caller then sends the file's bytes as raw data.
    /// Otherwise the canned not-found response is sent.
    pub fn serve(&mut self, uri: &str, file: Option<u64>, resp: &mut Response) -> (streaming: bool)
        ensures
            final(self)@ == old(self)@,
            streaming == file is Some,
            match file {
                Some(len) => final(resp)@ == spec_file_head(old(resp)@, old(self)@ + uri@, len),
                None => final(resp)@ == spec_after_send(spec_with_not_found(old(resp)@)),
            },
            old(resp).wf() ==> final(resp).wf(),
    {
        match file {
            Some(len) => {
                let full_path = self.full_path(uri);
                resp.set_status(Status::ok());
                resp.set_header("Content-Type", Self::get_mime(full_path.as_str()));
                resp.set_length(len);
                resp.send();
                true
            },
            None => {
                resp.set_not_found().send();
                false
            },
        }
    }

    /// The media type of the file at `path`, by its extension.
    pub fn get_mime(path: &str) -> (mime: &str)
        ensures
            mime@ == spec_mime(path.spec_bytes()),
    {
        let bytes = path.as_bytes();
        let mut i: usize = bytes.len();
        while i > 0 && bytes[i - 1] != DOT
            invariant
                i <= bytes@.len(),
                forall|j: int| i <= j < bytes@.len() ==> bytes@[j] != DOT,
            decreases i,
        {
            i -= 1;
        }
        proof {
            lemma_find_last_unique(bytes@, DOT, i - 1);
        }
        if i == 0 {
            return "application/octet-stream";
        }
        let (_, ext) = cut_str(path, i - 1);
        proof {
            lemma_str_bytes(ext);
        }
        if str_eq(ext, "html") {
            "text/html"
        } else if str_eq(ext, "css") {
            "text/css"
        } else if str_eq(ext, "js") {
            "text/javascript"
        } else if str_eq(ext, "jpg") || str_eq(ext, "jpeg") {
            "image/jpeg"
        } else if str_eq(ext, "png") {
            "image/png"
        } else if str_eq(ext, "svg") {
            "image/svg+xml"
        } else if str_eq(ext, "woff") || str_eq(ext, "woff2") {
            "application/x-font-woff"
        } else {
            "application/octet-stream"
        }
    }
}

} // verus!
