//! Sending the files of an entry.
//!
//! A [`Download`] goes through the files that a location stands for and decides what to send of
//! each. Whoever sends them looks for the files and reads them.

use crate::cache::path_of;
use crate::entry::{Children, Entry};
use crate::resolve::resolve_cid;
use crate::service::{DownloadFile, DownloadResponse, GetResponse, UploadFile};
use vstd::prelude::*;
use vstd::slice::slice_to_vec;
use vstd::string::*;

verus! {

/// How many bytes of a file are sent at a time, at most.
pub const CAP: usize = 131072;

/// The response carries `content` as a piece of the file.
pub open spec fn is_piece(response: GetResponse, child: Children, content: Seq<u8>) -> bool {
    &&& response.download_response matches Some(DownloadResponse::File(file))
    &&& file.content@ == content
    &&& file.cid@ == child.cid.unwrap()@
    &&& file.name@ == child.name@
}

/// What to do once it is known whether a file is there.
#[derive(Debug, Clone, PartialEq, Eq)]
pub enum LookStep {
    /// Read it piece by piece.
    Read,
    /// Report this and go on.
    Report(String),
}

/// A download in progress.
#[derive(Debug, PartialEq, Eq)]
pub struct Download {
    files: Vec<Children>,
    /// How many of the files are done with.
    done: usize,
}

impl Download {
    #[verifier::type_invariant]
    spec fn is_within(self) -> bool {
        self.done <= self.files@.len()
    }

    /// The files that are not done with.
    pub closed spec fn remaining(&self) -> Seq<Children> {
        self.files@.skip(self.done as int)
    }

    /// Begins to send the files that a location inside the entry stands for.
    pub fn begin(location: String, entry: Entry) -> (download: Result<Download, String>)
        requires
            crate::resolve::is_resolvable(location@, entry.metadata.children@),
        ensures
            match download {
                Ok(download) => {
                    &&& location@ == "/"@ || !crate::resolve::is_nested(
                        location@,
                        entry.metadata.children@,
                    )
                    &&& download.remaining() == crate::resolve::resolved(
                        location@,
                        entry.metadata.children@,
                    )
                },
                Err(error) => {
                    &&& location@ != "/"@ && crate::resolve::is_nested(
                        location@,
                        entry.metadata.children@,
                    )
                    &&& error@ == "Nested entry selected"@
                },
            },
    {
        match resolve_cid(location, entry.metadata.children) {
            Ok(files) => {
                assert(files@.skip(0) == files@);
                Ok(Download { files, done: 0 })
            },
            Err(error) => Err(error),
        }
    }

    /// The next file, where there is one, has a content identifier.
    pub open spec fn next_has_cid(&self) -> bool {
        self.remaining().len() > 0 ==> self.remaining()[0].cid is Some
    }

    /// Whether the next file, where there is one, has a content identifier.
    pub fn can_send_next(&self) -> (b: bool)
        ensures
            b == self.next_has_cid(),
            b <==> self.remaining().len() == 0 || self.remaining()[0].cid is Some,
    {
        proof {
            use_type_invariant(self);
        }
        if self.done < self.files.len() {
            let child: &Children = &self.files[self.done];
            assert(*child == self.remaining()[0]);
            child.cid.is_some()
        } else {
            true
        }
    }

    /// Where the content of the next file is kept, until all files are done with.
    pub fn next_path(&self) -> (path: Option<String>)
        requires
            self.next_has_cid(),
        ensures
            match path {
                Some(path) => {
                    &&& self.remaining().len() > 0
                    &&& path@ == crate::cache::cache_path(self.remaining()[0].cid.unwrap()@)
                    &&& path@ == "./cache/"@ + self.remaining()[0].cid.unwrap()@
                },
                None => self.remaining().len() == 0,
            },
    {
        proof {
            use_type_invariant(self);
        }
        if self.done < self.files.len() {
            let child: &Children = &self.files[self.done];
            assert(*child == self.remaining()[0]);
            Some(path_of(child.cid.as_ref().unwrap().as_str()))
        } else {
            None
        }
    }

    /// Goes on once it is known whether the next file is there.
    pub fn on_look(&mut self, present: bool) -> (step: LookStep)
        requires
            old(self).remaining().len() > 0,
        ensures
            present ==> step == LookStep::Read && final(self).remaining() == old(self).remaining(),
            !present ==> {
                &&& step matches LookStep::Report(report)
                &&& report@ == "File does not exists"@
                &&& final(self).remaining() == old(self).remaining().drop_first()
            },
    {
        proof {
            use_type_invariant(&*self);
        }
        if present {
            LookStep::Read
        } else {
            let ghost before = self.remaining();
            assert(self.done < self.files.len());
            self.done = self.done + 1;
            assert(self.remaining() == before.drop_first());
            LookStep::Report("File does not exists".to_owned())
        }
    }

    /// Sends what was read of the next file, at most [`CAP`] bytes at a time. Where nothing was read
    /// the file is at its end: there is then nothing to send, and it is done with.
    pub fn on_read(&mut self, buffer: &[u8]) -> (response: Option<GetResponse>)
        requires
            old(self).remaining().len() > 0,
            old(self).next_has_cid(),
            buffer@.len() <= CAP,
        ensures
            match response {
                Some(response) => {
                    &&& buffer@.len() > 0
                    &&& is_piece(response, old(self).remaining()[0], buffer@)
                    &&& carried(response).len() <= CAP
                    &&& response.download_response matches Some(DownloadResponse::File(file))
                    &&& file.content@ == buffer@
                    &&& file.content@.len() <= 128 * 1024
                    &&& file.cid@ == old(self).remaining()[0].cid.unwrap()@
                    &&& file.name@ == old(self).remaining()[0].name@
                    &&& final(self).remaining() == old(self).remaining()
                },
                None => {
                    &&& buffer@.len() == 0
                    &&& final(self).remaining() == old(self).remaining().drop_first()
                },
            },
    {
        proof {
            use_type_invariant(&*self);
        }
        if buffer.len() == 0 {
            let ghost before = self.remaining();
            assert(self.done < self.files.len());
            self.done = self.done + 1;
            assert(self.remaining() == before.drop_first());
            None
        } else {
            let child: &Children = &self.files[self.done];
            assert(*child == self.remaining()[0]);
            let file = DownloadFile {
                content: slice_to_vec(buffer),
                cid: child.cid.as_ref().unwrap().clone(),
                name: child.name.clone(),
            };
            Some(GetResponse { download_response: Some(DownloadResponse::File(file)) })
        }
    }
}

/// What a response carries of the content of a file.
pub open spec fn carried(response: GetResponse) -> Seq<u8> {
    match response.download_response {
        Some(DownloadResponse::File(file)) => file.content@,
        _ => Seq::empty(),
    }
}

/// The pieces of a file that are sent, one after the other, are the content that was read of it.
pub proof fn law_pieces_make_up_the_file(
    child: Children,
    reads: Seq<Seq<u8>>,
    responses: Seq<GetResponse>,
)
    requires
        responses.len() == reads.len(),
        forall|i: int| 0 <= i < reads.len() ==> is_piece(#[trigger] responses[i], child, reads[i]),
    ensures
        responses.map_values(|r: GetResponse| carried(r)).flatten() == reads.flatten(),
{
    assert(responses.map_values(|r: GetResponse| carried(r)) == reads);
}

/// What an upload of `file` looks for and writes is where a download of `child` looks: the two
/// paths are the same exactly where the content identifiers are, and what is then at the path is
/// content with the identifier of the child.
pub proof fn law_download_finds_upload(
    file: UploadFile,
    location: Seq<char>,
    child: Children,
    path: Seq<char>,
)
    requires
        file.cid@ == crate::keys::content_cid(file.content@),
        location == crate::cache::cache_path(file.cid@),
        path == crate::cache::cache_path(child.cid.unwrap()@),
    ensures
        path == location <==> child.cid.unwrap()@ == file.cid@,
        path == location ==> crate::keys::content_cid(file.content@) == child.cid.unwrap()@,
{
    crate::cache::law_paths_are_distinct(file.cid@, child.cid.unwrap()@);
}

/// A piece of a file carries what was read, with the identifier and the name of the file, and
/// nothing else.
pub proof fn law_what_a_piece_is(response: GetResponse, child: Children, content: Seq<u8>)
    ensures
        is_piece(response, child, content) <==> {
            &&& response.download_response matches Some(DownloadResponse::File(file))
            &&& file.content@ == content
            &&& file.cid@ == child.cid.unwrap()@
            &&& file.name@ == child.name@
        },
        is_piece(response, child, content) ==> carried(response) == content,
{
}

/// A file is sent in pieces of 128 KiB at most.
pub proof fn law_pieces_are_small(buffer: Seq<u8>)
    ensures
        buffer.len() <= CAP <==> buffer.len() <= 128 * 1024,
{
}

/// A download can go on where all files are done with, and where the next one has a content
/// identifier.
pub proof fn law_when_a_download_goes_on(download: Download)
    ensures
        download.next_has_cid() <==> download.remaining().len() == 0 || download.remaining()[0].cid
            is Some,
{
}

} // verus!
