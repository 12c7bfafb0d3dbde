//! The persistence store: one file per persistence key, holding the text of
//! the last successfully pushed address. The store maps keys to paths
//! exactly; reading and writing the files themselves happens outside, on the
//! paths this module resolves.
use vstd::prelude::*;

use crate::addr::{
    addr_text, lemma_address_text_round_trip, parse_address, parse_address_spec, Address,
    AddressView,
};
use crate::text::{str_eq, trim_spec, trim_str};

verus! {

/// Why the store could not be built.
#[derive(Debug)]
pub enum CreateError {
    NoFileNames,
    CannotUseFile(String),
}

/// Why a store operation failed. I/O faults carry the collaborator's text.
#[derive(Debug)]
pub enum Error {
    CE(CreateError),
    Io(String),
    Parse,
    NoFileNames,
}

/// The key-to-path map: one path per persistence key, fixed at startup.
pub struct Persistence {
    pub file_paths: Vec<String>,
}

impl Persistence {
    pub open spec fn wf(&self) -> bool {
        self.file_paths@.len() > 0
    }

    /// Builds the store over the given file names, all-or-nothing: an empty
    /// set is refused, a non-empty set maps every name. Whether each file
    /// can actually be opened is the file collaborator's part.
    pub fn new(file_names: Vec<String>) -> (r: Result<Self, Error>)
        ensures
            file_names@.len() > 0 ==> (r matches Ok(p) && p.file_paths@ == file_names@ && p.wf()),
            file_names@.len() == 0 ==> (r matches Err(e) && (e matches Error::CE(ce) && ce
                is NoFileNames)),
    {
        if file_names.len() == 0 {
            Err(Error::CE(CreateError::NoFileNames))
        } else {
            Ok(Self { file_paths: file_names })
        }
    }

    /// Resolves a persistence key to its file path: the first path equal to
    /// the key, or the distinct failure when no path matches.
    pub fn match_file_name(&self, file_name: &str) -> (r: Result<usize, Error>)
        ensures
            r matches Ok(i) ==> i < self.file_paths@.len() && self.file_paths@[i as int]@
                == file_name@ && (forall|j: int|
                0 <= j < i ==> (#[trigger] self.file_paths@[j])@ != file_name@),
            r matches Err(e) ==> (forall|j: int|
                0 <= j < self.file_paths@.len() ==> (#[trigger] self.file_paths@[j])@ != file_name@)
                && e is NoFileNames,
    {
        let mut i: usize = 0;
        let n = self.file_paths.len();
        while i < n
            invariant
                0 <= i <= n,
                n == self.file_paths@.len(),
                forall|j: int| 0 <= j < i ==> (#[trigger] self.file_paths@[j])@ != file_name@,
            decreases n - i,
        {
            if str_eq(self.file_paths[i].as_str(), file_name) {
                return Ok(i);
            }
            i = i + 1;
        }
        Err(Error::NoFileNames)
    }

    /// Reads stored file content back as an address: trimmed, then parsed
    /// in either textual form, the V6 form full or `::`-compressed; empty
    /// or unparseable content is the parse failure.
    pub fn parse_stored_ip(content: &str) -> (r: Result<Address, Error>)
        ensures
            r matches Ok(a) ==> parse_address_spec(trim_spec(content@)) == Some(a@) && a.wf(),
            r matches Err(e) ==> parse_address_spec(trim_spec(content@)) is None && e is Parse,
    {
        let t = trim_str(content);
        match parse_address(t.as_str()) {
            Some(a) => Ok(a),
            None => Err(Error::Parse),
        }
    }
}

/// Round trip through the store: `replace` writes `addr_text(a)` wholesale,
/// `load` trims and parses what it reads, so loading what was last replaced
/// yields exactly the replaced address, for every well-formed address.
pub proof fn lemma_replace_then_load(a: AddressView)
    requires
        a.wf(),
    ensures
        parse_address_spec(trim_spec(addr_text(a))) == Some(a),
{
    lemma_address_text_round_trip(a);
}

} // verus!
