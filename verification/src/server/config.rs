//! The set of files a server hosts and the file listing it advertises.
use vstd::prelude::*;
use crate::cfile::CompressedFile;
use crate::wire::{be_bytes, push_be_u32};

verus! {

/// The listing entry of one file: its name in UTF-8, a zero byte, and its
/// flags word in big-endian order.
pub open spec fn listing_entry(f: CompressedFile) -> Seq<u8> {
    f@.name_bytes() + seq![0u8] + be_bytes(f@.flags())
}

/// The listing of `files`: their entries laid end to end, in order.
pub open spec fn listing_of(files: Seq<CompressedFile>) -> Seq<u8>
    decreases files.len(),
{
    if files.len() == 0 {
        seq![]
    } else {
        listing_of(files.drop_last()) + listing_entry(files.last())
    }
}

/// The files a server hosts together with their advertised listing.
pub struct ServerData {
    files: Vec<CompressedFile>,
    file_information: Vec<u8>,
}

impl ServerData {
    #[verifier::type_invariant]
    spec fn inv(self) -> bool {
        self.file_information@ == listing_of(self.files@)
    }

    /// The hosted files, in order.
    pub closed spec fn hosted(self) -> Seq<CompressedFile> {
        self.files@
    }

    /// Hosts `files` and builds their listing.
    pub fn from_files(files: Vec<CompressedFile>) -> (res: ServerData)
        ensures
            res.hosted() == files@,
    {
        let mut file_information: Vec<u8> = Vec::new();
        let n = files.len();
        let mut i: usize = 0;
        while i < n
            invariant
                n == files@.len(),
                i <= n,
                file_information@ == listing_of(files@.subrange(0, i as int)),
            decreases n - i,
        {
            let f = &files[i];
            let name_bytes = f.name().as_bytes();
            file_information.extend_from_slice(name_bytes);
            file_information.push(0u8);
            push_be_u32(&mut file_information, f.flags());
            proof {
                let pre = files@.subrange(0, i as int);
                let post = files@.subrange(0, i + 1);
                assert(post.drop_last() =~= pre);
                assert(post.last() == files@[i as int]);
            }
            i = i + 1;
        }
        assert(files@.subrange(0, n as int) =~= files@);
        ServerData { files, file_information }
    }

    /// The hosted files.
    pub fn get_files(&self) -> (res: &[CompressedFile])
        ensures
            res@ == self.hosted(),
    {
        self.files.as_slice()
    }

    /// The listing advertised to clients.
    pub fn file_information(&self) -> (res: &[u8])
        ensures
            res@ == listing_of(self.hosted()),
    {
        proof {
            use_type_invariant(self);
        }
        self.file_information.as_slice()
    }
}

} // verus!
