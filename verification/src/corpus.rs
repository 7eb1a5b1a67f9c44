//! Images of a collection that lies outside of this project.

use vstd::prelude::*;

verus! {

/// Name of the environment variable that tells where the collection is.
pub const CORPUS_ENV: &'static str = "PSPTOOL_TEST_CORPUS";

/// An image of the collection.
#[derive(Debug)]
pub struct CorpusRom {
    name: String,
    bytes: Vec<u8>,
}

/// Name and contents of an image.
pub struct NamedImage {
    pub name: Seq<char>,
    pub bytes: Seq<u8>,
}

impl View for CorpusRom {
    type V = NamedImage;

    closed spec fn view(&self) -> NamedImage {
        NamedImage { name: self.name@, bytes: self.bytes@ }
    }
}

impl Clone for CorpusRom {
    fn clone(&self) -> (r: Self)
        ensures
            r@ == self@,
    {
        CorpusRom {
            name: self.name.clone(),
            bytes: crate::source::copy_of(self.bytes.as_slice()),
        }
    }
}

impl CorpusRom {
    pub fn new(name: String, bytes: Vec<u8>) -> (r: Self)
        ensures
            r@ == (NamedImage { name: name@, bytes: bytes@ }),
    {
        CorpusRom { name, bytes }
    }

    /// Name of the file, without a path.
    pub fn name(&self) -> (r: &str)
        ensures
            r@ == self@.name,
    {
        self.name.as_str()
    }

    pub fn bytes(&self) -> (r: &[u8])
        ensures
            r@ == self@.bytes,
    {
        self.bytes.as_slice()
    }

    pub fn into_bytes(self) -> (r: Vec<u8>)
        ensures
            r@ == self@.bytes,
    {
        self.bytes
    }
}

/// Where the collection is, given the value of the environment variable: there
/// is none when the variable is not set or empty.
pub fn corpus(value: Option<String>) -> (r: Option<String>)
    ensures
        r == (match value {
            Some(root) => if root@.len() == 0 {
                None
            } else {
                Some(root)
            },
            None => None,
        }),
{
    match value {
        Some(root) => {
            if root.as_str().unicode_len() == 0 {
                None
            } else {
                Some(root)
            }
        },
        None => None,
    }
}

} // verus!
