//! The fixed catalog: an ordered, immutable sequence of listing
//! records, constructed once and then only read.

use vstd::prelude::*;
use vstd::string::*;

verus! {

/// One catalog record: the metadata of a book listing. All fields are
/// plain strings set at construction time.
#[derive(Debug, Clone)]
pub struct File {
    pub chapter: String,
    pub description: String,
    pub listing: String,
    pub status: String,
}

/// The mathematical view of a record: one character sequence per field.
pub struct FileView {
    pub chapter: Seq<char>,
    pub description: Seq<char>,
    pub listing: Seq<char>,
    pub status: Seq<char>,
}

impl View for File {
    type V = FileView;

    open spec fn view(&self) -> FileView {
        FileView {
            chapter: self.chapter@,
            description: self.description@,
            listing: self.listing@,
            status: self.status@,
        }
    }
}

/// The fixed catalog contents, in their one canonical order.
pub fn get_files() -> (files: Vec<File>)
    ensures
        files@.len() == 2,
        files@[0]@ == (FileView {
            chapter: "1"@,
            description: "test"@,
            listing: "1-1"@,
            status: "desired"@,
        }),
        files@[1]@ == (FileView {
            chapter: "2"@,
            description: "another test"@,
            listing: "2-1"@,
            status: "desired"@,
        }),
{
    let mut files: Vec<File> = Vec::new();
    files.push(File {
        chapter: "1".to_owned(),
        description: "test".to_owned(),
        listing: "1-1".to_owned(),
        status: "desired".to_owned(),
    });
    files.push(File {
        chapter: "2".to_owned(),
        description: "another test".to_owned(),
        listing: "2-1".to_owned(),
        status: "desired".to_owned(),
    });
    files
}

} // verus!
