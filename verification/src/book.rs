//! Books and authors of the reading dataset.

use vstd::prelude::*;

verus! {

/// An author of the dataset.
#[derive(Debug, Clone)]
pub struct Author {
    pub author_id: String,
    pub name: String,
}

/// An author as listed in a book.
#[derive(Debug, Clone)]
pub struct RawAuthor {
    pub author_id: String,
}

/// A book of the dataset. The review count and the publisher may be absent.
#[derive(Debug, Clone)]
pub struct Book {
    pub title: String,
    pub ratings_count: Option<String>,
    pub authors: Vec<RawAuthor>,
    pub publisher: Option<String>,
}

impl Book {
    /// The id of the book's first author, if it lists one.
    pub fn author_id(&self) -> (r: Option<String>)
        ensures
            self.authors.len() == 0 ==> r is None,
            self.authors.len() > 0 ==> (r matches Some(id) && id@ == self.authors[0].author_id@),
    {
        if self.authors.len() == 0 {
            None
        } else {
            Some(self.authors[0].author_id.clone())
        }
    }
}

} // verus!
