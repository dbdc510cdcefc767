//! The stored record of a document and its mathematical view.

use vstd::prelude::*;

verus! {

/// What the index keeps of a document: the fields by which it is shown and
/// told apart from others.
#[derive(Debug, PartialEq, Eq, Hash)]
pub struct Document {
    pub id: String,
    pub title: String,
    pub url: String,
}

/// A document as the contracts see it: three sequences of characters.
#[verifier::ext_equal]
pub ghost struct DocumentView {
    pub id: Seq<char>,
    pub title: Seq<char>,
    pub url: Seq<char>,
}

impl View for Document {
    type V = DocumentView;

    open spec fn view(&self) -> DocumentView {
        DocumentView { id: self.id@, title: self.title@, url: self.url@ }
    }
}

impl Clone for Document {
    fn clone(&self) -> (copy: Self)
        ensures
            copy@ == self@,
    {
        Document { id: self.id.clone(), title: self.title.clone(), url: self.url.clone() }
    }
}

/// The views of a sequence of documents, in the same order.
pub open spec fn document_views(documents: Seq<Document>) -> Seq<DocumentView> {
    documents.map_values(|d: Document| d@)
}

} // verus!
