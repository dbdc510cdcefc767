//! The records that callers hand to the engine and get back from it.

use crate::document::DocumentView;
use crate::engine::hash::key_of;
use crate::model::PointView;
use crate::vector::normalized;
use vstd::prelude::*;

verus! {

/// A document together with its embedding, as a caller supplies it. The
/// embedding may have any length; each coordinate is the bit pattern of a
/// 32-bit IEEE-754 number.
#[derive(Debug)]
pub struct EmbeddedResource {
    pub id: String,
    pub title: String,
    pub url: String,
    pub embeddings: Vec<u32>,
}

/// A record as the contracts see it.
#[verifier::ext_equal]
pub ghost struct RecordView {
    pub id: Seq<char>,
    pub title: Seq<char>,
    pub url: Seq<char>,
    pub embeddings: Seq<u32>,
}

impl RecordView {
    /// The document that is stored for this record.
    pub open spec fn document(self) -> DocumentView {
        DocumentView { id: self.id, title: self.title, url: self.url }
    }

    /// The key under which that document is stored.
    pub open spec fn key(self) -> u64 {
        key_of(self.document())
    }

    /// The point that stands for this record in the point table.
    pub open spec fn point(self) -> PointView {
        PointView { vector: normalized(self.embeddings), key: self.key() }
    }
}

impl View for EmbeddedResource {
    type V = RecordView;

    open spec fn view(&self) -> RecordView {
        RecordView {
            id: self.id@,
            title: self.title@,
            url: self.url@,
            embeddings: self.embeddings@,
        }
    }
}

impl Clone for EmbeddedResource {
    fn clone(&self) -> (copy: Self)
        ensures
            copy@ == self@,
    {
        let embeddings = self.embeddings.clone();
        EmbeddedResource {
            id: self.id.clone(),
            title: self.title.clone(),
            url: self.url.clone(),
            embeddings,
        }
    }
}

/// A batch of records.
#[derive(Debug)]
pub struct Resource {
    pub embeddings: Vec<EmbeddedResource>,
}

impl View for Resource {
    type V = Seq<RecordView>;

    open spec fn view(&self) -> Seq<RecordView> {
        self.embeddings@.map_values(|r: EmbeddedResource| r@)
    }
}

} // verus!
