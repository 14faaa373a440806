//! The persistence interface of the library: getting a [`PeDocument`] from bytes /
//! disk and writing it back. Mock and real differ only here.

use crate::domain::document::{DocModel, PeDocument};
use crate::error::{failure, result_view, PeErrorModel, PeResult};
use crate::io::pe::decode::parsed;
use crate::io::pe::parser::parse;
use crate::io::pe::writer::{serialize, serialized, writable};
use vstd::prelude::*;

verus! {

/// Loads and saves a PE document. The only adapter point that differs between
/// the mock and the real implementation.
pub trait PeSource: Sized {
    /// What loading may give.
    spec fn may_load(&self, r: Result<DocModel, PeErrorModel>) -> bool;

    /// Whether a document may be handed to `save`.
    spec fn can_save(&self, d: DocModel) -> bool;

    /// What saving a document may leave of the source, with the reason when it
    /// failed.
    spec fn may_save(self, d: DocModel, after: Self, e: Option<PeErrorModel>) -> bool;

    fn load(&self) -> (r: PeResult<PeDocument>)
        ensures
            self.may_load(result_view(r)),
    ;

    fn save(&mut self, doc: &PeDocument) -> (r: PeResult<()>)
        requires
            old(self).can_save(doc@),
        ensures
            (*old(self)).may_save(doc@, *final(self), failure(r)),
    ;
}

/// A PE held entirely in memory.
pub struct ByteSource {
    bytes: Vec<u8>,
    saved: Vec<u8>,
}

/// The bytes a [`ByteSource`] was made of and those it saved last.
pub struct ByteSourceModel {
    pub bytes: Seq<u8>,
    pub saved: Seq<u8>,
}

impl View for ByteSource {
    type V = ByteSourceModel;

    closed spec fn view(&self) -> ByteSourceModel {
        ByteSourceModel { bytes: self.bytes@, saved: self.saved@ }
    }
}

impl ByteSource {
    pub fn new(bytes: Vec<u8>) -> (r: Self)
        ensures
            r@.bytes == bytes@,
            r@.saved.len() == 0,
    {
        ByteSource { bytes, saved: Vec::new() }
    }

    pub fn bytes(&self) -> (r: &[u8])
        ensures
            r@ == self@.bytes,
    {
        self.bytes.as_slice()
    }

    /// The bytes produced by the last `save()` (empty if never saved).
    pub fn saved_bytes(&self) -> (r: Vec<u8>)
        ensures
            r@ == self@.saved,
    {
        let r = self.saved.clone();
        assert(r@ =~= self.saved@);
        r
    }
}

impl PeSource for ByteSource {
    open spec fn may_load(&self, r: Result<DocModel, PeErrorModel>) -> bool {
        r == parsed(self@.bytes)
    }

    open spec fn can_save(&self, d: DocModel) -> bool {
        writable(d)
    }

    open spec fn may_save(self, d: DocModel, after: Self, e: Option<PeErrorModel>) -> bool {
        match serialized(d) {
            Ok(b) => e is None && after@ == (ByteSourceModel { saved: b, ..self@ }),
            Err(x) => e == Some(x) && after@ == self@,
        }
    }

    fn load(&self) -> (r: PeResult<PeDocument>) {
        parse(self.bytes.as_slice())
    }

    fn save(&mut self, doc: &PeDocument) -> (r: PeResult<()>) {
        match serialize(doc) {
            Ok(b) => {
                self.saved = b;
                Ok(())
            },
            Err(e) => Err(e),
        }
    }
}

/// High-level facade combining a [`PeSource`] (how to persist) with a loaded
/// [`PeDocument`] (the object being viewed/edited).
pub struct PeFile<S: PeSource> {
    source: S,
    doc: PeDocument,
}

impl PeFile<ByteSource> {
    /// Open a PE held in memory.
    pub fn from_bytes(bytes: Vec<u8>) -> (r: PeResult<Self>)
        ensures
            match parsed(bytes@) {
                Ok(d) => r is Ok && r->Ok_0.document() == d && r->Ok_0.origin()@.bytes == bytes@
                    && r->Ok_0.origin()@.saved.len() == 0,
                Err(e) => r is Err && r->Err_0@ == e,
            },
    {
        PeFile::from_source(ByteSource::new(bytes))
    }
}

impl<S: PeSource> PeFile<S> {
    /// The document being edited.
    pub closed spec fn document(self) -> DocModel {
        self.doc@
    }

    /// Where the document is saved.
    pub closed spec fn origin(self) -> S {
        self.source
    }

    /// Open from an arbitrary source.
    pub fn from_source(source: S) -> (r: PeResult<Self>)
        ensures
            match r {
                Ok(f) => f.origin() == source && source.may_load(Ok(f.document())),
                Err(e) => source.may_load(Err(e@)),
            },
    {
        match source.load() {
            Ok(doc) => Ok(PeFile { source, doc }),
            Err(e) => Err(e),
        }
    }

    pub fn doc(&self) -> (r: &PeDocument)
        ensures
            r@ == self.document(),
    {
        &self.doc
    }

    pub fn doc_mut(&mut self) -> (r: &mut PeDocument)
        ensures
            r@ == old(self).document(),
            final(self).document() == final(r)@,
            final(self).origin() == old(self).origin(),
    {
        &mut self.doc
    }

    /// Save the document to where it came from.
    pub fn save(&mut self) -> (r: PeResult<()>)
        requires
            old(self).origin().can_save(old(self).document()),
        ensures
            old(self).origin().may_save(
                old(self).document(),
                final(self).origin(),
                failure(r),
            ),
            final(self).document() == old(self).document(),
    {
        self.source.save(&self.doc)
    }
}

} // verus!
