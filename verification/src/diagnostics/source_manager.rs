//! Source files registered for diagnostics.
use vstd::prelude::*;
use std::ops::Range;
use std::sync::Arc;

verus! {

/// Trusted: `Arc::clone` returns another handle to the same allocation, so
/// the shared text is unchanged.
#[verifier::external_body]
fn share_text(a: &Arc<String>) -> (r: Arc<String>)
    ensures
        r == *a,
{
    Arc::clone(a)
}

/// Identifies a registered source file.
#[derive(Debug, Clone, Copy, PartialEq, Eq, Hash, Structural)]
pub struct FileId(pub u32);

/// A byte range within a registered file.
#[derive(Debug)]
pub struct Span {
    pub file: FileId,
    pub range: Range<usize>,
}

/// A registered file: its name and contents.
pub struct SourceFile {
    pub name: String,
    pub content: Arc<String>,
}

/// The registered source files; the file added `i`-th has identity `i`.
pub struct SourceManager {
    files: Vec<SourceFile>,
    next_id: u32,
}

impl SourceManager {
    /// The registered files, in registration order.
    pub closed spec fn files(&self) -> Seq<SourceFile> {
        self.files@
    }

    /// The number of registered files equals the next identity.
    pub closed spec fn wf(&self) -> bool {
        self.files@.len() == self.next_id
    }

    /// An empty manager.
    pub fn new() -> (r: SourceManager)
        ensures
            r.wf(),
            r.files().len() == 0,
    {
        SourceManager { files: Vec::new(), next_id: 0 }
    }

    /// Registers a file and returns its identity.
    pub fn add_file(&mut self, name: String, content: String) -> (r: FileId)
        requires
            old(self).wf(),
            old(self).files().len() < u32::MAX,
        ensures
            final(self).wf(),
            r.0 == old(self).files().len(),
            final(self).files().len() == old(self).files().len() + 1,
            final(self).files().subrange(0, r.0 as int) == old(self).files(),
            final(self).files()[r.0 as int].name == name,
            final(self).files()[r.0 as int].content == content,
    {
        let id = FileId(self.next_id);
        self.next_id = self.next_id + 1;
        self.files.push(SourceFile { name, content: Arc::new(content) });
        assert(self.files@.subrange(0, id.0 as int) == old(self).files@);
        id
    }

    /// The name and contents of a registered file, if the identity is known.
    pub fn get_named_source(&self, id: FileId) -> (r: Option<SourceFile>)
        requires
            self.wf(),
        ensures
            r is Some <==> id.0 < self.files().len(),
            r matches Some(f) ==> f.name == self.files()[id.0 as int].name && f.content == self.files()[id.0 as int].content,
    {
        if (id.0 as usize) < self.files.len() {
            let f = &self.files[id.0 as usize];
            Some(SourceFile { name: f.name.clone(), content: share_text(&f.content) })
        } else {
            None
        }
    }
}

impl Span {
    /// A span of `range` in `file`.
    pub fn new(file: FileId, range: Range<usize>) -> (r: Span)
        ensures
            r.file == file,
            r.range == range,
    {
        Span { file, range }
    }

    /// The span as an offset and a length (zero for an empty or inverted range).
    pub fn offset_len(&self) -> (r: (usize, usize))
        ensures
            r.0 == self.range.start,
            r.1 == if self.range.end > self.range.start { self.range.end - self.range.start } else { 0 },
    {
        let start = self.range.start;
        let end = self.range.end;
        (start, if end > start { end - start } else { 0 })
    }
}

} // verus!
