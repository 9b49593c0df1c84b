//! Shared data types: chunk references, grep hits, routes and errors.
use vstd::prelude::*;

verus! {

/// A span of lines (and bytes) in one file of the corpus.
#[derive(Debug)]
pub struct ChunkRef {
    /// Path of the file, as the grep backends report it.
    pub file: String,
    pub chunk_id: u32,
    pub start_line: u32,
    pub end_line: u32,
    pub byte_start: u64,
    pub byte_end: u64,
}

impl Clone for ChunkRef {
    fn clone(&self) -> (r: Self)
        ensures
            r == *self,
    {
        ChunkRef {
            file: self.file.clone(),
            chunk_id: self.chunk_id,
            start_line: self.start_line,
            end_line: self.end_line,
            byte_start: self.byte_start,
            byte_end: self.byte_end,
        }
    }
}

/// One matching line reported by a grep backend.
#[derive(Debug)]
pub struct GrepHit {
    pub file: String,
    pub line_no: u32,
    pub byte_offset: u64,
    pub line: String,
    pub match_start: usize,
    pub match_end: usize,
}

impl Clone for GrepHit {
    fn clone(&self) -> (r: Self)
        ensures
            r == *self,
    {
        GrepHit {
            file: self.file.clone(),
            line_no: self.line_no,
            byte_offset: self.byte_offset,
            line: self.line.clone(),
            match_start: self.match_start,
            match_end: self.match_end,
        }
    }
}

/// Where a query is sent.
#[derive(Debug, Clone, Copy, PartialEq, Eq, Structural)]
pub enum Route {
    Grep,
    Semantic,
    Hybrid,
    Prefocus,
}

/// What the router knows about the repository.
#[derive(Debug, Clone, Copy, PartialEq, Eq, Structural)]
pub struct RepoMeta {
    /// A warm (fully embedded) index exists.
    pub index_warm: bool,
    /// An embedding model is installed.
    pub has_model: bool,
}

impl Default for RepoMeta {
    fn default() -> (r: Self)
        ensures
            !r.index_warm && !r.has_model,
    {
        RepoMeta { index_warm: false, has_model: false }
    }
}

/// A routing decision with its confidence (in percent) and the reasons given.
#[derive(Debug)]
pub struct RouteDecision {
    pub route: Route,
    /// Confidence in hundredths (`92` stands for `0.92`).
    pub confidence_pct: u8,
    pub rationale: Vec<String>,
}

/// Errors of the library.
#[derive(Debug)]
pub enum GpError {
    Io(String),
    Config(String),
    Model(String),
    Index(String),
    Training(String),
    Serde(String),
    Other(String),
    /// No embedding model is installed or selected.
    NoModel,
}

/// `ChunkRef` identity used for de-duplication: (file, start line, end line).
pub open spec fn chunk_key(c: ChunkRef) -> (Seq<char>, u32, u32) {
    (c.file@, c.start_line, c.end_line)
}

/// Whether two chunks share a file and an overlapping line range.
pub open spec fn overlaps(a: ChunkRef, b: ChunkRef) -> bool {
    &&& a.file@ == b.file@
    &&& a.start_line <= b.end_line
    &&& a.end_line >= b.start_line
}

/// Whether two chunks have the same key.
pub fn same_key(a: &ChunkRef, b: &ChunkRef) -> (r: bool)
    ensures
        r == (chunk_key(*a) == chunk_key(*b)),
{
    a.start_line == b.start_line && a.end_line == b.end_line && a.file == b.file
}

} // verus!
