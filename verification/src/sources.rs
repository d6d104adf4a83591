//! The source files of a program.

use crate::diagnostics::FileId;
use crate::text::texts;
use vstd::prelude::*;

verus! {

/// The paths and the texts of source files; a file is known by its index.
#[derive(Debug)]
pub struct SourceMap {
    paths: Vec<String>,
    contents: Vec<String>,
}

/// The paths of the files, and their texts.
pub ghost struct SourcesV {
    pub paths: Seq<Seq<char>>,
    pub texts: Seq<Seq<char>>,
}

impl SourceMap {
    pub closed spec fn view(&self) -> SourcesV {
        SourcesV { paths: texts(self.paths@), texts: texts(self.contents@) }
    }

    #[verifier::type_invariant]
    closed spec fn wf(self) -> bool {
        self.paths@.len() == self.contents@.len() && self.paths@.len() <= u32::MAX
    }

    pub fn new() -> (r: SourceMap)
        ensures
            r@ == (SourcesV { paths: Seq::empty(), texts: Seq::empty() }),
    {
        let r = SourceMap { paths: Vec::new(), contents: Vec::new() };
        assert(r@.paths =~= Seq::empty());
        assert(r@.texts =~= Seq::empty());
        r
    }

    /// Adds a file.
    pub fn add(&mut self, path: String, text: String) -> (r: FileId)
        requires
            old(self)@.paths.len() < u32::MAX,
        ensures
            r.0 == old(self)@.paths.len(),
            final(self)@.paths == old(self)@.paths.push(path@),
            final(self)@.texts == old(self)@.texts.push(text@),
    {
        let mut taken = SourceMap::new();
        core::mem::swap(self, &mut taken);
        proof {
            use_type_invariant(&taken);
        }
        let SourceMap { mut paths, mut contents } = taken;
        let id: usize = paths.len();
        paths.push(path);
        contents.push(text);
        *self = SourceMap { paths, contents };
        assert(self@.paths =~= old(self)@.paths.push(path@));
        assert(self@.texts =~= old(self)@.texts.push(text@));
        FileId(id as u32)
    }

    /// The number of files.
    pub fn len(&self) -> (r: usize)
        ensures
            r == self@.paths.len(),
            r == self@.texts.len(),
            r <= u32::MAX,
    {
        proof {
            use_type_invariant(self);
        }
        self.paths.len()
    }

    /// The text of a file; a file that was never added has none.
    pub fn text(&self, file: FileId) -> (r: String)
        ensures
            r@ == path_text(self@.texts, file),
    {
        if (file.0 as usize) < self.contents.len() {
            self.contents[file.0 as usize].clone()
        } else {
            let r = String::new();
            assert(r@ =~= Seq::empty());
            r
        }
    }

    /// The path of a file; a file that was never added has none.
    pub fn path(&self, file: FileId) -> (r: String)
        ensures
            r@ == path_text(self@.paths, file),
    {
        if (file.0 as usize) < self.paths.len() {
            self.paths[file.0 as usize].clone()
        } else {
            let r = String::new();
            assert(r@ =~= Seq::empty());
            r
        }
    }
}

/// The path, or the text, of a file, by those of all files.
pub open spec fn path_text(paths: Seq<Seq<char>>, file: FileId) -> Seq<char> {
    if file.0 < paths.len() {
        paths[file.0 as int]
    } else {
        Seq::empty()
    }
}

} // verus!
