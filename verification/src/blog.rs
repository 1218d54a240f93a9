//! A blog: where its sources lie and where it is rendered to.
use vstd::prelude::*;

verus! {

/// A blog, by its two directories.
pub struct Blog<'d> {
    source_dir: &'d str,
    render_dir: &'d str,
}

impl<'d> Blog<'d> {
    /// The directory of the sources.
    pub closed spec fn source_dir(&self) -> &'d str {
        self.source_dir
    }

    /// The directory that the blog is rendered to.
    pub closed spec fn render_dir(&self) -> &'d str {
        self.render_dir
    }

    /// The blog with the given directories.
    pub fn new(source_dir: &'d str, render_dir: &'d str) -> (r: Option<Self>)
        ensures
            r matches Some(blog) && blog.source_dir() == source_dir && blog.render_dir()
                == render_dir,
    {
        Some(Blog { source_dir, render_dir })
    }
}

} // verus!
