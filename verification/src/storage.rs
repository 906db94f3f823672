//! The storage layer's plain values: open options for the collection files,
//! and path resolution from a base directory and path segments.

use vstd::prelude::*;

verus! {

/// How a collection file is opened: readable, writable, created if absent.
#[derive(Clone, Copy)]
pub struct FileWrapperOptions {
    pub read: bool,
    pub write: bool,
    pub create: bool,
}

impl FileWrapperOptions {
    /// The options every handler uses: read and write, creating the file
    /// when it does not exist yet.
    pub fn default() -> (r: FileWrapperOptions)
        ensures
            r.read,
            r.write,
            r.create,
    {
        FileWrapperOptions { read: true, write: true, create: true }
    }
}

/// A base directory extended by path segments, one separator before each.
pub open spec fn joined_path(base: Seq<char>, segments: Seq<Seq<char>>) -> Seq<char>
    decreases segments.len(),
{
    if segments.len() == 0 {
        base
    } else {
        joined_path(base, segments.drop_last()) + "/"@ + segments.last()
    }
}

/// Appends each segment, in order, to the base directory.
pub fn resolve_path(base: &str, segments: &Vec<String>) -> (r: String)
    ensures
        r@ == joined_path(base@, crate::strutil::str_views(segments@)),
{
    let ghost views = crate::strutil::str_views(segments@);
    let mut path = String::from_str(base);
    let mut i: usize = 0;
    while i < segments.len()
        invariant
            i <= segments@.len(),
            views == crate::strutil::str_views(segments@),
            path@ == joined_path(base@, views.take(i as int)),
        decreases segments@.len() - i,
    {
        path.append("/");
        path.append(segments[i].as_str());
        proof {
            assert(views.take(i + 1).drop_last() =~= views.take(i as int));
            assert(views.take(i + 1).last() == views[i as int]);
        }
        i += 1;
    }
    proof {
        assert(views.take(segments@.len() as int) =~= views);
    }
    path
}

} // verus!
