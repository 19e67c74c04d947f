//! Trait paths as the library reads them: a sequence of segments, each an
//! identifier with the text of its generic arguments.

use vstd::prelude::*;

verus! {

/// One segment of a path: `Edge2<T>` is the identifier `Edge2` with the
/// arguments `<T>`; a segment without arguments has empty argument text.
pub struct PathSegment {
    pub ident: String,
    pub arguments: String,
}

/// A path to a trait, such as `foo::Bar<Baz>`.
pub struct TraitPath {
    pub leading_colon: bool,
    pub segments: Vec<PathSegment>,
}

/// The value of a path segment.
pub struct SegmentView {
    pub ident: Seq<char>,
    pub arguments: Seq<char>,
}

/// The value of a path: two paths are the same path exactly when their views
/// are equal.
pub struct PathView {
    pub leading_colon: bool,
    pub segments: Seq<SegmentView>,
}

impl View for PathSegment {
    type V = SegmentView;

    open spec fn view(&self) -> SegmentView {
        SegmentView { ident: self.ident@, arguments: self.arguments@ }
    }
}

impl View for TraitPath {
    type V = PathView;

    open spec fn view(&self) -> PathView {
        PathView {
            leading_colon: self.leading_colon,
            segments: self.segments@.map_values(|s: PathSegment| s@),
        }
    }
}

/// The views of a sequence of paths.
pub open spec fn paths_view(paths: Seq<TraitPath>) -> Seq<PathView> {
    paths.map_values(|p: TraitPath| p@)
}

/// The name that identifies a trait in generated identifiers: the identifier
/// of the last segment of its path (`foo::Bar<Baz>` is named `Bar`).
pub open spec fn friendly_name(p: PathView) -> Option<Seq<char>> {
    if p.segments.len() == 0 {
        None
    } else {
        Some(p.segments.last().ident)
    }
}

impl PathSegment {
    /// A segment made of an identifier and the text of its arguments.
    pub fn new(ident: String, arguments: String) -> (r: Self)
        ensures
            r.ident == ident,
            r.arguments == arguments,
    {
        PathSegment { ident, arguments }
    }

    /// A copy of this segment.
    pub fn duplicate(&self) -> (r: Self)
        ensures
            r@ == self@,
    {
        PathSegment { ident: self.ident.clone(), arguments: self.arguments.clone() }
    }
}

impl TraitPath {
    /// A path made of a leading `::` marker and segments.
    pub fn new(leading_colon: bool, segments: Vec<PathSegment>) -> (r: Self)
        ensures
            r.leading_colon == leading_colon,
            r.segments == segments,
    {
        TraitPath { leading_colon, segments }
    }

    /// A path of one segment without arguments.
    pub fn from_ident(ident: String) -> (r: Self)
        ensures
            r@ == (PathView {
                leading_colon: false,
                segments: seq![SegmentView { ident: ident@, arguments: Seq::empty() }],
            }),
    {
        let mut segments: Vec<PathSegment> = Vec::new();
        segments.push(PathSegment { ident, arguments: String::new() });
        let r = TraitPath { leading_colon: false, segments };
        assert(r@.segments =~= seq![SegmentView { ident: ident@, arguments: Seq::empty() }]);
        r
    }

    /// A copy of this path.
    pub fn duplicate(&self) -> (r: Self)
        ensures
            r@ == self@,
    {
        let mut segments: Vec<PathSegment> = Vec::new();
        let mut i: usize = 0;
        while i < self.segments.len()
            invariant
                i <= self.segments.len(),
                segments.len() == i,
                forall|j: int| 0 <= j < i ==> #[trigger] segments@[j]@ == self.segments@[j]@,
            decreases self.segments.len() - i,
        {
            segments.push(self.segments[i].duplicate());
            i = i + 1;
        }
        let r = TraitPath { leading_colon: self.leading_colon, segments };
        assert(r@.segments =~= self@.segments);
        r
    }

    /// Whether two paths are the same path.
    pub fn same_as(&self, other: &TraitPath) -> (r: bool)
        ensures
            r == (self@ == other@),
    {
        if self.leading_colon != other.leading_colon {
            return false;
        }
        if self.segments.len() != other.segments.len() {
            assert(self@.segments.len() != other@.segments.len());
            return false;
        }
        let mut i: usize = 0;
        while i < self.segments.len()
            invariant
                i <= self.segments.len(),
                self.segments.len() == other.segments.len(),
                forall|j: int| 0 <= j < i ==> #[trigger] self.segments@[j]@ == other.segments@[j]@,
            decreases self.segments.len() - i,
        {
            let a = &self.segments[i];
            let b = &other.segments[i];
            if !(a.ident == b.ident) || !(a.arguments == b.arguments) {
                assert(self@.segments[i as int] != other@.segments[i as int]);
                return false;
            }
            i = i + 1;
        }
        assert(self@.segments =~= other@.segments);
        true
    }

    /// The identifier of the last segment, if the path has any segment.
    pub fn friendly_name(&self) -> (r: Option<String>)
        ensures
            match r {
                Some(s) => friendly_name(self@) == Some(s@),
                None => friendly_name(self@) is None,
            },
    {
        if self.segments.len() == 0 {
            None
        } else {
            Some(self.segments[self.segments.len() - 1].ident.clone())
        }
    }
}

/// Copies of a list of paths.
pub fn duplicate_paths(paths: &Vec<TraitPath>) -> (r: Vec<TraitPath>)
    ensures
        paths_view(r@) == paths_view(paths@),
{
    let mut out: Vec<TraitPath> = Vec::new();
    let mut i: usize = 0;
    while i < paths.len()
        invariant
            i <= paths.len(),
            out.len() == i,
            forall|j: int| 0 <= j < i ==> #[trigger] out@[j]@ == paths@[j]@,
        decreases paths.len() - i,
    {
        out.push(paths[i].duplicate());
        i = i + 1;
    }
    assert(paths_view(out@) =~= paths_view(paths@));
    out
}

/// Whether `p` is one of `paths`.
pub fn contains_path(paths: &Vec<TraitPath>, p: &TraitPath) -> (r: bool)
    ensures
        r == paths_view(paths@).contains(p@),
{
    let mut i: usize = 0;
    while i < paths.len()
        invariant
            i <= paths.len(),
            forall|j: int| 0 <= j < i ==> paths@[j]@ != p@,
        decreases paths.len() - i,
    {
        if paths[i].same_as(p) {
            assert(paths_view(paths@)[i as int] == p@);
            return true;
        }
        i = i + 1;
    }
    assert(!paths_view(paths@).contains(p@)) by {
        if paths_view(paths@).contains(p@) {
            let j = choose|j: int| 0 <= j < paths_view(paths@).len() && paths_view(paths@)[j] == p@;
            assert(paths@[j]@ == p@);
        }
    }
    false
}

} // verus!
