//! File paths as a starting point and the parts below it.
//!
//! How parts are put together is the platform's business; which parts are, is decided here.

use crate::text::texts;
use vstd::prelude::*;

verus! {

/// The operating systems that are told apart.
#[derive(Debug, Clone, Copy, PartialEq, Eq, Structural)]
pub enum OperatingSystem {
    Windows,
    MacOs,
    Other,
}

/// A path: a starting point, and the parts to be joined to it one after the other.
#[derive(Debug, Clone)]
pub struct FilePath {
    pub base: String,
    pub parts: Vec<String>,
}

/// The texts of a [`FilePath`].
#[verifier::ext_equal]
pub struct PathModel {
    pub base: Seq<char>,
    pub parts: Seq<Seq<char>>,
}

impl View for FilePath {
    type V = PathModel;

    open spec fn view(&self) -> PathModel {
        PathModel { base: self.base@, parts: texts(self.parts@) }
    }
}

/// The views of a list of paths.
pub open spec fn path_models(paths: Seq<FilePath>) -> Seq<PathModel> {
    Seq::new(paths.len(), |i: int| paths[i]@)
}

/// A path with one part more.
pub open spec fn below(path: PathModel, part: Seq<char>) -> PathModel {
    PathModel { base: path.base, parts: path.parts.push(part) }
}

/// A starting point with nothing below it.
pub open spec fn at_base(base: Seq<char>) -> PathModel {
    PathModel { base, parts: seq![] }
}

impl FilePath {
    /// A starting point.
    pub fn new(base: &str) -> (path: FilePath)
        ensures
            path@ == at_base(base@),
    {
        let path = FilePath { base: base.to_owned(), parts: Vec::new() };
        proof {
            assert(path@ =~= at_base(base@));
        }
        path
    }

    /// The path with one part more.
    pub fn join(self, part: &str) -> (path: FilePath)
        ensures
            path@ == below(self@, part@),
    {
        let ghost before = self.parts@;
        let mut parts = self.parts;
        parts.push(part.to_owned());
        proof {
            assert(texts(parts@) =~= texts(before).push(part@));
        }
        FilePath { base: self.base, parts }
    }
}

/// The position of the first path that exists, where `present` says which do.
pub open spec fn first_present(present: Seq<bool>) -> Option<int>
    decreases present.len(),
{
    if present.len() == 0 {
        None
    } else if present[0] {
        Some(0)
    } else {
        match first_present(present.skip(1)) {
            Some(at) => Some(at + 1),
            None => None,
        }
    }
}

proof fn lemma_first_present(present: Seq<bool>, at: int)
    requires
        0 <= at <= present.len(),
        forall|i: int| 0 <= i < at ==> !#[trigger] present[i],
        at < present.len() ==> present[at],
    ensures
        first_present(present) == (if at < present.len() {
            Some(at)
        } else {
            None
        }),
    decreases present.len(),
{
    if present.len() > 0 && at > 0 {
        let rest = present.skip(1);
        assert forall|i: int| 0 <= i < at - 1 implies !#[trigger] rest[i] by {
            assert(rest[i] == present[i + 1]);
        }
        lemma_first_present(rest, at - 1);
    }
}

/// The position of the first path that exists.
pub fn find_present(present: &Vec<bool>) -> (found: Option<usize>)
    ensures
        match found {
            Some(at) => first_present(present@) == Some(at as int),
            None => first_present(present@) is None,
        },
{
    let mut i: usize = 0;
    while i < present.len()
        invariant
            i <= present.len(),
            forall|j: int| 0 <= j < i ==> !#[trigger] present@[j],
        decreases present.len() - i,
    {
        if present[i] {
            proof {
                lemma_first_present(present@, i as int);
            }
            return Some(i);
        }
        i = i + 1;
    }
    proof {
        lemma_first_present(present@, i as int);
    }
    None
}

/// What is found is a path that exists, and none before it does; nothing is found only where none
/// exists.
pub proof fn law_the_first_present_is_found(present: Vec<bool>, found: Option<usize>)
    requires
        call_ensures(find_present, (&present,), found),
    ensures
        found matches Some(at) ==> at < present@.len() && present@[at as int] && forall|j: int|
            0 <= j < at ==> !#[trigger] present@[j],
        found is None ==> forall|j: int| 0 <= j < present@.len() ==> !#[trigger] present@[j],
{
    lemma_what_is_present(present@);
}

/// What `first_present` finds.
pub proof fn lemma_what_is_present(present: Seq<bool>)
    ensures
        first_present(present) matches Some(at) ==> 0 <= at < present.len() && present[at]
            && forall|j: int| 0 <= j < at ==> !#[trigger] present[j],
        first_present(present) is None ==> forall|j: int|
            0 <= j < present.len() ==> !#[trigger] present[j],
    decreases present.len(),
{
    if present.len() > 0 && !present[0] {
        let rest = present.skip(1);
        lemma_what_is_present(rest);
        assert forall|j: int| 1 <= j < present.len() implies #[trigger] present[j] == rest[j - 1] by {}
    }
}

/// A path grows by the parts that are joined to it, in their order, and keeps where it begins.
pub proof fn law_parts_are_joined_in_order(
    base: &str,
    first: &str,
    second: &str,
    start: FilePath,
    middle: FilePath,
    end: FilePath,
)
    requires
        call_ensures(FilePath::new, (base,), start),
        call_ensures(FilePath::join, (start, first), middle),
        call_ensures(FilePath::join, (middle, second), end),
    ensures
        end.base@ == base@,
        end.parts@.len() == 2,
        end.parts@[0]@ == first@,
        end.parts@[1]@ == second@,
{
    assert(start@.parts.len() == 0);
    assert(end@.parts =~= seq![first@, second@]);
    assert(end@.parts.len() == end.parts@.len());
    assert(end@.parts[0] == end.parts@[0]@ && end@.parts[1] == end.parts@[1]@);
}

} // verus!
