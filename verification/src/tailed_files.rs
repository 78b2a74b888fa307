//! The progress files that are being followed.

use vstd::prelude::*;

use crate::ordered_map::{has_key, lookup_after_with, lookup_after_without, OrderedMap};
use crate::paths::{
    components, is_rooted, plain_path, same_path_means_same_components, to_plain_path,
};

verus! {

/// The files that someone follows, so that no file is followed twice.
pub struct TailedFiles {
    paths: OrderedMap<()>,
}

impl View for TailedFiles {
    /// The files, each by its plain path.
    type V = Set<Seq<char>>;

    closed spec fn view(&self) -> Set<Seq<char>> {
        Set::new(|path: Seq<char>| has_key(self.paths@, path))
    }
}

impl TailedFiles {
    /// No file is listed twice.
    pub closed spec fn wf(&self) -> bool {
        self.paths.wf()
    }

    pub fn new() -> (files: Self)
        ensures
            files.wf(),
            files@ == Set::<Seq<char>>::empty(),
    {
        let files = TailedFiles { paths: OrderedMap::new() };
        assert(files@ =~= Set::<Seq<char>>::empty());
        files
    }
}

/// Claims `path`; fails if someone already follows it. Paths with the same components are the
/// same.
pub fn claim_progress_file(files: &mut TailedFiles, path: &str) -> (claimed: bool)
    requires
        old(files).wf(),
    ensures
        final(files).wf(),
        claimed == !old(files)@.contains(plain_path(path@)),
        final(files)@ == old(files)@.insert(plain_path(path@)),
{
    let ghost before = files.paths@;
    let key = to_plain_path(path);
    let ghost plain = key@;
    let previous = files.paths.insert(key, ());
    proof {
        assert forall|p: Seq<char>| #[trigger]
            files@.contains(p) == old(files)@.insert(plain).contains(p) by {
            lookup_after_with(before, plain, (), p);
        }
        assert(files@ =~= old(files)@.insert(plain));
    }
    previous.is_none()
}

/// Gives `path` back.
pub fn release_progress_file(files: &mut TailedFiles, path: &str)
    requires
        old(files).wf(),
    ensures
        final(files).wf(),
        final(files)@ == old(files)@.remove(plain_path(path@)),
{
    let ghost before = files.paths@;
    let key = to_plain_path(path);
    files.paths.remove(key.as_str());
    proof {
        assert forall|p: Seq<char>| #[trigger]
            files@.contains(p) == old(files)@.remove(key@).contains(p) by {
            lookup_after_without(before, key@, p);
        }
        assert(files@ =~= old(files)@.remove(key@));
    }
}

/// A file that is claimed cannot be claimed again until it is given back, and then it can be,
/// whichever way its path is written; and claiming one file leaves the others alone.
pub proof fn files_are_claimed_once(
    start: TailedFiles,
    path: &str,
    first: bool,
    claimed: TailedFiles,
    same_path: &str,
    second: bool,
    after: TailedFiles,
    released: TailedFiles,
    third: bool,
    end: TailedFiles,
    other: Seq<char>,
)
    requires
        start.wf(),
        is_rooted(path@) == is_rooted(same_path@),
        components(path@) == components(same_path@),
        exists|f: &mut TailedFiles|
            *f == start && *final(f) == claimed && #[trigger] call_ensures(
                claim_progress_file,
                (f, path),
                first,
            ),
        exists|f: &mut TailedFiles|
            *f == claimed && *final(f) == after && #[trigger] call_ensures(
                claim_progress_file,
                (f, same_path),
                second,
            ),
        exists|f: &mut TailedFiles|
            *f == after && *final(f) == released && #[trigger] call_ensures(
                release_progress_file,
                (f, same_path),
                (),
            ),
        exists|f: &mut TailedFiles|
            *f == released && *final(f) == end && #[trigger] call_ensures(
                claim_progress_file,
                (f, path),
                third,
            ),
    ensures
        !second,
        third,
        start@ == Set::<Seq<char>>::empty() ==> first,
        is_rooted(other) != is_rooted(path@) || components(other) != components(path@)
            ==> end@.contains(plain_path(other)) == start@.contains(plain_path(other)),
{
    same_path_means_same_components(path@, same_path@);
    same_path_means_same_components(other, path@);
}

} // verus!
