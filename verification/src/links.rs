//! Following a chain of symbolic links: each path on the way is noted, and a
//! path met twice is a cycle. Reading the links is left to the caller, which
//! hands each step what the file system says of the path.
use vstd::prelude::*;
use crate::expand::strings_view;
use crate::text::{concat, str_eq};

verus! {

/// What to do after looking at one path of a chain of symbolic links.
pub enum LinkStep {
    /// The path is no symbolic link: it is where the chain ends.
    Done(String),
    /// The path is a symbolic link to this target, to be looked at next.
    Follow(String),
    /// The path was met before: the error message.
    Cycle(String),
}

/// The paths met so far on the way along a chain of symbolic links.
pub struct LinkWalk {
    seen: Vec<String>,
}

impl LinkWalk {
    /// The paths met so far, in order.
    pub closed spec fn seen(&self) -> Seq<Seq<char>> {
        strings_view(self.seen@)
    }

    /// A walk that has met no path yet.
    pub fn new() -> (res: LinkWalk)
        ensures
            res.seen() == Seq::<Seq<char>>::empty(),
    {
        let w = LinkWalk { seen: Vec::new() };
        assert(w.seen() =~= Seq::<Seq<char>>::empty());
        w
    }

    /// One step from `path`, whose link target is `target` if it is a symbolic
    /// link: the end of the chain, the target to look at next, or the cycle
    /// error for a link met before. The paths met stay distinct.
    pub fn step(&mut self, path: String, target: Option<String>) -> (res: LinkStep)
        ensures
            match target {
                None => (res matches LinkStep::Done(p) && p@ == path@) && final(self).seen() == old(self).seen(),
                Some(t) => if old(self).seen().contains(path@) {
                    (res matches LinkStep::Cycle(m) && m@ == "Cyclical symbolic link: "@ + path@)
                        && final(self).seen() == old(self).seen()
                } else {
                    (res matches LinkStep::Follow(n) && n@ == t@) && final(self).seen() == old(self).seen().push(
                        path@,
                    )
                },
            },
            old(self).seen().no_duplicates() ==> final(self).seen().no_duplicates(),
    {
        match target {
            None => LinkStep::Done(path),
            Some(t) => {
                let mut i: usize = 0;
                while i < self.seen.len()
                    invariant
                        i <= self.seen.len(),
                        self.seen == old(self).seen,
                        target is Some,
                        forall|j: int| 0 <= j < i ==> self.seen()[j] != path@,
                    decreases self.seen.len() - i,
                {
                    if str_eq(self.seen[i].as_str(), path.as_str()) {
                        assert(self.seen()[i as int] == path@);
                        return LinkStep::Cycle(concat("Cyclical symbolic link: ", path.as_str()));
                    }
                    i += 1;
                }
                let ghost before = self.seen();
                assert(!before.contains(path@));
                self.seen.push(path);
                assert(self.seen() =~= before.push(path@));
                LinkStep::Follow(t)
            },
        }
    }
}

} // verus!
