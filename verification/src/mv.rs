//! The decisions of `mv`: where each source goes, and which moves are refused.
//! Paths are given by their components (a root, `.`, `..` and names), which is
//! how paths are compared.
use vstd::prelude::*;
use crate::text::{concat3, str_eq, texts, to_owned_string};

verus! {

/// Where a source goes when moved to `dest`: into `dest` under the source's
/// name when `dest` is a directory (`None` when the source has no name), else
/// to `dest` itself.
pub open spec fn move_target(
    src_name: Option<Seq<char>>,
    dest: Seq<Seq<char>>,
    dest_is_dir: bool,
) -> Option<Seq<Seq<char>>> {
    if dest_is_dir {
        match src_name {
            Some(n) => Some(dest.push(n)),
            None => None,
        }
    } else {
        Some(dest)
    }
}

/// Does path `p` start with the components of `prefix`?
pub open spec fn starts_with(p: Seq<Seq<char>>, prefix: Seq<Seq<char>>) -> bool {
    prefix.len() <= p.len() && p.take(prefix.len() as int) == prefix
}

/// The outcome of moving `src` (shown as `shown`) to `dest`: the target, or why
/// the move is refused.
pub open spec fn move_outcome(
    src: Seq<Seq<char>>,
    src_name: Option<Seq<char>>,
    dest: Seq<Seq<char>>,
    dest_is_dir: bool,
    shown: Seq<char>,
) -> Result<Seq<Seq<char>>, Seq<char>> {
    match move_target(src_name, dest, dest_is_dir) {
        None => Err("Invalid source filename: "@ + shown),
        Some(t) => if t == src {
            Err(shown + ": Source and destination are the same"@)
        } else if starts_with(t, src) {
            Err("Cannot move "@ + shown + " to a subdirectory of itself"@)
        } else {
            Ok(t)
        },
    }
}

/// Do the first `n` components of `p` equal those of `q`?
fn same_prefix(p: &Vec<String>, q: &Vec<String>, n: usize) -> (res: bool)
    requires
        n <= p.len(),
        n <= q.len(),
    ensures
        res == (texts(p@).take(n as int) == texts(q@).take(n as int)),
{
    let mut i: usize = 0;
    while i < n
        invariant
            i <= n,
            n <= p.len(),
            n <= q.len(),
            texts(p@).take(i as int) == texts(q@).take(i as int),
        decreases n - i,
    {
        if !str_eq(p[i].as_str(), q[i].as_str()) {
            assert(texts(p@).take(n as int)[i as int] == p@[i as int]@);
            assert(texts(q@).take(n as int)[i as int] == q@[i as int]@);
            return false;
        }
        assert(texts(p@).take(i + 1) =~= texts(p@).take(i as int).push(p@[i as int]@));
        assert(texts(q@).take(i + 1) =~= texts(q@).take(i as int).push(q@[i as int]@));
        i += 1;
    }
    true
}

/// Where moving the source with components `src` and name `src_name` (shown
/// in messages as `shown`) to `dest` puts it, or why the move is refused (see
/// [`move_outcome`]).
pub fn move_destination(
    src: &Vec<String>,
    src_name: Option<&str>,
    dest: &Vec<String>,
    dest_is_dir: bool,
    shown: &str,
) -> (res: Result<Vec<String>, String>)
    ensures
        match move_outcome(
            texts(src@),
            match src_name {
                Some(n) => Some(n@),
                None => None,
            },
            texts(dest@),
            dest_is_dir,
            shown@,
        ) {
            Ok(t) => res matches Ok(v) && texts(v@) == t,
            Err(m) => res matches Err(e) && e@ == m,
        },
{
    proof {
        reveal_strlit("Invalid source filename: ");
        reveal_strlit(": Source and destination are the same");
        reveal_strlit("Cannot move ");
        reveal_strlit(" to a subdirectory of itself");
        reveal_strlit("");
    }
    let mut target: Vec<String> = Vec::new();
    let mut i: usize = 0;
    while i < dest.len()
        invariant
            i <= dest.len(),
            texts(target@) == texts(dest@).take(i as int),
        decreases dest.len() - i,
    {
        let ghost before = texts(target@);
        target.push(to_owned_string(dest[i].as_str()));
        assert(texts(target@) =~= before.push(dest@[i as int]@));
        assert(texts(dest@).take(i + 1) =~= texts(dest@).take(i as int).push(dest@[i as int]@));
        i += 1;
    }
    assert(texts(dest@).take(dest.len() as int) =~= texts(dest@));
    if dest_is_dir {
        match src_name {
            Some(n) => {
                let ghost before = texts(target@);
                target.push(to_owned_string(n));
                assert(texts(target@) =~= before.push(n@));
            },
            None => {
                let s = concat3("Invalid source filename: ", shown, "");
                assert(s@ =~= "Invalid source filename: "@ + shown@);
                return Err(s);
            },
        }
    }
    if target.len() == src.len() && same_prefix(&target, src, src.len()) {
        proof {
            assert(texts(target@).take(src.len() as int) =~= texts(target@));
            assert(texts(src@).take(src.len() as int) =~= texts(src@));
        }
        return Err(concat3(shown, ": Source and destination are the same", ""));
    }
    proof {
        if texts(target@) == texts(src@) {
            assert(texts(target@).take(src.len() as int) =~= texts(target@));
            assert(texts(src@).take(src.len() as int) =~= texts(src@));
        }
    }
    if src.len() <= target.len() && same_prefix(&target, src, src.len()) {
        proof {
            assert(texts(src@).take(src.len() as int) =~= texts(src@));
        }
        return Err(concat3("Cannot move ", shown, " to a subdirectory of itself"));
    }
    proof {
        if starts_with(texts(target@), texts(src@)) {
            assert(texts(src@).take(src.len() as int) =~= texts(src@));
        }
    }
    Ok(target)
}

/// The arguments of `mv` after its flags: at least a source and a destination.
pub fn check_move_args(args: &Vec<String>) -> (res: Result<(), String>)
    ensures
        args@.len() == 0 ==> (res matches Err(e) && e@ == "Missing source and destination"@),
        args@.len() == 1 ==> (res matches Err(e) && e@ == "Missing destination"@),
        args@.len() >= 2 ==> res is Ok,
{
    if args.len() == 0 {
        Err(to_owned_string("Missing source and destination"))
    } else if args.len() < 2 {
        Err(to_owned_string("Missing destination"))
    } else {
        Ok(())
    }
}

/// A move is refused as going into a subdirectory of itself only when its
/// target lies under the source: the target starts with the source's
/// components and is not the source itself.
pub proof fn law_refused_only_below_itself(
    src: Seq<Seq<char>>,
    src_name: Option<Seq<char>>,
    dest: Seq<Seq<char>>,
    dest_is_dir: bool,
    shown: Seq<char>,
)
    ensures
        move_outcome(src, src_name, dest, dest_is_dir, shown) == Err::<Seq<Seq<char>>, Seq<char>>(
            "Cannot move "@ + shown + " to a subdirectory of itself"@,
        ) ==> (move_target(src_name, dest, dest_is_dir) matches Some(t) && starts_with(t, src) && t != src),
{
    reveal_strlit("Cannot move ");
    reveal_strlit(" to a subdirectory of itself");
    reveal_strlit("Invalid source filename: ");
    reveal_strlit(": Source and destination are the same");
    let into = "Cannot move "@ + shown + " to a subdirectory of itself"@;
    assert(into.len() == shown.len() + 40);
    assert(("Invalid source filename: "@ + shown).len() == shown.len() + 25);
    assert((shown + ": Source and destination are the same"@).len() == shown.len() + 37);
}

/// Moving a source into a directory that holds it further down (an ancestor
/// of its own directory) puts it in that directory under its own name.
pub proof fn law_move_up_into_ancestor(
    dest: Seq<Seq<char>>,
    between: Seq<Seq<char>>,
    name: Seq<char>,
    shown: Seq<char>,
)
    requires
        between.len() > 0,
    ensures
        move_outcome(dest + between + seq![name], Some(name), dest, true, shown) == Ok::<Seq<Seq<char>>, Seq<char>>(
            dest.push(name),
        ),
{
    let src = dest + between + seq![name];
    let t = dest.push(name);
    assert(t.len() < src.len());
    assert(t != src);
    assert(!starts_with(t, src));
}

/// Moving onto a path that is not a directory targets that path itself; a
/// source moved onto itself is refused, and one moved anywhere else, outside
/// itself, is allowed.
pub proof fn law_move_onto_path(src: Seq<Seq<char>>, src_name: Option<Seq<char>>, dest: Seq<Seq<char>>, shown: Seq<char>)
    ensures
        dest == src ==> move_outcome(src, src_name, dest, false, shown) == Err::<Seq<Seq<char>>, Seq<char>>(
            shown + ": Source and destination are the same"@,
        ),
        dest != src && !starts_with(dest, src) ==> move_outcome(src, src_name, dest, false, shown) == Ok::<
            Seq<Seq<char>>,
            Seq<char>,
        >(dest),
{
}

} // verus!
