//! `cd`, `pushd` and `popd`: where the current directory goes, and the stack
//! of directories that `pushd` leaves behind.
use vstd::prelude::*;
use crate::expand::strings_view;
use crate::flags::{is_insertion, join_space, CommandFlags, FlagSpec};
use crate::text::{chars_of, string_of, to_owned_string, vec_extend};

verus! {

/// The directory commands: the stack of directories, and the flags.
pub struct ChangeDir {
    stack: Vec<String>,
    flags: CommandFlags,
}

/// Is `name` one of the directory commands?
pub open spec fn is_dir_command(name: Seq<char>) -> bool {
    name == "cd"@ || name == "chdir"@ || name == "pushd"@ || name == "popd"@
}

/// A result of text, by its characters.
pub open spec fn text_result(r: Result<String, String>) -> Result<Seq<char>, Seq<char>> {
    match r {
        Ok(s) => Ok(s@),
        Err(e) => Err(e@),
    }
}

/// What command `name` does to the stack, and the directory it goes to or
/// the error it gives.
pub open spec fn dir_step(
    name: Seq<char>,
    args: Seq<Seq<char>>,
    home: Seq<char>,
    current: Seq<char>,
    stack: Seq<Seq<char>>,
) -> (Seq<Seq<char>>, Result<Seq<char>, Seq<char>>) {
    if name == "pushd"@ {
        if args.len() == 0 {
            (stack, Err("pushd: no directory specified"@))
        } else {
            (stack.push(current), Ok(join_space(args)))
        }
    } else if name == "popd"@ {
        if stack.len() == 0 {
            (stack, Err("popd: directory stack empty"@))
        } else {
            (stack.drop_last(), Ok(stack.last()))
        }
    } else if args.len() == 0 {
        (stack, Ok(home))
    } else {
        (stack, Ok(join_space(args)))
    }
}

/// `popd` after a `pushd` that went somewhere takes the stack back to what
/// it was and goes back to the directory `pushd` was given from.
pub proof fn lemma_pushd_then_popd(
    args: Seq<Seq<char>>,
    home: Seq<char>,
    current: Seq<char>,
    later: Seq<char>,
    stack: Seq<Seq<char>>,
)
    requires
        args.len() > 0,
    ensures
        dir_step("pushd"@, args, home, current, stack).1 == Ok::<Seq<char>, Seq<char>>(join_space(args)),
        dir_step("popd"@, Seq::empty(), home, later, dir_step("pushd"@, args, home, current, stack).0).0 == stack,
        dir_step("popd"@, Seq::empty(), home, later, dir_step("pushd"@, args, home, current, stack).0).1
            == Ok::<Seq<char>, Seq<char>>(current),
{
    reveal_strlit("pushd");
    reveal_strlit("popd");
    assert("pushd"@.len() == 5);
    assert("popd"@.len() == 4);
    assert(stack.push(current).drop_last() =~= stack);
}

/// The words joined by spaces.
fn join_args(v: &Vec<String>) -> (res: String)
    ensures
        res@ == join_space(strings_view(v@)),
{
    let mut out: Vec<char> = Vec::new();
    let mut i: usize = 0;
    while i < v.len()
        invariant
            i <= v.len(),
            out@ == join_space(strings_view(v@).take(i as int)),
        decreases v.len() - i,
    {
        let ghost w = strings_view(v@);
        proof {
            assert(w.take(i + 1).drop_last() =~= w.take(i as int));
            assert(w.take(i + 1).last() == v@[i as int]@);
        }
        if i > 0 {
            out.push(' ');
        }
        let c = chars_of(v[i].as_str());
        vec_extend(&mut out, &c);
        proof {
            if i == 0 {
                assert(out@ =~= w.take(1)[0]);
            }
        }
        i += 1;
    }
    proof {
        assert(strings_view(v@).take(v.len() as int) =~= strings_view(v@));
    }
    string_of(&out)
}

impl ChangeDir {
    /// The directories that `pushd` left, the last on top.
    pub closed spec fn stack_view(&self) -> Seq<Seq<char>> {
        strings_view(self.stack@)
    }

    /// The flags the commands take.
    pub closed spec fn command_flags(&self) -> CommandFlags {
        self.flags
    }

    /// An empty stack, and the flags `--help` and `--follow-links`.
    pub fn new() -> (res: Self)
        ensures
            res.command_flags().wf(),
            res.command_flags().spec_values() == Map::<Seq<char>, Seq<char>>::empty(),
            is_insertion(
                seq![
                    FlagSpec {
                        short: Some('?'),
                        long: "help"@,
                        help: "Display this help message"@,
                        takes_value: false,
                        default_value: None,
                    },
                ],
                res.command_flags().spec_flags(),
                FlagSpec {
                    short: Some('L'),
                    long: "follow-links"@,
                    help: "Follow symbolic links"@,
                    takes_value: false,
                    default_value: None,
                },
            ),
            res.stack_view() == Seq::<Seq<char>>::empty(),
    {
        let c = ChangeDir { stack: Vec::new(), flags: CommandFlags::with_follow_links() };
        proof {
            assert(c.stack_view() =~= Seq::<Seq<char>>::empty());
        }
        c
    }

    /// The flags, to parse a command line with.
    pub fn flags(&self) -> (res: &CommandFlags)
        ensures
            *res == self.command_flags(),
    {
        &self.flags
    }

    /// The help of command `name`.
    pub fn help_text(&self, name: &str) -> (res: String)
        requires
            self.command_flags().wf(),
            is_dir_command(name@),
        ensures
            name@ == "pushd"@ ==> res@ == "Usage: pushd <DIR>\nPush the current directory onto the stack and change to DIR.\n\nOptions:\n"@
                + crate::flags::help_text(self.command_flags().spec_flags()),
            name@ == "popd"@ ==> res@ == "Usage: popd\nPop the top directory from the stack and change to it.\n\nOptions:\n"@
                + crate::flags::help_text(self.command_flags().spec_flags()),
            name@ != "pushd"@ && name@ != "popd"@ ==> res@ == "Usage: "@ + name@
                + " [DIR]\nChange the current directory to DIR.\n\nOptions:\n"@ + crate::flags::help_text(
                self.command_flags().spec_flags(),
            ),
    {
        proof {
            reveal_strlit("pushd");
            reveal_strlit("popd");
            assert("pushd"@.len() == 5);
            assert("popd"@.len() == 4);
        }
        let mut t = if crate::text::str_eq(name, "pushd") {
            to_owned_string("Usage: pushd <DIR>\nPush the current directory onto the stack and change to DIR.\n\nOptions:\n")
        } else if crate::text::str_eq(name, "popd") {
            to_owned_string("Usage: popd\nPop the top directory from the stack and change to it.\n\nOptions:\n")
        } else {
            crate::text::concat3("Usage: ", name, " [DIR]\nChange the current directory to DIR.\n\nOptions:\n")
        };
        let h = self.flags.help();
        crate::text::push_str(&mut t, h.as_str());
        t
    }

    /// The directory that command `name` goes to, given its arguments `args`
    /// (the flags taken out), the value of `HOME` (as text) and the current
    /// directory: `cd` goes to the arguments joined by spaces, or home without
    /// any; `pushd` to the arguments, after putting the current directory on
    /// the stack; `popd` to the directory it takes off the stack.
    pub fn target(&mut self, name: &str, args: &Vec<String>, home: &str, current: &str) -> (res: Result<String, String>)
        requires
            is_dir_command(name@),
        ensures
            final(self).command_flags() == old(self).command_flags(),
            final(self).stack_view() == dir_step(name@, strings_view(args@), home@, current@, old(self).stack_view()).0,
            text_result(res) == dir_step(name@, strings_view(args@), home@, current@, old(self).stack_view()).1,
    {
        if crate::text::str_eq(name, "pushd") {
            if args.len() == 0 {
                return Err(to_owned_string("pushd: no directory specified"));
            }
            let ghost before = self.stack_view();
            self.stack.push(to_owned_string(current));
            proof {
                assert(self.stack_view() =~= before.push(current@));
            }
            Ok(join_args(args))
        } else if crate::text::str_eq(name, "popd") {
            match self.stack.pop() {
                Some(d) => {
                    proof {
                        assert(self.stack_view() =~= old(self).stack_view().drop_last());
                    }
                    Ok(d)
                },
                None => Err(to_owned_string("popd: directory stack empty")),
            }
        } else if args.len() == 0 {
            Ok(to_owned_string(home))
        } else {
            Ok(join_args(args))
        }
    }
}

} // verus!
