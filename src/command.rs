//! Turning the text of an entry into a program and its arguments.

use vstd::prelude::*;

use crate::codec::{decode, decoded};
use crate::text::{blank, is_blank, split_at_char, split_on, views};

verus! {

/// Builds a value of type `T` from a text.
pub trait FromStr<T> {
    fn from_str(string: &str) -> T;
}

/// A command ready to be launched: the program to run and its arguments,
/// with the text it was read from.
pub struct Command {
    pub full_command: String,
    pub program: String,
    pub args: Vec<String>,
}

/// The words of a command text: the pieces between single spaces.
pub open spec fn words(text: Seq<char>) -> Seq<Seq<char>> {
    split_on(text, ' ')
}

/// The program named by a command text: its first word.
pub open spec fn program_of(text: Seq<char>) -> Seq<char> {
    words(text)[0]
}

/// The arguments of a command text: the words after the first that are not
/// blank, in order.
pub open spec fn args_of(text: Seq<char>) -> Seq<Seq<char>> {
    words(text).drop_first().filter(|w: Seq<char>| !blank(w))
}

impl Command {
    /// The view of a command: its text, program and arguments.
    pub open spec fn parts(&self) -> (Seq<char>, Seq<char>, Seq<Seq<char>>) {
        (self.full_command@, self.program@, views(self.args@))
    }

    /// The command for an entry's text, or `None` when the text is blank.
    pub fn prepare(text: &str) -> (r: Option<Command>)
        ensures
            match r {
                Some(c) => !blank(text@) && c.parts() == (text@, program_of(text@), args_of(
                    text@,
                )),
                None => blank(text@),
            },
    {
        if is_blank(text) {
            None
        } else {
            Some(<Command as FromStr<Command>>::from_str(text))
        }
    }

    /// The command stored in a line of the registry file, or `None` when the
    /// line holds no entry or a blank one.
    pub fn from(line: &str) -> (r: Option<Command>)
        ensures
            match r {
                Some(c) => exists|t: Seq<char>|
                    decoded(line@) == Some(t) && !blank(t) && #[trigger] c.parts() == (
                        t,
                        program_of(t),
                        args_of(t),
                    ),
                None => decoded(line@) is None || blank(decoded(line@)->0),
            },
    {
        match decode(line) {
            Some(text) => Command::prepare(text.as_str()),
            None => None,
        }
    }
}

impl FromStr<Command> for Command {
    /// Splits `string` at single spaces: the first word names the program,
    /// and every later word that is not blank is an argument.
    fn from_str(string: &str) -> (c: Command)
        ensures
            c.parts() == (string@, program_of(string@), args_of(string@)),
    {
        let pieces = split_at_char(string, ' ');
        let ghost ws = words(string@);
        let ghost keep = |w: Seq<char>| !blank(w);
        proof {
            crate::text::lemma_split_on_nonempty(string@, ' ');
        }
        let program = pieces[0].clone();
        let mut args: Vec<String> = Vec::new();
        let mut k: usize = 1;
        assert(ws.subrange(1, 1).filter(keep) =~= Seq::empty()) by {
            reveal(Seq::filter);
        }
        assert(views(args@) =~= Seq::empty());
        while k < pieces.len()
            invariant
                1 <= k <= pieces.len(),
                views(pieces@) == ws,
                keep == (|w: Seq<char>| !blank(w)),
                views(args@) == ws.subrange(1, k as int).filter(keep),
            decreases pieces.len() - k,
        {
            let piece = &pieces[k];
            assert(piece@ == ws[k as int]);
            let ghost before = ws.subrange(1, k as int);
            assert(ws.subrange(1, k + 1) =~= before.push(ws[k as int]));
            proof {
                before.lemma_filter_push(ws[k as int], keep);
            }
            assert(keep(ws[k as int]) == !blank(piece@));
            if !is_blank(piece.as_str()) {
                let a = piece.clone();
                args.push(a);
                assert(views(args@) =~= views(args@.drop_last()).push(a@));
            }
            k = k + 1;
        }
        assert(ws.subrange(1, ws.len() as int) =~= ws.drop_first());
        Command { full_command: string.to_owned(), program, args }
    }
}

} // verus!
