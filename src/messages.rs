//! The text of the messages shown to the user.

use vstd::prelude::*;

verus! {

/// The kinds of message that carry a label.
#[derive(Clone, Copy, Debug, PartialEq, Eq, Structural)]
pub enum StyledMessages {
    Error,
}

/// The character for a digit below ten.
pub open spec fn digit_char(d: nat) -> char {
    if d == 0 {
        '0'
    } else if d == 1 {
        '1'
    } else if d == 2 {
        '2'
    } else if d == 3 {
        '3'
    } else if d == 4 {
        '4'
    } else if d == 5 {
        '5'
    } else if d == 6 {
        '6'
    } else if d == 7 {
        '7'
    } else if d == 8 {
        '8'
    } else {
        '9'
    }
}

/// The decimal digits of `n`, without leading zeros.
pub open spec fn decimal(n: nat) -> Seq<char>
    decreases n,
{
    if n < 10 {
        seq![digit_char(n)]
    } else {
        decimal(n / 10).push(digit_char(n % 10))
    }
}

/// Eight spaces: the indentation of the lines after a headline.
pub open spec fn indent() -> Seq<char> {
    seq![' ', ' ', ' ', ' ', ' ', ' ', ' ', ' ']
}

/// An error report: the label and the headline on the first line, and each
/// further line indented; every line ends with `'\n'`.
pub open spec fn report(label: Seq<char>, lines: Seq<Seq<char>>) -> Seq<char> {
    label + seq![' '] + lines[0] + seq!['\n'] + lines.drop_first().map_values(
        |l: Seq<char>| indent() + l + seq!['\n'],
    ).flatten()
}

fn digit_text(d: usize) -> (s: String)
    requires
        d < 10,
    ensures
        s@ == seq![digit_char(d as nat)],
{
    let digits = "0123456789";
    proof {
        reveal_strlit("0123456789");
    }
    let s = digits.substring_char(d, d + 1).to_owned();
    assert(s@ =~= seq![digits@[d as int]]);
    s
}

/// The decimal form of `n`.
pub fn decimal_text(n: usize) -> (s: String)
    ensures
        s@ == decimal(n as nat),
{
    let mut m: usize = n;
    let mut s = String::new();
    loop
        invariant
            m <= n,
            decimal(n as nat) == decimal(m as nat) + s@,
        decreases m,
    {
        let d = digit_text(m % 10);
        proof {
            if m >= 10 {
                assert(decimal(m as nat) == decimal((m / 10) as nat).push(digit_char((m % 10) as nat)));
            }
        }
        assert(decimal(m as nat) + s@ =~= (if m >= 10 {
            decimal((m / 10) as nat)
        } else {
            Seq::empty()
        }) + (d@ + s@));
        s = d.concat(s.as_str());
        m = m / 10;
        if m == 0 {
            assert(decimal(n as nat) =~= s@);
            return s;
        }
    }
}

impl StyledMessages {
    /// The word that opens a message of this kind.
    pub fn label(&self) -> (s: String)
        ensures
            s@ == "error:"@,
    {
        match self {
            StyledMessages::Error => "error:".to_owned(),
        }
    }

    /// The lines that explain why `line_num` names no entry of a registry
    /// of `length` entries: the registry is empty, the position is below 1,
    /// or it lies past the last entry.
    pub fn length_error(line_num: usize, length: usize) -> (lines: Vec<String>)
        requires
            line_num < 1 || line_num > length,
        ensures
            length == 0 ==> lines@.len() == 2 && lines@[0]@
                == "There are currently no command in the config file."@ && lines@[1]@
                == "Use 'upman add <command>' to add a command"@,
            length > 0 && line_num < 1 ==> lines@.len() == 2 && lines@[0]@ == "Command number '"@
                + decimal(line_num as nat) + "' is out of bounds of config file"@ && lines@[1]@
                == "Command numbers start at '1'"@,
            length > 0 && line_num > length ==> lines@.len() == 3 && lines@[0]@
                == "Command number '"@ + decimal(line_num as nat) + "' is out of bounds of config file"@
                && lines@[1]@ == "There are currently only "@ + decimal(length as nat)
                + " command in the config file"@ && lines@[2]@ == "Command numbers start at '1'"@,
    {
        let mut lines: Vec<String> = Vec::new();
        if length == 0 {
            lines.push("There are currently no command in the config file.".to_owned());
            lines.push("Use 'upman add <command>' to add a command".to_owned());
        } else {
            let headline = "Command number '".to_owned().concat(
                decimal_text(line_num).as_str(),
            ).concat("' is out of bounds of config file");
            lines.push(headline);
            if line_num > length {
                let count = "There are currently only ".to_owned().concat(
                    decimal_text(length).as_str(),
                ).concat(" command in the config file");
                lines.push(count);
            }
            lines.push("Command numbers start at '1'".to_owned());
        }
        lines
    }
}

/// The report of an error: `label` and the first line, then the other lines
/// indented, each line ended by `'\n'`.
pub fn error_report(label: &str, lines: &Vec<String>) -> (s: String)
    requires
        lines@.len() >= 1,
    ensures
        s@ == report(label@, lines@.map_values(|l: String| l@)),
{
    let ghost ls = lines@.map_values(|l: String| l@);
    let ghost g = |l: Seq<char>| indent() + l + seq!['\n'];
    let space = " ";
    let newline = "\n";
    let pad = "        ";
    proof {
        reveal_strlit(" ");
        reveal_strlit("\n");
        reveal_strlit("        ");
    }
    assert(pad@ =~= indent());
    assert(newline@ =~= seq!['\n']);
    let mut s = label.to_owned().concat(space).concat(lines[0].as_str()).concat(newline);
    let ghost head = s@;
    assert(ls.drop_first().take(0).map_values(g) =~= Seq::<Seq<char>>::empty());
    assert(head =~= head + ls.drop_first().take(0).map_values(g).flatten());
    let mut k: usize = 1;
    while k < lines.len()
        invariant
            1 <= k <= lines@.len(),
            ls == lines@.map_values(|l: String| l@),
            g == (|l: Seq<char>| indent() + l + seq!['\n']),
            head == label@ + seq![' '] + ls[0] + seq!['\n'],
            pad@ == indent(),
            newline@ == seq!['\n'],
            s@ == head + ls.drop_first().take(k - 1).map_values(g).flatten(),
        decreases lines.len() - k,
    {
        let ghost before = ls.drop_first().take(k - 1).map_values(g);
        assert(ls.drop_first().take(k as int).map_values(g) =~= before.push(g(ls[k as int])));
        proof {
            before.lemma_flatten_push(g(ls[k as int]));
        }
        s = s.concat(pad).concat(lines[k].as_str()).concat(newline);
        assert(s@ =~= head + before.flatten() + g(ls[k as int]));
        k = k + 1;
    }
    assert(ls.drop_first().take(k - 1) =~= ls.drop_first());
    assert(head =~= label@ + seq![' '] + ls[0] + seq!['\n']);
    s
}

} // verus!
