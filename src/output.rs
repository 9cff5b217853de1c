//! The session's result, printed when the browser closes.
use vstd::prelude::*;
use vstd::string::StringExecFns;

verus! {

/// The result of a session: the directory it started in, the command chosen
/// (`no-op` until one is) and the paths it applies to.
#[derive(Debug)]
pub struct Output {
    pub cwd: String,
    pub command: String,
    pub items: Vec<String>,
}

/// The texts of a sequence of strings.
pub open spec fn texts(s: Seq<String>) -> Seq<Seq<char>> {
    s.map_values(|t: String| t@)
}

/// The texts joined by single spaces.
pub open spec fn joined(s: Seq<Seq<char>>) -> Seq<char>
    decreases s.len(),
{
    if s.len() == 0 {
        seq![]
    } else if s.len() == 1 {
        s[0]
    } else {
        joined(s.drop_last()) + seq![' '] + s.last()
    }
}

/// The printed line: directory, command and the space-joined items, separated
/// by single spaces.
pub open spec fn output_line(cwd: Seq<char>, command: Seq<char>, items: Seq<Seq<char>>) -> Seq<char> {
    cwd + seq![' '] + command + seq![' '] + joined(items)
}

/// The command recorded while none was chosen.
pub open spec fn no_op() -> Seq<char> {
    seq!['n', 'o', '-', 'o', 'p']
}

impl Output {
    /// A result for a session in `cwd` with no command and no items.
    pub fn new(cwd: String) -> (r: Output)
        ensures
            r.cwd@ == cwd@,
            r.command@ == no_op(),
            r.items@.len() == 0,
    {
        let command = String::from_str("no-op");
        proof {
            reveal_strlit("no-op");
        }
        Output { cwd, command, items: Vec::new() }
    }

    /// The line printed for this result.
    pub fn to_string(&self) -> (r: String)
        ensures
            r@ == output_line(self.cwd@, self.command@, texts(self.items@)),
    {
        let ghost head = self.cwd@ + seq![' '] + self.command@ + seq![' '];
        let ghost all = texts(self.items@);
        let mut r = self.cwd.clone();
        r.push(' ');
        r.append(self.command.as_str());
        r.push(' ');
        for i in 0..self.items.len()
            invariant
                all == texts(self.items@),
                r@ == head + joined(all.take(i as int)),
        {
            proof {
                assert(all.take(i + 1).drop_last() =~= all.take(i as int));
                assert(all.take(i + 1).last() == all[i as int]);
            }
            if i > 0 {
                r.push(' ');
            } else {
                assert(joined(all.take(1)) == all[0]);
                assert(joined(all.take(0)) =~= Seq::<char>::empty());
            }
            r.append(self.items[i].as_str());
        }
        proof {
            assert(all.take(all.len() as int) =~= all);
        }
        r
    }
}

} // verus!
