//! What a finished session hands back, and how it leaves the program.

use vstd::prelude::*;

verus! {

/// What a session is asked to hand back.
#[derive(Debug, Clone, Copy, PartialEq, Eq, Structural)]
pub enum Emit {
    /// The lines shown, in the mode they are shown in.
    Lines,
    /// The files listed, one path to a line.
    Files,
    /// The directory that is shown.
    Cwd,
}

/// What a session hands back.
#[derive(Debug, Clone, PartialEq, Eq)]
pub enum Exit {
    /// Lines to write and one line that sums them up. Lines are bytes: the name
    /// of a file need not be UTF-8, and is to lead to the file again.
    Emit {
        lines: Vec<Vec<u8>>,
        summary: String,
        /// How many inputs could not be read.
        failed: usize,
    },
    /// Nothing.
    Silent,
}

/// Lines of bytes.
pub open spec fn line_bytes(lines: Seq<Vec<u8>>) -> Seq<Seq<u8>> {
    Seq::new(lines.len(), |i: int| lines[i]@)
}

/// Lines one behind the other, a line feed behind each.
pub open spec fn terminated(lines: Seq<Seq<u8>>) -> Seq<u8>
    decreases lines.len(),
{
    if lines.len() == 0 {
        Seq::empty()
    } else {
        terminated(lines.drop_last()) + lines.last().push(10)
    }
}

/// What is said on the error stream once the lines were written, or were not.
pub open spec fn told(summary: Seq<char>, outcome: Result<(), Seq<char>>) -> Seq<char> {
    match outcome {
        Ok(()) => summary + "\n"@,
        Err(why) => "recon: could not write the output: "@ + why + "\n"@,
    }
}

/// What came of writing, with the reason as a text.
pub open spec fn outcome_text(outcome: Result<(), String>) -> Result<(), Seq<char>> {
    match outcome {
        Ok(()) => Ok(()),
        Err(why) => Err(why@),
    }
}

/// What is said on the error stream once the lines were written, or were not,
/// and whether the program succeeds: it does where they were.
pub fn written(summary: &str, outcome: &Result<(), String>) -> (said: (String, bool))
    ensures
        said.0@ == told(summary@, outcome_text(*outcome)),
        said.1 == (outcome is Ok),
{
    match outcome {
        Ok(()) => {
            let mut text = summary.to_owned();
            text.append("\n");
            (text, true)
        },
        Err(why) => {
            let mut text = "recon: could not write the output: ".to_owned();
            text.append(why.as_str());
            text.append("\n");
            (text, false)
        },
    }
}

/// Lines one behind the other, a line feed behind each.
fn terminate(lines: &Vec<Vec<u8>>) -> (bytes: Vec<u8>)
    ensures
        bytes@ == terminated(line_bytes(lines@)),
{
    let ghost all = line_bytes(lines@);
    let mut bytes: Vec<u8> = Vec::new();
    let mut i: usize = 0;
    assert(bytes@ =~= terminated(all.take(0)));
    while i < lines.len()
        invariant
            all == line_bytes(lines@),
            i <= lines@.len(),
            bytes@ == terminated(all.take(i as int)),
        decreases lines@.len() - i,
    {
        proof {
            assert(all.take(i + 1).drop_last() =~= all.take(i as int));
            assert(all.take(i + 1).last() == lines@[i as int]@);
        }
        let ghost before = bytes@;
        let mut line = crate::path::copy_part(&lines[i]);
        bytes.append(&mut line);
        bytes.push(10);
        assert(bytes@ =~= before + lines@[i as int]@.push(10));
        i += 1;
    }
    assert(all.take(i as int) =~= all);
    bytes
}

impl Exit {
    /// Hands the lines, and nothing else, to `write`, and says what to say on the
    /// error stream and whether the program succeeds. A session that was asked
    /// for something and hands nothing back writes nothing and fails, so that a
    /// caller can tell that from an empty result.
    pub fn deliver<W: FnOnce(Vec<u8>) -> Result<(), String>>(
        self,
        requested: Option<Emit>,
        write: W,
    ) -> (said: (String, bool))
        requires
            self matches Exit::Emit { lines, .. } ==> forall|bytes: Vec<u8>|
                bytes@ == terminated(line_bytes(lines@)) ==> #[trigger] call_requires(
                    write,
                    (bytes,),
                ),
        ensures
            match self {
                Exit::Emit { lines, summary, failed } => exists|
                    bytes: Vec<u8>,
                    outcome: Result<(), String>,
                |
                    {
                        &&& bytes@ == terminated(line_bytes(lines@))
                        &&& #[trigger] call_ensures(write, (bytes,), outcome)
                        &&& said.0@ == told(summary@, outcome_text(outcome))
                        &&& said.1 == (outcome is Ok)
                    },
                Exit::Silent => said.0@.len() == 0 && said.1 == (requested is None),
            },
    {
        match self {
            Exit::Emit { lines, summary, failed: _ } => {
                let bytes = terminate(&lines);
                let ghost asked = bytes;
                let outcome = write(bytes);
                assert(call_ensures(write, (asked,), outcome));
                written(summary.as_str(), &outcome)
            },
            Exit::Silent => (String::new(), requested.is_none()),
        }
    }
}

} // verus!
