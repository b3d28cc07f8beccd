//! Pipeline planning: turning the list of command strings into a chain of
//! stage plans (head stage without stdin, pipe stages fed by their
//! predecessor), and cleaning of process output lines.

use vstd::prelude::*;

verus! {

/// Marker for the two kinds of stage a pipeline holds.
pub trait StageKind {

}

/// The first stage: it receives no piped stdin.
pub struct Head;

impl StageKind for Head {

}

/// Any later stage: its stdin is fed from the previous stage's output.
pub struct Pipe;

impl StageKind for Pipe {

}

/// The capacity of the bounded channel between two adjacent stages; a slow
/// stage stalls its upstream writer instead of buffering unbounded output.
pub const STAGE_CHANNEL_CAPACITY: usize = 100;

/// Why a submission failed.
#[derive(Clone, Debug, PartialEq, Eq)]
pub enum PipelineError {
    /// The command list was empty.
    EmptyPipeline,
    /// The named command's text cannot be tokenized as shell words, or is
    /// empty after tokenization.
    InvalidCommand(String),
    /// The OS could not find or start the named executable (produced by
    /// the process layer, never by planning).
    SpawnFailed(String),
}

/// What `str::trim` removes: the name of its result on the text's
/// characters.
pub uninterp spec fn trimmed(s: Seq<char>) -> Seq<char>;

/// Relies on str::trim: returns the text with leading and trailing
/// whitespace removed, a subslice of the input.
#[verifier::external_body]
fn trim_str(s: &String) -> (r: String)
    ensures
        r@ == trimmed(s@),
        r@.len() <= s@.len(),
        s@.len() == 0 ==> r@.len() == 0,
{
    s.trim().to_string()
}

/// The name of shlex's word splitting: `None` exactly on erroneous input
/// (an unmatched quote or a trailing backslash).
pub uninterp spec fn shell_split(s: Seq<char>) -> Option<Seq<Seq<char>>>;

/// Relies on shlex::split: splits a command line into shell words,
/// `None` on erroneous input.
#[verifier::external_body]
fn shlex_split(s: &String) -> (r: Option<Vec<String>>)
    ensures
        match r {
            Some(v) => shell_split(s@) == Some(v.deep_view()),
            None => shell_split(s@) is None,
        },
{
    shlex::split(s.as_str())
}

/// The tokens of one command: its text trimmed, then split into shell
/// words.
pub open spec fn tokens_of(cmd: Seq<char>) -> Option<Seq<Seq<char>>> {
    shell_split(trimmed(cmd))
}

/// A command that can become a stage: its text tokenizes to at least one
/// word.
pub open spec fn command_ok(cmd: Seq<char>) -> bool {
    match tokens_of(cmd) {
        Some(t) => t.len() > 0,
        None => false,
    }
}

/// Tokenizes one command: the trimmed text split into shell words, the
/// first of which names the program. Fails with `InvalidCommand` (carrying
/// the text) exactly when the syntax is erroneous or no word remains.
pub fn parse_command(cmd: &String) -> (r: Result<Vec<String>, PipelineError>)
    ensures
        match r {
            Ok(v) => {
                &&& command_ok(cmd@)
                &&& Some(v.deep_view()) == tokens_of(cmd@)
                &&& v.deep_view().len() > 0
            },
            Err(e) => {
                &&& !command_ok(cmd@)
                &&& e matches PipelineError::InvalidCommand(c) && c@ == cmd@
            },
        },
{
    let t = trim_str(cmd);
    match shlex_split(&t) {
        None => Err(PipelineError::InvalidCommand(cmd.clone())),
        Some(v) => {
            if v.len() == 0 {
                proof {
                    assert(tokens_of(cmd@) matches Some(w) && w.len() == 0);
                }
                Err(PipelineError::InvalidCommand(cmd.clone()))
            } else {
                Ok(v)
            }
        },
    }
}

/// The plan for one OS process of the pipeline: its program and arguments
/// as tokenized words, and whether its stdin is wired to the previous
/// stage.
#[derive(Clone, Debug, PartialEq, Eq)]
pub struct StagePlan {
    pub argv: Vec<String>,
    pub use_stdin: bool,
}

/// Whether a whole submission can be planned: at least one command, each
/// tokenizing to at least one word.
pub open spec fn plan_ok(cmds: Seq<Seq<char>>) -> bool {
    cmds.len() > 0 && forall|i: int| 0 <= i < cmds.len() ==> command_ok(#[trigger] cmds[i])
}

/// Plans the whole pipeline: one stage per command, in order; the first
/// stage takes no stdin, every later one is fed by its predecessor.
/// Succeeds exactly when the list is non-empty and every command
/// tokenizes; otherwise reports the empty list, or the first command that
/// does not tokenize, and plans nothing.
pub fn plan_pipeline(cmds: &Vec<String>) -> (r: Result<Vec<StagePlan>, PipelineError>)
    ensures
        match r {
            Ok(plan) => {
                &&& plan_ok(cmds.deep_view())
                &&& plan@.len() == cmds@.len()
                &&& forall|i: int|
                    0 <= i < plan@.len() ==> {
                        &&& Some((#[trigger] plan@[i]).argv.deep_view()) == tokens_of(
                            cmds.deep_view()[i],
                        )
                        &&& plan@[i].argv.deep_view().len() > 0
                        &&& plan@[i].use_stdin == (i > 0)
                    }
            },
            Err(e) => {
                &&& !plan_ok(cmds.deep_view())
                &&& match e {
                    PipelineError::EmptyPipeline => cmds@.len() == 0,
                    PipelineError::InvalidCommand(c) => exists|i: int|
                        {
                            &&& 0 <= i < cmds@.len()
                            &&& !command_ok(#[trigger] cmds.deep_view()[i])
                            &&& c@ == cmds.deep_view()[i]
                            &&& forall|j: int| 0 <= j < i ==> command_ok(#[trigger] cmds.deep_view()[j])
                        },
                    PipelineError::SpawnFailed(_) => false,
                }
            },
        },
{
    if cmds.len() == 0 {
        return Err(PipelineError::EmptyPipeline);
    }
    let mut plan: Vec<StagePlan> = Vec::new();
    let mut i: usize = 0;
    #[verifier::loop_isolation(false)]
    while i < cmds.len()
        invariant
            i <= cmds@.len(),
            plan@.len() == i,
            forall|j: int| 0 <= j < i ==> command_ok(#[trigger] cmds.deep_view()[j]),
            forall|j: int|
                0 <= j < i ==> {
                    &&& Some((#[trigger] plan@[j]).argv.deep_view()) == tokens_of(
                        cmds.deep_view()[j],
                    )
                    &&& plan@[j].argv.deep_view().len() > 0
                    &&& plan@[j].use_stdin == (j > 0)
                },
        decreases cmds@.len() - i,
    {
        match parse_command(&cmds[i]) {
            Ok(argv) => {
                plan.push(StagePlan { argv, use_stdin: i > 0 });
            },
            Err(e) => {
                proof {
                    assert(cmds.deep_view()[i as int] == cmds@[i as int]@);
                    assert(!command_ok(cmds.deep_view()[i as int]));
                    assert(!plan_ok(cmds.deep_view()));
                }
                return Err(e);
            },
        }
        i = i + 1;
    }
    Ok(plan)
}

/// The name of strip-ansi-escapes' filtering: the bytes of the text with
/// ANSI escape sequences removed.
pub uninterp spec fn ansi_stripped(s: Seq<char>) -> Seq<u8>;

/// Relies on strip_ansi_escapes::strip: removes ANSI escape sequences from
/// the text's bytes.
#[verifier::external_body]
fn strip_ansi(s: &String) -> (r: Vec<u8>)
    ensures
        r@ == ansi_stripped(s@),
{
    strip_ansi_escapes::strip(s.as_str())
}

/// The name of std's lossy UTF-8 decoding: invalid sequences are replaced,
/// valid ones decoded.
pub uninterp spec fn utf8_lossy(b: Seq<u8>) -> Seq<char>;

/// Relies on String::from_utf8_lossy: decodes the bytes as UTF-8,
/// substituting the replacement character for invalid sequences.
#[verifier::external_body]
fn decode_lossy(b: &Vec<u8>) -> (r: String)
    ensures
        r@ == utf8_lossy(b@),
{
    String::from_utf8_lossy(b.as_slice()).into_owned()
}

/// Whether a submission keeps this command text: true exactly when its
/// trimmed form is non-empty.
pub fn keeps_when_trimmed(s: &String) -> (r: bool)
    ensures
        r == (trimmed(s@).len() != 0),
{
    let t = trim_str(s);
    !t.as_str().is_empty()
}

/// Cleans one line of process output for display: ANSI escape sequences
/// stripped, then the remaining bytes decoded lossily.
pub fn clean_line(line: &String) -> (r: String)
    ensures
        r@ == utf8_lossy(ansi_stripped(line@)),
{
    let stripped = strip_ansi(line);
    decode_lossy(&stripped)
}

} // verus!
