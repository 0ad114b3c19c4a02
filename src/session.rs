use vstd::prelude::*;

verus! {

/// What `str::trim` returns for a text.
pub uninterp spec fn trim_of(s: Seq<char>) -> Seq<char>;

/// What `str::to_lowercase` returns for a text.
pub uninterp spec fn lower_of(s: Seq<char>) -> Seq<char>;

/// Relies on `str::trim`: the text without its leading and trailing
/// whitespace, which depends on the text alone.
#[verifier::external_body]
fn trim_text(s: &str) -> (r: &str)
    ensures
        r@ == trim_of(s@),
{
    s.trim()
}

/// Relies on `str::to_lowercase`: the lowercase form of a text, which
/// depends on the text alone.
#[verifier::external_body]
fn lowercase(s: &str) -> (r: String)
    ensures
        r@ == lower_of(s@),
{
    s.to_lowercase()
}

/// What to do with a line of input.
#[derive(Debug)]
pub enum Command {
    /// End the session.
    Quit,
    /// Evaluate the trimmed line.
    Evaluate(String),
}

pub open spec fn quit_word() -> Seq<char> {
    seq!['q', 'u', 'i', 't']
}

/// Whether a lowercased line asks to end the session.
pub fn is_quit_word(lowered: &str) -> (r: bool)
    ensures
        r == (lowered@ == quit_word()),
{
    let word = String::from_str("quit");
    proof {
        reveal_strlit("quit");
    }
    assert("quit"@ =~= quit_word());
    let mine = String::from_str(lowered);
    mine == word
}

/// Decides what a line of input asks for: a line that reads `quit` in any
/// letter case, once trimmed, ends the session; any other line is evaluated,
/// trimmed.
pub fn classify_line(line: &str) -> (r: Command)
    ensures
        lower_of(trim_of(line@)) == quit_word() ==> r is Quit,
        lower_of(trim_of(line@)) != quit_word() ==> r is Evaluate && r->Evaluate_0@ == trim_of(
            line@,
        ),
{
    let trimmed = trim_text(line);
    let lowered = lowercase(trimmed);
    if is_quit_word(lowered.as_str()) {
        Command::Quit
    } else {
        Command::Evaluate(String::from_str(trimmed))
    }
}

} // verus!
