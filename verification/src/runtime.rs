//! Run-time failures of the execution engine and the decisions it takes
//! between child processes.
//!
//! The engine itself spawns processes outside this crate; after every child
//! exits it hands the observed exit code to [`command_outcome`] or
//! [`backtick_outcome`], which decide whether the run carries on, and with
//! which message and status it stops otherwise.

use vstd::prelude::*;

use crate::text::{dec_spec, dec_string};

verus! {

/// A recipe line's command exited with a nonzero code.
#[derive(Debug)]
pub struct RecipeFailure {
    pub recipe: String,
    pub line: u64,
    pub code: u64,
}

/// A backtick expression's command exited with a nonzero code.
#[derive(Debug)]
pub struct BacktickFailure {
    pub code: u64,
}

/// The message a failed recipe line renders to.
pub open spec fn recipe_failure_spec(recipe: Seq<char>, line: int, code: int) -> Seq<char> {
    "Recipe `"@ + recipe + "` failed on line "@ + dec_spec(line) + " with exit code "@ + dec_spec(
        code,
    )
}

/// The message a failed backtick renders to.
pub open spec fn backtick_failure_spec(code: int) -> Seq<char> {
    "Backtick failed with exit code "@ + dec_spec(code)
}

/// The decision after one line of the recipe named `recipe` has run: the
/// run carries on exactly when the command exited with zero, and otherwise
/// stops with the command's own code and no further line runs.
pub fn command_outcome(recipe: &str, line: u64, code: u64) -> (r: Result<(), RecipeFailure>)
    ensures
        r is Ok <==> code == 0,
        r is Err ==> {
            &&& r->Err_0.recipe@ == recipe@
            &&& r->Err_0.line == line
            &&& r->Err_0.code == code
        },
{
    if code == 0 {
        Ok(())
    } else {
        Err(RecipeFailure { recipe: String::from_str(recipe), line, code })
    }
}

/// The decision after a backtick's command has run: its captured output is
/// used exactly when the command exited with zero, and otherwise the run
/// stops with the command's own code.
pub fn backtick_outcome(code: u64) -> (r: Result<(), BacktickFailure>)
    ensures
        r is Ok <==> code == 0,
        r is Err ==> r->Err_0.code == code,
{
    if code == 0 {
        Ok(())
    } else {
        Err(BacktickFailure { code })
    }
}

/// The captured standard output of a backtick, stripped of exactly one
/// trailing newline and nothing else.
pub open spec fn backtick_value_spec(captured: Seq<char>) -> Seq<char> {
    if captured.len() > 0 && captured.last() == '\n' {
        captured.drop_last()
    } else {
        captured
    }
}

/// Strips exactly one trailing newline from a backtick's captured output.
pub fn backtick_value(captured: &str) -> (r: String)
    ensures
        r@ == backtick_value_spec(captured@),
{
    let n = captured.unicode_len();
    if n > 0 && captured.get_char(n - 1) == '\n' {
        let r = captured.substring_char(0, n - 1);
        proof {
            assert(captured@.subrange(0, n - 1) =~= captured@.drop_last());
        }
        String::from_str(r)
    } else {
        String::from_str(captured)
    }
}

/// A diagnostic line as the renderer emits it in plain form.
pub fn error_line(message: &str) -> (r: String)
    ensures
        r@ == "error: "@ + message@,
{
    let mut r = String::from_str("error: ");
    r.append(message);
    r
}

impl RecipeFailure {
    /// The message this failure renders to.
    pub fn message(&self) -> (r: String)
        ensures
            r@ == recipe_failure_spec(self.recipe@, self.line as int, self.code as int),
    {
        let mut r = String::from_str("Recipe `");
        r.append(self.recipe.as_str());
        r.append("` failed on line ");
        let shown = dec_string(self.line);
        r.append(shown.as_str());
        r.append(" with exit code ");
        let shown_code = dec_string(self.code);
        r.append(shown_code.as_str());
        proof {
            assert(r@ =~= recipe_failure_spec(self.recipe@, self.line as int, self.code as int));
        }
        r
    }
}

impl BacktickFailure {
    /// The message this failure renders to.
    pub fn message(&self) -> (r: String)
        ensures
            r@ == backtick_failure_spec(self.code as int),
    {
        let mut r = String::from_str("Backtick failed with exit code ");
        let shown = dec_string(self.code);
        r.append(shown.as_str());
        proof {
            assert(r@ =~= backtick_failure_spec(self.code as int));
        }
        r
    }
}

} // verus!
