use vstd::prelude::*;

use std::io::Write;

verus! {

/// Relies on `writeln!` to `std::io::stdout()`: writes `text` and a line break
/// to standard output. Nothing is promised: a failed write is ignored, since
/// help is shown on a best-effort basis.
#[verifier::external_body]
pub(crate) fn print_text(text: &str) {
    let _ = writeln!(std::io::stdout(), "{}", text);
}

} // verus!
