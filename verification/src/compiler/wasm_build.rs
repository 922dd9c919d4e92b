//! What the build of a client module into `.wasm` makes of the compiler's and
//! the toolchain's replies (running `rustc` and `rustup` is left to the caller).

use vstd::prelude::*;
use crate::text::{push_str, contains, occurs_in};

verus! {

/// The message for a failed `rustc` run with the error output `stderr`: a hint
/// to install the target when the output mentions it, the output otherwise.
pub open spec fn rustc_failure_text(stderr: Seq<char>) -> Seq<char> {
    if occurs_in(stderr, "wasm32-unknown-unknown"@) && occurs_in(stderr, "target"@) {
        "wasm32-unknown-unknown target not installed.\n\n  Install it with: rustup target add wasm32-unknown-unknown"@
    } else {
        "rustc failed:\n"@ + stderr
    }
}

/// The message for a failed `rustc` run (`rustc_failure_text`).
pub fn rustc_failure_message(stderr: &str) -> (r: String)
    ensures
        r@ == rustc_failure_text(stderr@),
{
    let mut out = String::new();
    if contains(stderr, "wasm32-unknown-unknown") && contains(stderr, "target") {
        push_str(&mut out, "wasm32-unknown-unknown target not installed.\n\n  Install it with: rustup target add wasm32-unknown-unknown");
    } else {
        push_str(&mut out, "rustc failed:\n");
        push_str(&mut out, stderr);
    }
    out
}

/// Whether the output of `rustup target list --installed` lists the WASM target.
pub fn wasm_target_listed(stdout: &str) -> (r: bool)
    ensures
        r == occurs_in(stdout@, "wasm32-unknown-unknown"@),
{
    contains(stdout, "wasm32-unknown-unknown")
}

} // verus!
