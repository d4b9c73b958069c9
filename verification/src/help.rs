use vstd::prelude::*;
use vstd::string::StringExecFns;

verus! {

/// The usage text, as the help action prints it.
pub open spec fn usage_text() -> Seq<char> {
    "Usage:
    mutter-display-presets [action] [flags...]

ACTIONS:
    help - display usage info

FLAGS:
"@
}

/// Appends the usage text to the caller's output buffer.
pub fn print_usage(out: &mut String)
    ensures
        final(out)@ == old(out)@ + usage_text(),
{
    out.append(
        "Usage:
    mutter-display-presets [action] [flags...]

ACTIONS:
    help - display usage info

FLAGS:
",
    );
}

} // verus!
