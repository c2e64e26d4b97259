use vstd::prelude::*;

verus! {

/// `a` then `b`.
fn concat2(a: &str, b: &str) -> (r: String)
    ensures
        r@ == a@ + b@,
{
    let mut r = a.to_string();
    r.append(b);
    r
}

/// `a`, `b` and `c` written one after the other.
fn concat3(a: &str, b: &str, c: &str) -> (r: String)
    ensures
        r@ == a@ + b@ + c@,
{
    let mut r = a.to_string();
    r.append(b);
    r.append(c);
    r
}

/// The fatal error for a target that is not a directory: `"<path> is not a directory."`.
pub fn not_a_directory(path: &str) -> (r: String)
    ensures
        r@ == path@ + " is not a directory."@,
{
    concat2(path, " is not a directory.")
}

/// The notice for an excluded file: `"Skipping ignored file: <name>"`.
pub fn skipping_notice(name: &str) -> (r: String)
    ensures
        r@ == "Skipping ignored file: "@ + name@,
{
    concat2("Skipping ignored file: ", name)
}

/// The warning for a pattern text that does not compile.
pub fn invalid_pattern_warning(pattern: &str) -> (r: String)
    ensures
        r@ == "Warning: Invalid ignore pattern '"@ + pattern@ + "'. Ignoring."@,
{
    concat3("Warning: Invalid ignore pattern '", pattern, "'. Ignoring.")
}

/// The warning for a file whose contents could not be read.
pub fn unreadable_warning(path: &str) -> (r: String)
    ensures
        r@ == "Warning: Could not read file "@ + path@,
{
    concat2("Warning: Could not read file ", path)
}

/// The fatal error for an output file that cannot be created, naming the
/// path and the cause.
pub fn output_create_error(path: &str, cause: &str) -> (r: String)
    ensures
        r@ == "Failed to create output file '"@ + path@ + "': "@ + cause@,
{
    let mut r = concat3("Failed to create output file '", path, "': ");
    r.append(cause);
    r
}

} // verus!
