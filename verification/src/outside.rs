//! Trusted bindings to the outside crates the library leans on.  Each item's
//! contract states only what the crate's own source or documentation shows.

use vstd::prelude::*;

verus! {

/// Relies on `rand::random`: draws a value from the thread-local generator.
/// Nothing is promised about which one comes back.
#[verifier::external_body]
pub(crate) fn random_u16() -> u16 {
    rand::random()
}

/// Whether the regex engine accepts this pattern.  `regex::Regex::new` is
/// deterministic, so acceptance is a function of the pattern alone.
pub uninterp spec fn pattern_valid(pattern: Seq<char>) -> bool;

/// Whether an accepted pattern matches somewhere in a text.
/// `regex::Regex::is_match` is deterministic, so this is a function of the
/// pattern and the text alone.
pub uninterp spec fn pattern_matches(pattern: Seq<char>, text: Seq<char>) -> bool;

/// Relies on `regex::Regex::new`: compiling a pattern succeeds or fails by
/// the pattern alone.
#[verifier::external_body]
pub(crate) fn regex_pattern_ok(pattern: &str) -> (r: bool)
    ensures
        r == pattern_valid(pattern@),
{
    regex::Regex::new(pattern).is_ok()
}

/// Relies on `regex::Regex::new` and `regex::Regex::is_match`: `None`
/// exactly when the pattern does not compile, else whether the compiled
/// pattern matches anywhere in the text.
#[verifier::external_body]
pub(crate) fn regex_is_match(pattern: &str, text: &str) -> (r: Option<bool>)
    ensures
        r is Some <==> pattern_valid(pattern@),
        r matches Some(b) ==> b == pattern_matches(pattern@, text@),
{
    match regex::Regex::new(pattern) {
        Ok(re) => Some(re.is_match(text)),
        Err(_) => None,
    }
}

/// Relies on `tera::Tera::add_raw_template` and `tera::Tera::render`, with a
/// context holding exactly the variables `out_root_dir`, `relative_path`,
/// `file_stem` and `format_ext`: `None` when the template does not parse or
/// does not render against them, else the rendered path.  Nothing more is
/// promised: tera's value maps are std hash maps, and a template can observe
/// their iteration order (through `__tera_context`, map literals, or loops
/// over maps), so neither the rendered string nor acceptance is a function
/// of the template and the variables.  Callers state what holds of the plan
/// whatever string came back.
#[verifier::external_body]
pub(crate) fn render_out_path(
    template: &str,
    out_root: &str,
    rel: &str,
    stem: &str,
    ext: &str,
) -> (r: Option<String>)
{
    let mut tera = tera::Tera::default();
    if tera.add_raw_template("out_path", template).is_err() {
        return None;
    }
    let mut ctx = tera::Context::new();
    ctx.insert("out_root_dir", out_root);
    ctx.insert("relative_path", rel);
    ctx.insert("file_stem", stem);
    ctx.insert("format_ext", ext);
    tera.render("out_path", &ctx).ok()
}

} // verus!
