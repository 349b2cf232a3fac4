//! Transformation with well-known defaults: the renderer applied with a
//! caller-supplied fallback season, a fallback episode of `0`, and a show
//! title for the reserved `title` placeholder.  Placeholders that neither
//! the captured fields nor those defaults cover stay in the name verbatim.

use vstd::prelude::*;
use crate::error::{res_view, RenamerError};
use crate::extract::{capture_fields, captures_of, entries_view, pattern_of};
use crate::paths::{enforce_extension, spec_guard};
use crate::template::{
    parse_placeholders, render_tokens, spec_render, spec_tokens, widths_fit, RenderModel,
};
use crate::text::{chars_to_string, spec_contains, str_to_chars};

verus! {

/// The default field values this transformation renders with: the given
/// season, and an episode of `0`.
pub open spec fn default_entries(season: Seq<char>) -> Seq<(Seq<char>, Seq<char>)> {
    seq![("season"@, season), ("episode"@, "0"@)]
}

/// What this module's `transform_filename` produces: the pattern's captures
/// rendered into the template over the season/episode defaults and the
/// title, with unknown placeholders kept verbatim, and the original
/// extension enforced on the result.  A pattern that does not match yields
/// `InvalidPattern`; an unusable placeholder width, `MalformedTemplate`; a
/// width-bearing placeholder over a value beginning with `-`,
/// `NegativeValue`.
pub open spec fn spec_transform_with_defaults(
    pattern: Seq<char>,
    original: Seq<char>,
    template: Seq<char>,
    season: Seq<char>,
    title: Seq<char>,
) -> Result<Seq<char>, RenamerError> {
    match captures_of(pattern, original) {
        None => Err(RenamerError::InvalidPattern),
        Some(fields) => if !widths_fit(spec_tokens(template)) {
            Err(RenamerError::MalformedTemplate)
        } else {
            let ctx = RenderModel {
                fields,
                defaults: default_entries(season),
                title,
                keep_unknown: true,
            };
            match spec_render(template, ctx) {
                Err(e) => Err(e),
                Ok(base) => Ok(spec_guard(base, original)),
            }
        },
    }
}

/// Renames one file name: fields captured by `re` from `original` are
/// substituted into `new_pattern`, `season` standing in for an uncaptured
/// season and `title` for the `title` placeholder, and the original
/// extension is enforced on the result.
pub fn transform_filename(
    original: &str,
    new_pattern: &str,
    re: &regex::Regex,
    season: &str,
    title: &str,
) -> (r: Result<String, RenamerError>)
    ensures
        res_view(r) == spec_transform_with_defaults(
            pattern_of(*re),
            original@,
            new_pattern@,
            season@,
            title@,
        ),
{
    match capture_fields(re, original) {
        None => Err(RenamerError::InvalidPattern),
        Some(fields) => {
            match parse_placeholders(new_pattern) {
                Err(e) => Err(e),
                Ok(toks) => {
                    let mut defaults: Vec<(String, String)> = Vec::new();
                    defaults.push((String::from_str("season"), String::from_str(season)));
                    defaults.push((String::from_str("episode"), String::from_str("0")));
                    proof {
                        assert(entries_view(defaults@) =~= default_entries(season@));
                    }
                    match render_tokens(&toks, &fields, &defaults, title, true) {
                        Err(e) => Err(e),
                        Ok(base) => {
                            let orig_chars = str_to_chars(original);
                            let guarded = enforce_extension(&base, &orig_chars);
                            Ok(chars_to_string(&guarded))
                        },
                    }
                },
            }
        },
    }
}

/// Whether a file name asks for a warning: true exactly when it contains
/// the text `warning`.
pub fn check_warning(filename: &str) -> (r: bool)
    ensures
        r == spec_contains(filename@, "warning"@),
{
    let hay = str_to_chars(filename);
    let needle = str_to_chars("warning");
    crate::text::contains_chars(&hay, &needle)
}

} // verus!
