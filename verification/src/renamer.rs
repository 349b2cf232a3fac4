//! The core renaming engine: regex-driven field extraction, template
//! substitution, extension preservation, the advisory check, and the
//! composition of all of these into one rename plan per file.

use vstd::prelude::*;
use crate::error::{res_view, RenamerError};
use crate::extract::{advisory, capture_fields, captures_of, pattern_of, spec_advisory};
use crate::paths::{enforce_extension, ext_part, file_name_part, spec_eligible, spec_guard};
use crate::template::{
    parse_placeholders, render_tokens, spec_render, spec_tokens, widths_fit, RenderModel,
};
use crate::text::{chars_eq, chars_to_string, eq_ignore_case, lower_chars, str_to_chars};

verus! {

/// A planned renaming operation: the original path, the path it would be
/// renamed to, and whether the captured fields looked suspicious enough to
/// warrant confirmation before anything is renamed.
#[derive(Debug, Clone)]
pub struct PlannedRename {
    pub old_path: String,
    pub new_path: String,
    /// True when a warning condition was met (a season or episode captured
    /// as exactly `0`).
    pub warn: bool,
}

/// What this module's `transform_filename` produces: the pattern's captures
/// rendered into the template — placeholders for fields the pattern did not
/// capture render as nothing — with the original extension enforced on the
/// result.  A pattern that does not match yields `InvalidPattern`; an
/// unusable placeholder width, `MalformedTemplate`; a width-bearing
/// placeholder over a value beginning with `-`, `NegativeValue`.
pub open spec fn spec_transform(
    pattern: Seq<char>,
    original: Seq<char>,
    template: Seq<char>,
) -> Result<Seq<char>, RenamerError> {
    match captures_of(pattern, original) {
        None => Err(RenamerError::InvalidPattern),
        Some(fields) => if !widths_fit(spec_tokens(template)) {
            Err(RenamerError::MalformedTemplate)
        } else {
            let ctx = RenderModel {
                fields,
                defaults: Seq::empty(),
                title: Seq::empty(),
                keep_unknown: false,
            };
            match spec_render(template, ctx) {
                Err(e) => Err(e),
                Ok(base) => Ok(spec_guard(base, original)),
            }
        },
    }
}

/// Renames one file name: fields captured by `re` from `original` are
/// substituted into `new_pattern`, and the original file's extension is
/// enforced on the result.
pub fn transform_filename(original: &str, new_pattern: &str, re: &regex::Regex) -> (r: Result<
    String,
    RenamerError,
>)
    ensures
        res_view(r) == spec_transform(pattern_of(*re), original@, new_pattern@),
{
    match capture_fields(re, original) {
        None => Err(RenamerError::InvalidPattern),
        Some(fields) => {
            match parse_placeholders(new_pattern) {
                Err(e) => Err(e),
                Ok(toks) => {
                    let defaults: Vec<(String, String)> = Vec::new();
                    proof {
                        reveal_strlit("");
                        assert(crate::extract::entries_view(defaults@) =~= Seq::<
                            (Seq<char>, Seq<char>),
                        >::empty());
                        assert(""@ =~= Seq::<char>::empty());
                    }
                    match render_tokens(&toks, &fields, &defaults, "", false) {
                        Err(e) => Err(e),
                        Ok(base) => {
                            let orig_chars = str_to_chars(original);
                            let guarded = enforce_extension(&base, &orig_chars);
                            Ok(chars_to_string(&guarded))
                        },
                    }
                },
            }
        },
    }
}

/// Whether renaming `original` warrants a warning: true exactly when the
/// pattern matches and captured a field named `season` or one named
/// `episode` as exactly `0`.
pub fn check_warning(original: &str, re: &regex::Regex) -> (r: bool)
    ensures
        r == (match captures_of(pattern_of(*re), original@) {
            None => false,
            Some(fields) => spec_advisory(fields),
        }),
{
    match capture_fields(re, original) {
        Some(fields) => advisory(&fields),
        None => false,
    }
}

/// Whether the file at `path` should be processed: with a nonempty list of
/// allowed types, true exactly when the path has an extension that equals
/// one of them up to ASCII case; an empty list lets everything through.
pub fn should_process_file(path: &str, allowed_types: &Vec<String>) -> (r: bool)
    ensures
        r == spec_eligible(path@, allowed_types@.map_values(|s: String| s@)),
{
    let ghost types = allowed_types@.map_values(|s: String| s@);
    if allowed_types.len() == 0 {
        return true;
    }
    let chars = str_to_chars(path);
    let name = file_name_part(&chars);
    match ext_part(&name) {
        None => false,
        Some(e) => {
            let le = lower_chars(&e);
            let mut i: usize = 0;
            while i < allowed_types.len()
                invariant
                    i <= allowed_types@.len(),
                    types == allowed_types@.map_values(|s: String| s@),
                    crate::paths::ext_of(crate::paths::file_name_of(path@)) is Some,
                    e@ == crate::paths::ext_of(crate::paths::file_name_of(path@))->Some_0,
                    le@ == crate::text::spec_lower(e@),
                    forall|k: int| 0 <= k < i ==> !eq_ignore_case(types[k], e@),
                decreases allowed_types.len() - i,
            {
                let ft = str_to_chars(allowed_types[i].as_str());
                let lf = lower_chars(&ft);
                if chars_eq(&lf, &le) {
                    assert(eq_ignore_case(types[i as int], e@));
                    assert(exists|k: int|
                        0 <= k < types.len() && eq_ignore_case(
                            types[k],
                            crate::paths::ext_of(crate::paths::file_name_of(path@))->Some_0,
                        )) by {
                        assert(eq_ignore_case(
                            types[i as int],
                            crate::paths::ext_of(crate::paths::file_name_of(path@))->Some_0,
                        ));
                    }
                    return true;
                }
                i = i + 1;
            }
            false
        },
    }
}

/// What `build_plan` produces for a file whose pattern matched, stated over
/// `spec_transform_with_defaults` (the same rendering `transform_filename`
/// in the defaults-bearing module performs).
pub open spec fn spec_plan_name(
    pattern: Seq<char>,
    original: Seq<char>,
    template: Seq<char>,
    season: Seq<char>,
    title: Seq<char>,
) -> Result<Seq<char>, RenamerError> {
    crate::transform::spec_transform_with_defaults(pattern, original, template, season, title)
}

/// Builds the rename plan for one file, or skips it.
///
/// A file whose name the pattern does not match is no candidate: the result
/// is `Ok(None)` and the caller moves on silently.  For a match, the plan
/// holds the original name, the transformed name (rendered with the given
/// default season, episode default `0`, and title, unknown placeholders
/// kept verbatim, the original extension enforced), and the advisory flag.
/// A rendering error — an unusable width, a negative value under a
/// width-bearing placeholder — fails this file's plan only.
pub fn build_plan(
    original: &str,
    re: &regex::Regex,
    new_pattern: &str,
    default_season: &str,
    title: &str,
) -> (r: Result<Option<PlannedRename>, RenamerError>)
    ensures
        ({
            let caps = captures_of(pattern_of(*re), original@);
            let outcome = spec_plan_name(
                pattern_of(*re),
                original@,
                new_pattern@,
                default_season@,
                title@,
            );
            match r {
                Ok(opt) => match opt {
                    None => caps is None,
                    Some(plan) => caps is Some && plan.old_path@ == original@ && outcome
                        == Ok::<Seq<char>, RenamerError>(plan.new_path@) && plan.warn
                        == spec_advisory(caps->Some_0),
                },
                Err(e) => outcome == Err::<Seq<char>, RenamerError>(e),
            }
        }),
        captures_of(pattern_of(*re), original@) is None <==> r == Ok::<
            Option<PlannedRename>,
            RenamerError,
        >(None),
{
    match capture_fields(re, original) {
        None => Ok(None),
        Some(_fields) => {
            match crate::transform::transform_filename(
                original,
                new_pattern,
                re,
                default_season,
                title,
            ) {
                Err(e) => Err(e),
                Ok(new_name) => {
                    let warn = check_warning(original, re);
                    Ok(
                        Some(
                            PlannedRename {
                                old_path: String::from_str(original),
                                new_path: new_name,
                                warn,
                            },
                        ),
                    )
                },
            }
        },
    }
}

} // verus!
