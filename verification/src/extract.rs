//! Field extraction: applying a compiled regular expression with named
//! capture groups to a file name and reading the captured fields.
//!
//! The regular expression engine is outside code; its behaviour enters the
//! proofs only through the two names below.  `pattern_of` stands for the
//! source text a compiled regex was built from, and `captures_of` stands
//! for the list of `(group name, captured text)` pairs that matching a
//! pattern against a text yields — both are functions of their arguments
//! alone, since regex matching is deterministic.

use vstd::prelude::*;

verus! {

#[verifier::external_type_specification]
#[verifier::external_body]
pub struct ExRegex(regex::Regex);

/// The source text the compiled regular expression was built from.
pub uninterp spec fn pattern_of(re: regex::Regex) -> Seq<char>;

/// The named capture groups that matching `pattern` against `text` yields:
/// `None` when the pattern does not match, otherwise the `(name, value)`
/// pairs of the named groups that participated in the match, in group order.
pub uninterp spec fn captures_of(pattern: Seq<char>, text: Seq<char>) -> Option<
    Seq<(Seq<char>, Seq<char>)>,
>;

/// The character-level contents of a list of `(name, value)` string pairs.
pub open spec fn entries_view(m: Seq<(String, String)>) -> Seq<(Seq<char>, Seq<char>)> {
    m.map_values(|p: (String, String)| (p.0@, p.1@))
}

/// Relies on `regex::Regex::captures` (with `Regex::capture_names`,
/// `Captures::name` and `Match::as_str` reading the result out): it returns
/// the leftmost match of the pattern in the text, or `None` when the pattern
/// does not match, and matching is a pure function of the pattern and the
/// text.
#[verifier::external_body]
pub(crate) fn capture_fields(re: &regex::Regex, text: &str) -> (r: Option<Vec<(String, String)>>)
    ensures
        r is Some <==> captures_of(pattern_of(*re), text@) is Some,
        r is Some ==> entries_view(r->Some_0@) == captures_of(pattern_of(*re), text@)->Some_0,
{
    re.captures(text).map(|caps| {
        re.capture_names()
            .flatten()
            .filter_map(|g| caps.name(g).map(|m| (g.to_string(), m.as_str().to_string())))
            .collect()
    })
}

/// The value of the first entry named `name`, if any.
pub open spec fn lookup(m: Seq<(Seq<char>, Seq<char>)>, name: Seq<char>) -> Option<Seq<char>>
    decreases m.len(),
{
    if m.len() == 0 {
        None
    } else if m[0].0 == name {
        Some(m[0].1)
    } else {
        lookup(m.drop_first(), name)
    }
}

/// Looks a field up by name in a captured field mapping.
pub fn map_get(m: &Vec<(String, String)>, name: &Vec<char>) -> (r: Option<String>)
    ensures
        match r {
            Some(v) => lookup(entries_view(m@), name@) == Some(v@),
            None => lookup(entries_view(m@), name@) is None,
        },
{
    let mut i: usize = 0;
    assert(entries_view(m@).skip(0) =~= entries_view(m@));
    while i < m.len()
        invariant
            i <= m@.len(),
            lookup(entries_view(m@), name@) == lookup(
                entries_view(m@).skip(i as int),
                name@,
            ),
        decreases m.len() - i,
    {
        assert(entries_view(m@).skip(i as int)[0] == (m@[i as int].0@, m@[i as int].1@));
        if crate::text::str_eq_chars(m[i].0.as_str(), name) {
            return Some(m[i].1.clone());
        }
        assert(entries_view(m@).skip(i as int).drop_first() =~= entries_view(m@).skip(i + 1));
        i = i + 1;
    }
    assert(entries_view(m@).skip(m@.len() as int) =~= Seq::<(Seq<char>, Seq<char>)>::empty());
    None
}

/// Whether the captured fields should raise the advisory flag: a field
/// named `season` or one named `episode` was captured as exactly `0`.
pub open spec fn spec_advisory(fields: Seq<(Seq<char>, Seq<char>)>) -> bool {
    lookup(fields, "season"@) == Some("0"@) || lookup(fields, "episode"@) == Some("0"@)
}

/// Whether a captured field mapping should raise the advisory flag.
pub fn advisory(fields: &Vec<(String, String)>) -> (r: bool)
    ensures
        r == spec_advisory(entries_view(fields@)),
{
    let season_name = crate::text::str_to_chars("season");
    let episode_name = crate::text::str_to_chars("episode");
    let season_warn = match map_get(fields, &season_name) {
        Some(v) => crate::text::str_eq(v.as_str(), "0"),
        None => false,
    };
    let episode_warn = match map_get(fields, &episode_name) {
        Some(v) => crate::text::str_eq(v.as_str(), "0"),
        None => false,
    };
    season_warn || episode_warn
}

} // verus!
