//! A plain model of file paths: the file-name part of a path, its stem and
//! its extension, and the extension guard that forces a rendered name to
//! carry the original file's extension.
//!
//! A path is a sequence of characters whose components are separated by `/`.
//! The extension of a file name is the part after its last `.`, provided
//! that dot is neither absent nor the leading character (so a name such as
//! `.bashrc` has no extension, while `foo.` has the empty extension).

use vstd::prelude::*;
use crate::text::{
    append_chars, eq_ignore_case, last_idx, lemma_last_idx, lower_chars, spec_lower,
    spec_lower_char, subvec,
};

verus! {

/// The file-name part of a path: everything after the last `/`.
pub open spec fn file_name_of(path: Seq<char>) -> Seq<char> {
    path.subrange(last_idx(path, '/') + 1, path.len() as int)
}

/// The extension of a file name: the part after the last `.`, if that dot
/// exists and is not the leading character.
pub open spec fn ext_of(name: Seq<char>) -> Option<Seq<char>> {
    let d = last_idx(name, '.');
    if d <= 0 {
        None
    } else {
        Some(name.subrange(d + 1, name.len() as int))
    }
}

/// The stem of a file name: everything before the extension's dot, or the
/// whole name when there is no extension.
pub open spec fn stem_of(name: Seq<char>) -> Seq<char> {
    let d = last_idx(name, '.');
    if d <= 0 {
        name
    } else {
        name.subrange(0, d)
    }
}

/// The lower-cased extension of a path's file name, or the empty sequence
/// when the file name has no extension.
pub open spec fn lower_ext_of(path: Seq<char>) -> Seq<char> {
    match ext_of(file_name_of(path)) {
        Some(e) => spec_lower(e),
        None => Seq::empty(),
    }
}

/// The extension guard: the name a rendered base name ends up with, given
/// the original file name.
///
/// When the original has no usable extension (none at all, or the empty
/// one), the rendered name is kept exactly as produced.  Otherwise a
/// rendered name with a case-insensitively equal extension is kept, a
/// rendered name with a different extension has it replaced by the
/// original's lower-cased extension, and a rendered name without an
/// extension has the original's lower-cased extension appended.
pub open spec fn spec_guard(rendered: Seq<char>, original: Seq<char>) -> Seq<char> {
    let oext = lower_ext_of(original);
    if oext.len() == 0 {
        rendered
    } else {
        match ext_of(file_name_of(rendered)) {
            Some(rext) => if spec_lower(rext) == oext {
                rendered
            } else {
                stem_of(file_name_of(rendered)) + seq!['.'] + oext
            },
            None => rendered + seq!['.'] + oext,
        }
    }
}

/// Whether a path's extension lets it through a case-insensitive allow-list,
/// an empty allow-list accepting everything.
pub open spec fn spec_eligible(path: Seq<char>, types: Seq<Seq<char>>) -> bool {
    if types.len() == 0 {
        true
    } else {
        match ext_of(file_name_of(path)) {
            None => false,
            Some(e) => exists|k: int| 0 <= k < types.len() && eq_ignore_case(types[k], e),
        }
    }
}

/// *An empty allow-list accepts everything*: eligibility with no allowed
/// types holds for every path, even one without an extension; with a
/// nonempty list, a path without an extension is never eligible.
pub proof fn lemma_empty_allow_list_accepts_all(path: Seq<char>, types: Seq<Seq<char>>)
    ensures
        types.len() == 0 ==> spec_eligible(path, types),
        types.len() > 0 && ext_of(file_name_of(path)) is None ==> !spec_eligible(path, types),
{
}

/// Whether a path's extension appears, case-sensitively, in an allow-list.
pub open spec fn spec_allowed_exact(path: Seq<char>, types: Seq<Seq<char>>) -> bool {
    match ext_of(file_name_of(path)) {
        None => false,
        Some(e) => exists|k: int| 0 <= k < types.len() && types[k] == e,
    }
}

/// If `s[j] == c` and no later character is `c`, then `j` is the last index.
pub proof fn lemma_last_idx_unique(s: Seq<char>, c: char, j: int)
    requires
        0 <= j < s.len(),
        s[j] == c,
        forall|k: int| j < k < s.len() ==> s[k] != c,
    ensures
        last_idx(s, c) == j,
{
    lemma_last_idx(s, c);
    if last_idx(s, c) < j {
        assert(s[j] != c);
    }
}

/// If `c` does not occur in `s`, the last index is `-1`.
pub proof fn lemma_last_idx_absent(s: Seq<char>, c: char)
    requires
        forall|k: int| 0 <= k < s.len() ==> s[k] != c,
    ensures
        last_idx(s, c) == -1,
{
    lemma_last_idx(s, c);
    if last_idx(s, c) >= 0 {
        assert(s[last_idx(s, c)] == c);
    }
}

/// The file-name part of a path contains no `/`.
pub proof fn lemma_file_name_no_slash(path: Seq<char>)
    ensures
        forall|k: int| 0 <= k < file_name_of(path).len() ==> file_name_of(path)[k] != '/',
{
    lemma_last_idx(path, '/');
    assert forall|k: int| 0 <= k < file_name_of(path).len() implies file_name_of(path)[k]
        != '/' by {
        assert(file_name_of(path)[k] == path[last_idx(path, '/') + 1 + k]);
    }
}

/// An extension contains no `.`.
pub proof fn lemma_ext_no_dot(name: Seq<char>)
    requires
        ext_of(name) is Some,
    ensures
        forall|k: int| 0 <= k < ext_of(name)->Some_0.len() ==> ext_of(name)->Some_0[k] != '.',
{
    lemma_last_idx(name, '.');
    let d = last_idx(name, '.');
    assert forall|k: int| 0 <= k < ext_of(name)->Some_0.len() implies ext_of(name)->Some_0[k]
        != '.' by {
        assert(ext_of(name)->Some_0[k] == name[d + 1 + k]);
    }
}

/// ASCII lower-casing a character other than `/` or `.` cannot produce one.
proof fn lemma_lower_keeps_separators(c: char)
    ensures
        (spec_lower_char(c) == '/') == (c == '/'),
        (spec_lower_char(c) == '.') == (c == '.'),
{
}

/// The lower-cased extension of a path contains neither `/` nor `.`.
pub proof fn lemma_lower_ext_clean(path: Seq<char>)
    ensures
        forall|k: int|
            0 <= k < lower_ext_of(path).len() ==> lower_ext_of(path)[k] != '/'
                && lower_ext_of(path)[k] != '.',
{
    let name = file_name_of(path);
    if ext_of(name) is Some {
        let e = ext_of(name)->Some_0;
        lemma_file_name_no_slash(path);
        lemma_ext_no_dot(name);
        lemma_last_idx(name, '.');
        assert forall|k: int| 0 <= k < lower_ext_of(path).len() implies lower_ext_of(path)[k]
            != '/' && lower_ext_of(path)[k] != '.' by {
            assert(e[k] == name[last_idx(name, '.') + 1 + k]);
            assert(e[k] != '/');
            assert(lower_ext_of(path)[k] == spec_lower_char(e[k]));
            lemma_lower_keeps_separators(e[k]);
        }
    }
}

/// *Extension invariance*: whatever the template and the captured fields
/// produced, the guarded name carries the original file's extension, compared
/// case-insensitively.  The original must have a nonempty extension (for one
/// without, the guard keeps the rendered name untouched), and the rendered
/// name's file-name part must be nonempty.
pub proof fn lemma_extension_invariance(rendered: Seq<char>, original: Seq<char>)
    requires
        lower_ext_of(original).len() > 0,
        file_name_of(rendered).len() > 0,
    ensures
        ext_of(file_name_of(spec_guard(rendered, original))) is Some,
        spec_lower(ext_of(file_name_of(spec_guard(rendered, original)))->Some_0)
            == lower_ext_of(original),
{
    let oext = lower_ext_of(original);
    let rname = file_name_of(rendered);
    let g = spec_guard(rendered, original);
    lemma_lower_ext_clean(original);
    lemma_last_idx(rendered, '/');
    match ext_of(rname) {
        Some(rext) => {
            if spec_lower(rext) == oext {
                assert(g == rendered);
            } else {
                let stem = stem_of(rname);
                lemma_last_idx(rname, '.');
                assert(stem.len() > 0);
                assert(g =~= stem + seq!['.'] + oext);
                lemma_file_name_no_slash(rendered);
                assert(forall|k: int| 0 <= k < stem.len() ==> #[trigger] stem[k] == rname[k]);
                assert(forall|k: int| 0 <= k < g.len() ==> g[k] != '/');
                lemma_last_idx_absent(g, '/');
                assert(file_name_of(g) =~= g);
                assert(g[stem.len() as int] == '.');
                assert(forall|k: int|
                    stem.len() < k < g.len() ==> g[k] == oext[k - stem.len() - 1]);
                lemma_last_idx_unique(g, '.', stem.len() as int);
                assert(ext_of(g)->Some_0 =~= oext);
                lemma_lower_idempotent_seq(oext);
            }
        },
        None => {
            let g2 = rendered + seq!['.'] + oext;
            assert(g =~= g2);
            // the last slash of the guarded name is the last slash of the
            // rendered name, so its file-name part is the rendered one's
            // followed by the new dot and extension
            let ls = last_idx(rendered, '/');
            if ls >= 0 {
                assert(forall|k: int| ls < k < rendered.len() ==> g2[k] != '/');
                assert(forall|k: int|
                    rendered.len() < k < g2.len() ==> g2[k] == oext[k - rendered.len() - 1]);
                assert(g2[rendered.len() as int] == '.');
                lemma_last_idx_unique(g2, '/', ls);
            } else {
                assert(forall|k: int| 0 <= k < rendered.len() ==> g2[k] != '/');
                assert(forall|k: int|
                    rendered.len() < k < g2.len() ==> g2[k] == oext[k - rendered.len() - 1]);
                assert(g2[rendered.len() as int] == '.');
                lemma_last_idx_absent(g2, '/');
            }
            let fg = file_name_of(g2);
            assert(fg =~= rname + seq!['.'] + oext);
            assert(fg[rname.len() as int] == '.');
            assert(forall|k: int| rname.len() < k < fg.len() ==> fg[k] == oext[k - rname.len() - 1]);
            lemma_last_idx_unique(fg, '.', rname.len() as int);
            assert(ext_of(fg)->Some_0 =~= oext);
            lemma_lower_idempotent_seq(oext);
        },
    }
}

/// ASCII lower-casing is idempotent on one character sequence.
pub proof fn lemma_lower_idempotent_seq(s: Seq<char>)
    ensures
        spec_lower(spec_lower(s)) == spec_lower(s),
{
    assert forall|k: int| 0 <= k < s.len() implies spec_lower(spec_lower(s))[k] == spec_lower(
        s,
    )[k] by {
        assert(spec_lower(spec_lower(s))[k] == spec_lower_char(spec_lower_char(s[k])));
    }
    assert(spec_lower(spec_lower(s)) =~= spec_lower(s));
}

/// The index of the last occurrence of `c` in `v`, if any.
pub fn find_last(v: &Vec<char>, c: char) -> (r: Option<usize>)
    ensures
        match r {
            Some(j) => last_idx(v@, c) == j && j < v@.len(),
            None => last_idx(v@, c) == -1,
        },
{
    let mut i: usize = v.len();
    while i > 0
        invariant
            i <= v@.len(),
            forall|k: int| i <= k < v@.len() ==> v@[k] != c,
        decreases i,
    {
        i = i - 1;
        if v[i] == c {
            proof {
                lemma_last_idx_unique(v@, c, i as int);
            }
            return Some(i);
        }
    }
    proof {
        lemma_last_idx_absent(v@, c);
    }
    None
}

/// The file-name part of a path.
pub fn file_name_part(v: &Vec<char>) -> (r: Vec<char>)
    ensures
        r@ == file_name_of(v@),
{
    proof {
        lemma_last_idx(v@, '/');
    }
    let n = v.len();
    match find_last(v, '/') {
        Some(j) => subvec(v, j + 1, n),
        None => {
            let r = subvec(v, 0, v.len());
            assert(r@ =~= file_name_of(v@));
            r
        },
    }
}

/// The extension of a file name, if any.
pub fn ext_part(name: &Vec<char>) -> (r: Option<Vec<char>>)
    ensures
        match (r, ext_of(name@)) {
            (Some(v), Some(e)) => v@ == e,
            (None, None) => true,
            _ => false,
        },
{
    proof {
        lemma_last_idx(name@, '.');
    }
    let n = name.len();
    match find_last(name, '.') {
        Some(d) => if d == 0 {
            None
        } else {
            Some(subvec(name, d + 1, n))
        },
        None => None,
    }
}

/// The stem of a file name.
pub fn stem_part(name: &Vec<char>) -> (r: Vec<char>)
    ensures
        r@ == stem_of(name@),
{
    proof {
        lemma_last_idx(name@, '.');
    }
    match find_last(name, '.') {
        Some(d) => if d == 0 {
            subvec(name, 0, name.len())
        } else {
            subvec(name, 0, d)
        },
        None => subvec(name, 0, name.len()),
    }
}

/// The lower-cased extension of a path's file name, or an empty buffer.
pub fn lower_ext(path: &Vec<char>) -> (r: Vec<char>)
    ensures
        r@ == lower_ext_of(path@),
{
    let name = file_name_part(path);
    match ext_part(&name) {
        Some(e) => lower_chars(&e),
        None => {
            let r: Vec<char> = Vec::new();
            assert(r@ =~= lower_ext_of(path@));
            r
        },
    }
}

/// Applies the extension guard to a rendered base name.
pub fn enforce_extension(rendered: &Vec<char>, original: &Vec<char>) -> (r: Vec<char>)
    ensures
        r@ == spec_guard(rendered@, original@),
{
    let oext = lower_ext(original);
    if oext.len() == 0 {
        return subvec(rendered, 0, rendered.len());
    }
    let rname = file_name_part(rendered);
    match ext_part(&rname) {
        Some(rext) => {
            let lre = lower_chars(&rext);
            let same = crate::text::chars_eq(&lre, &oext);
            if same {
                subvec(rendered, 0, rendered.len())
            } else {
                let mut r = stem_part(&rname);
                r.push('.');
                append_chars(&mut r, &oext);
                assert(r@ =~= stem_of(file_name_of(rendered@)) + seq!['.'] + lower_ext_of(
                    original@,
                ));
                r
            }
        },
        None => {
            let mut r = subvec(rendered, 0, rendered.len());
            r.push('.');
            append_chars(&mut r, &oext);
            assert(r@ =~= rendered@ + seq!['.'] + lower_ext_of(original@));
            r
        },
    }
}

} // verus!

