//! The template language: `{name}` and `{name:width}` placeholders inside
//! literal text, and the renderer that substitutes captured fields into a
//! template.
//!
//! A placeholder is an exact `{identifier}` or `{identifier:digits}` shape,
//! where the identifier is a maximal run of word characters (ASCII letters,
//! digits and underscore).  Anything else — a stray `{`, an unpaired `}`,
//! other characters between braces — is literal text and passes through a
//! rendering unchanged.

use vstd::prelude::*;
use crate::error::RenamerError;
use crate::extract::{entries_view, lookup, map_get};
use crate::text::{append_chars, is_digit, push_repeat, str_eq_chars, str_to_chars, subvec};

verus! {

/// A word character: an ASCII letter, an ASCII digit, or `_`.
pub open spec fn is_word(c: char) -> bool {
    ('a' <= c && c <= 'z') || ('A' <= c && c <= 'Z') || is_digit(c) || c == '_'
}

/// Whether `c` is a word character.
pub fn is_word_char(c: char) -> (r: bool)
    ensures
        r == is_word(c),
{
    ('a' <= c && c <= 'z') || ('A' <= c && c <= 'Z') || ('0' <= c && c <= '9') || c == '_'
}

/// The length of the maximal run of word characters starting at `i`.
pub open spec fn word_run(t: Seq<char>, i: int) -> int
    decreases t.len() - i,
    when 0 <= i <= t.len()
{
    if i < t.len() && is_word(t[i]) {
        1 + word_run(t, i + 1)
    } else {
        0
    }
}

/// The length of the maximal run of ASCII digits starting at `i`.
pub open spec fn digit_run(t: Seq<char>, i: int) -> int
    decreases t.len() - i,
    when 0 <= i <= t.len()
{
    if i < t.len() && is_digit(t[i]) {
        1 + digit_run(t, i + 1)
    } else {
        0
    }
}

/// Bounds of a maximal word run.
pub proof fn lemma_word_run_bounds(t: Seq<char>, i: int)
    requires
        0 <= i <= t.len(),
    ensures
        0 <= word_run(t, i) <= t.len() - i,
    decreases t.len() - i,
{
    if i < t.len() && is_word(t[i]) {
        lemma_word_run_bounds(t, i + 1);
    }
}

/// Bounds of a maximal digit run, and the digits it covers.
pub proof fn lemma_digit_run_bounds(t: Seq<char>, i: int)
    requires
        0 <= i <= t.len(),
    ensures
        0 <= digit_run(t, i) <= t.len() - i,
        forall|k: int| i <= k < i + digit_run(t, i) ==> is_digit(t[k]),
    decreases t.len() - i,
{
    if i < t.len() && is_digit(t[i]) {
        lemma_digit_run_bounds(t, i + 1);
    }
}

/// The numeric value of a run of ASCII digits, read as decimal.
pub open spec fn digits_val(s: Seq<char>) -> int
    decreases s.len(),
{
    if s.len() == 0 {
        0
    } else {
        10 * digits_val(s.drop_last()) + (s.last() as int - '0' as int)
    }
}

/// A decimal digit run has a nonnegative value.
pub proof fn lemma_digits_val_nonneg(s: Seq<char>)
    requires
        forall|k: int| 0 <= k < s.len() ==> is_digit(s[k]),
    ensures
        digits_val(s) >= 0,
    decreases s.len(),
{
    if s.len() > 0 {
        lemma_digits_val_nonneg(s.drop_last());
        assert(forall|k: int| 0 <= k < s.drop_last().len() ==> s.drop_last()[k] == s[k]);
    }
}

/// Extending a digit run to the right can only raise its value.
pub proof fn lemma_digits_val_prefix(s: Seq<char>, j: int)
    requires
        0 <= j <= s.len(),
        forall|k: int| 0 <= k < s.len() ==> is_digit(s[k]),
    ensures
        digits_val(s.subrange(0, j)) <= digits_val(s),
    decreases s.len() - j,
{
    if j < s.len() {
        lemma_digits_val_prefix(s, j + 1);
        let p = s.subrange(0, j);
        let q = s.subrange(0, j + 1);
        assert(q.drop_last() =~= p);
        assert(forall|k: int| 0 <= k < p.len() ==> p[k] == s[k]);
        lemma_digits_val_nonneg(p);
        assert(digits_val(q) == 10 * digits_val(p) + (s[j] as int - '0' as int));
    } else {
        assert(s.subrange(0, j) =~= s);
    }
}

/// A token of the template language, at the model level: a run of literal
/// text, or a placeholder with its name, its optional width, and the raw
/// text it was written as.
pub enum TokenModel {
    Literal { text: Seq<char> },
    Placeholder { name: Seq<char>, width: Option<int>, raw: Seq<char> },
}

/// The length of the placeholder written at position `i` of the template,
/// or `0` when no placeholder starts there.
pub open spec fn placeholder_len(t: Seq<char>, i: int) -> int {
    if !(0 <= i < t.len() && t[i] == '{') {
        0
    } else {
        let w = word_run(t, i + 1);
        if w == 0 {
            0
        } else {
            let j = i + 1 + w;
            if j < t.len() && t[j] == '}' {
                w + 2
            } else if j < t.len() && t[j] == ':' {
                let d = digit_run(t, j + 1);
                if d > 0 && j + 1 + d < t.len() && t[j + 1 + d] == '}' {
                    w + d + 3
                } else {
                    0
                }
            } else {
                0
            }
        }
    }
}

/// The placeholder token written at position `i`; meaningful only when
/// `placeholder_len(t, i) > 0`.
pub open spec fn placeholder_token(t: Seq<char>, i: int) -> TokenModel {
    let w = word_run(t, i + 1);
    let j = i + 1 + w;
    let name = t.subrange(i + 1, j);
    if j < t.len() && t[j] == '}' {
        TokenModel::Placeholder { name, width: None, raw: t.subrange(i, j + 1) }
    } else {
        let d = digit_run(t, j + 1);
        TokenModel::Placeholder {
            name,
            width: Some(digits_val(t.subrange(j + 1, j + 1 + d))),
            raw: t.subrange(i, j + 1 + d + 1),
        }
    }
}

/// A placeholder is at least `{x}` long and lies within the template.
pub proof fn lemma_placeholder_len_bounds(t: Seq<char>, i: int)
    requires
        0 <= i <= t.len(),
    ensures
        placeholder_len(t, i) == 0 || (3 <= placeholder_len(t, i) && i + placeholder_len(t, i)
            <= t.len()),
{
    if 0 <= i < t.len() && t[i] == '{' {
        lemma_word_run_bounds(t, i + 1);
        let w = word_run(t, i + 1);
        if w > 0 {
            let j = i + 1 + w;
            if j < t.len() && t[j] == ':' {
                lemma_digit_run_bounds(t, j + 1);
            }
        }
    }
}

/// The length of the run of literal text starting at `i`: characters up to
/// but not including the next placeholder start.
pub open spec fn lit_run(t: Seq<char>, i: int) -> int
    decreases t.len() - i,
    when 0 <= i <= t.len()
{
    if i >= t.len() {
        0
    } else if placeholder_len(t, i) > 0 {
        0
    } else {
        1 + lit_run(t, i + 1)
    }
}

/// The tokens of the template from position `i` on: placeholders where they
/// are written, maximal runs of literal text in between.
///
/// The bounds tests guarding each recursive call always hold — a
/// placeholder or literal run never reaches past the template (see
/// `lemma_placeholder_len_bounds`) — and only make the termination measure
/// plain.
pub open spec fn spec_tokens_from(t: Seq<char>, i: int) -> Seq<TokenModel>
    decreases t.len() - i,
    when 0 <= i <= t.len()
{
    if i >= t.len() {
        Seq::empty()
    } else {
        let p = placeholder_len(t, i);
        if p > 0 {
            if i + p <= t.len() {
                seq![placeholder_token(t, i)] + spec_tokens_from(t, i + p)
            } else {
                seq![placeholder_token(t, i)]
            }
        } else {
            let k = lit_run(t, i);
            if 1 <= k && i + k <= t.len() {
                seq![TokenModel::Literal { text: t.subrange(i, i + k) }] + spec_tokens_from(
                    t,
                    i + k,
                )
            } else {
                seq![TokenModel::Literal { text: t.subrange(i, t.len() as int) }]
            }
        }
    }
}

/// The tokens of a whole template.
pub open spec fn spec_tokens(t: Seq<char>) -> Seq<TokenModel> {
    spec_tokens_from(t, 0)
}

/// Whether a token's width, if any, is usable as a `usize`.
pub open spec fn width_fits(tm: TokenModel) -> bool {
    match tm {
        TokenModel::Placeholder { width, .. } => match width {
            Some(w) => 0 <= w <= usize::MAX,
            None => true,
        },
        TokenModel::Literal { .. } => true,
    }
}

/// Whether every placeholder width in a token list is usable.
pub open spec fn widths_fit(ts: Seq<TokenModel>) -> bool {
    forall|k: int| 0 <= k < ts.len() ==> width_fits(#[trigger] ts[k])
}

/// A token of the template language.
pub enum Token {
    Literal(Vec<char>),
    Placeholder { name: Vec<char>, width: Option<usize>, raw: Vec<char> },
}

/// The model a concrete token stands for.
pub open spec fn token_view(t: Token) -> TokenModel {
    match t {
        Token::Literal(s) => TokenModel::Literal { text: s@ },
        Token::Placeholder { name, width, raw } => TokenModel::Placeholder {
            name: name@,
            width: match width {
                Some(w) => Some(w as int),
                None => None,
            },
            raw: raw@,
        },
    }
}

/// The models of a list of concrete tokens.
pub open spec fn tokens_view(ts: Seq<Token>) -> Seq<TokenModel> {
    ts.map_values(|t: Token| token_view(t))
}

/// The length of the maximal word run at `i`.
fn word_run_exec(t: &Vec<char>, i: usize) -> (r: usize)
    requires
        i <= t@.len(),
    ensures
        r as int == word_run(t@, i as int),
        i + r <= t@.len(),
    decreases t@.len() - i,
{
    if i < t.len() && is_word_char(t[i]) {
        let rest = word_run_exec(t, i + 1);
        1 + rest
    } else {
        0
    }
}

/// The length of the maximal digit run at `i`.
fn digit_run_exec(t: &Vec<char>, i: usize) -> (r: usize)
    requires
        i <= t@.len(),
    ensures
        r as int == digit_run(t@, i as int),
        i + r <= t@.len(),
    decreases t@.len() - i,
{
    if i < t.len() && '0' <= t[i] && t[i] <= '9' {
        let rest = digit_run_exec(t, i + 1);
        1 + rest
    } else {
        0
    }
}

/// Reads the decimal value of `t[from..to]`, or reports that it does not
/// fit in a `usize`.
fn parse_width(t: &Vec<char>, from: usize, to: usize) -> (r: Option<usize>)
    requires
        from <= to <= t@.len(),
        forall|k: int| from <= k < to ==> is_digit(t@[k]),
    ensures
        match r {
            Some(w) => w as int == digits_val(t@.subrange(from as int, to as int)),
            None => digits_val(t@.subrange(from as int, to as int)) > usize::MAX,
        },
{
    let ghost full = t@.subrange(from as int, to as int);
    let mut acc: usize = 0;
    let mut j: usize = from;
    while j < to
        invariant
            from <= j <= to <= t@.len(),
            forall|k: int| from <= k < to ==> is_digit(t@[k]),
            acc as int == digits_val(t@.subrange(from as int, j as int)),
            full == t@.subrange(from as int, to as int),
        decreases to - j,
    {
        let c = t[j];
        assert(is_digit(t@[j as int]));
        let d: usize = ((c as u32) - 48) as usize;
        let step = match acc.checked_mul(10) {
            Some(m) => m.checked_add(d),
            None => None,
        };
        proof {
            let p = t@.subrange(from as int, j as int);
            let q = t@.subrange(from as int, j + 1);
            assert(q.drop_last() =~= p);
            assert(q.last() == t@[j as int]);
            assert(digits_val(q) == 10 * digits_val(p) + (t@[j as int] as int - '0' as int));
        }
        match step {
            Some(next) => {
                acc = next;
                j = j + 1;
            },
            None => {
                proof {
                    assert(forall|k: int| 0 <= k < full.len() ==> is_digit(full[k]));
                    assert(digits_val(full.subrange(0, (j + 1 - from) as int)) > usize::MAX) by {
                        assert(full.subrange(0, (j + 1 - from) as int) =~= t@.subrange(
                            from as int,
                            j + 1,
                        ));
                    }
                    lemma_digits_val_prefix(full, j + 1 - from);
                }
                return None;
            },
        }
    }
    assert(t@.subrange(from as int, to as int) =~= t@.subrange(from as int, j as int));
    Some(acc)
}

/// Reads the placeholder starting at `i`, if one does: `Ok(None)` when none
/// starts there, and an error when one does but its width is unusable.
fn try_placeholder(t: &Vec<char>, i: usize) -> (r: Result<Option<(Token, usize)>, RenamerError>)
    requires
        i < t@.len(),
    ensures
        match r {
            Ok(opt) => match opt {
                None => placeholder_len(t@, i as int) == 0,
                Some(pair) => placeholder_len(t@, i as int) > 0 && pair.1 as int == i
                    + placeholder_len(t@, i as int) && token_view(pair.0) == placeholder_token(
                    t@,
                    i as int,
                ) && i < pair.1 <= t@.len(),
            },
            Err(e) => e == RenamerError::MalformedTemplate && placeholder_len(t@, i as int) > 0
                && !width_fits(placeholder_token(t@, i as int)),
        },
{
    let n = t.len();
    if t[i] != '{' {
        return Ok(None);
    }
    let w = word_run_exec(t, i + 1);
    if w == 0 {
        return Ok(None);
    }
    let j = i + 1 + w;
    if j < n && t[j] == '}' {
        let name = subvec(t, i + 1, j);
        let raw = subvec(t, i, j + 1);
        return Ok(Some((Token::Placeholder { name, width: None, raw }, j + 1)));
    }
    if j < n && t[j] == ':' {
        let d = digit_run_exec(t, j + 1);
        if d > 0 {
            let k = j + 1 + d;
            if k < n && t[k] == '}' {
                proof {
                    lemma_digit_run_bounds(t@, j + 1);
                    lemma_digits_val_nonneg(t@.subrange(j + 1, k as int));
                }
                match parse_width(t, j + 1, k) {
                    Some(width) => {
                        let name = subvec(t, i + 1, j);
                        let raw = subvec(t, i, k + 1);
                        return Ok(
                            Some((Token::Placeholder { name, width: Some(width), raw }, k + 1)),
                        );
                    },
                    None => {
                        return Err(RenamerError::MalformedTemplate);
                    },
                }
            }
        }
    }
    Ok(None)
}

/// Whether a placeholder starts at position `i`.
fn has_placeholder_at(t: &Vec<char>, i: usize) -> (b: bool)
    requires
        i < t@.len(),
    ensures
        b == (placeholder_len(t@, i as int) > 0),
{
    let n = t.len();
    if t[i] != '{' {
        return false;
    }
    let w = word_run_exec(t, i + 1);
    if w == 0 {
        return false;
    }
    let j = i + 1 + w;
    if j < n && t[j] == '}' {
        return true;
    }
    if j < n && t[j] == ':' {
        let d = digit_run_exec(t, j + 1);
        if d > 0 {
            let k = j + 1 + d;
            if k < n && t[k] == '}' {
                return true;
            }
        }
    }
    false
}

/// The length of the literal run starting at `i`, which must not start a
/// placeholder.
fn lit_run_exec(t: &Vec<char>, i: usize) -> (r: usize)
    requires
        i < t@.len(),
        placeholder_len(t@, i as int) <= 0,
    ensures
        r as int == lit_run(t@, i as int),
        1 <= r,
        i + r <= t@.len(),
{
    let n = t.len();
    let mut k: usize = i + 1;
    while k < n && !has_placeholder_at(t, k)
        invariant
            n == t@.len(),
            i < k <= t@.len(),
            lit_run(t@, i as int) == (k - i) + lit_run(t@, k as int),
        decreases t@.len() - k,
    {
        k = k + 1;
    }
    k - i
}

/// Splits a template into its tokens, or reports a malformed width.
///
/// On success the token models are exactly `spec_tokens` of the template;
/// the only failure is a placeholder width too large for `usize`.
pub fn tokenize_chars(t: &Vec<char>) -> (r: Result<Vec<Token>, RenamerError>)
    ensures
        match r {
            Ok(toks) => tokens_view(toks@) == spec_tokens(t@) && widths_fit(spec_tokens(t@)),
            Err(e) => e == RenamerError::MalformedTemplate && !widths_fit(spec_tokens(t@)),
        },
{
    let mut toks: Vec<Token> = Vec::new();
    let mut i: usize = 0;
    while i < t.len()
        invariant
            i <= t@.len(),
            spec_tokens(t@) =~= tokens_view(toks@) + spec_tokens_from(t@, i as int),
            forall|k: int| 0 <= k < toks@.len() ==> width_fits(#[trigger] tokens_view(toks@)[k]),
        decreases t@.len() - i,
    {
        proof {
            lemma_placeholder_len_bounds(t@, i as int);
        }
        match try_placeholder(t, i) {
            Err(_) => {
                proof {
                    let bad = placeholder_token(t@, i as int);
                    assert(spec_tokens_from(t@, i as int)[0] == bad);
                    let idx = toks@.len() as int;
                    assert(spec_tokens(t@)[idx] == bad);
                    assert(!widths_fit(spec_tokens(t@)));
                }
                return Err(RenamerError::MalformedTemplate);
            },
            Ok(Some(pair)) => {
                let (tok, end) = pair;
                proof {
                    assert(spec_tokens_from(t@, i as int) =~= seq![placeholder_token(t@, i as int)]
                        + spec_tokens_from(t@, end as int));
                    assert(tokens_view(toks@.push(tok)) =~= tokens_view(toks@) + seq![
                        token_view(tok),
                    ]);
                }
                toks.push(tok);
                i = end;
            },
            Ok(None) => {
                let k = lit_run_exec(t, i);
                let lit = subvec(t, i, i + k);
                proof {
                    assert(spec_tokens_from(t@, i as int) =~= seq![
                        TokenModel::Literal { text: t@.subrange(i as int, i + k) },
                    ] + spec_tokens_from(t@, (i + k) as int));
                    assert(tokens_view(toks@.push(Token::Literal(lit))) =~= tokens_view(toks@)
                        + seq![token_view(Token::Literal(lit))]);
                }
                toks.push(Token::Literal(lit));
                i = i + k;
            },
        }
    }
    proof {
        assert(spec_tokens_from(t@, i as int) =~= Seq::<TokenModel>::empty());
        assert(tokens_view(toks@) =~= spec_tokens(t@));
        assert forall|k: int| 0 <= k < spec_tokens(t@).len() implies width_fits(
            #[trigger] spec_tokens(t@)[k],
        ) by {
            assert(spec_tokens(t@)[k] == tokens_view(toks@)[k]);
        }
    }
    Ok(toks)
}

/// Splits a template string into its tokens; see `tokenize_chars`.
pub fn parse_placeholders(template: &str) -> (r: Result<Vec<Token>, RenamerError>)
    ensures
        match r {
            Ok(toks) => tokens_view(toks@) == spec_tokens(template@) && widths_fit(
                spec_tokens(template@),
            ),
            Err(e) => e == RenamerError::MalformedTemplate && !widths_fit(spec_tokens(template@)),
        },
{
    let chars = crate::text::str_to_chars(template);
    tokenize_chars(&chars)
}

/// What a rendering sees: the captured fields, the caller-supplied default
/// values, the title to substitute for the reserved `title` slot (empty when
/// none was supplied), and the policy for placeholders that none of those
/// cover — kept verbatim, or rendered as nothing.
pub struct RenderModel {
    pub fields: Seq<(Seq<char>, Seq<char>)>,
    pub defaults: Seq<(Seq<char>, Seq<char>)>,
    pub title: Seq<char>,
    pub keep_unknown: bool,
}

/// The model of a rendering over concrete field lists.
pub open spec fn ctx_of(
    fields: Seq<(String, String)>,
    defaults: Seq<(String, String)>,
    title: Seq<char>,
    keep_unknown: bool,
) -> RenderModel {
    RenderModel {
        fields: entries_view(fields),
        defaults: entries_view(defaults),
        title,
        keep_unknown,
    }
}

/// A nonempty, all-digit character sequence.
pub open spec fn is_digit_seq(v: Seq<char>) -> bool {
    v.len() > 0 && forall|k: int| 0 <= k < v.len() ==> is_digit(#[trigger] v[k])
}

/// A digit run with its leading zeros removed (one digit stays if all are
/// zero).
pub open spec fn canon_digits(v: Seq<char>) -> Seq<char>
    decreases v.len(),
{
    if v.len() > 1 && v[0] == '0' {
        canon_digits(v.drop_first())
    } else {
        v
    }
}

/// `v`, filled on the left with `fill` up to a length of at least `w`.
pub open spec fn pad_left(v: Seq<char>, w: int, fill: char) -> Seq<char> {
    if v.len() >= w {
        v
    } else {
        Seq::new((w - v.len()) as nat, |k: int| fill) + v
    }
}

/// The width rule for one field value: without a width the value passes
/// verbatim; with one, a value beginning with `-` is refused, an all-digit
/// value is zero-padded in canonical form, and any other value is filled
/// with spaces on the left.
pub open spec fn spec_pad(v: Seq<char>, width: Option<int>) -> Result<Seq<char>, RenamerError> {
    match width {
        None => Ok(v),
        Some(w) => if v.len() > 0 && v[0] == '-' {
            Err(RenamerError::NegativeValue)
        } else if is_digit_seq(v) {
            Ok(pad_left(canon_digits(v), w, '0'))
        } else {
            Ok(pad_left(v, w, ' '))
        },
    }
}

/// What one placeholder renders as: the captured field of that name if one
/// was captured, else the caller's default of that name, else — for the
/// reserved name `title` — the title, else the raw placeholder text or
/// nothing, by policy.
pub open spec fn spec_subst(
    name: Seq<char>,
    width: Option<int>,
    raw: Seq<char>,
    ctx: RenderModel,
) -> Result<Seq<char>, RenamerError> {
    match lookup(ctx.fields, name) {
        Some(v) => spec_pad(v, width),
        None => match lookup(ctx.defaults, name) {
            Some(v) => spec_pad(v, width),
            None => if name == "title"@ {
                Ok(ctx.title)
            } else if ctx.keep_unknown {
                Ok(raw)
            } else {
                Ok(Seq::empty())
            },
        },
    }
}

/// What a token list renders as: literal text copied unchanged, placeholders
/// substituted left to right, the first failing placeholder failing the
/// whole rendering.
pub open spec fn spec_render_tokens(ts: Seq<TokenModel>, ctx: RenderModel) -> Result<
    Seq<char>,
    RenamerError,
>
    decreases ts.len(),
{
    if ts.len() == 0 {
        Ok(Seq::empty())
    } else {
        let head = match ts[0] {
            TokenModel::Literal { text } => Ok(text),
            TokenModel::Placeholder { name, width, raw } => spec_subst(name, width, raw, ctx),
        };
        match head {
            Err(e) => Err(e),
            Ok(h) => match spec_render_tokens(ts.drop_first(), ctx) {
                Err(e) => Err(e),
                Ok(rest) => Ok(h + rest),
            },
        }
    }
}

/// What a template renders as.
pub open spec fn spec_render(t: Seq<char>, ctx: RenderModel) -> Result<Seq<char>, RenamerError> {
    spec_render_tokens(spec_tokens(t), ctx)
}

/// The model of an optional concrete width.
pub open spec fn width_view(w: Option<usize>) -> Option<int> {
    match w {
        Some(x) => Some(x as int),
        None => None,
    }
}

/// Applies the width rule to one field value.
fn pad_field(v: &Vec<char>, width: Option<usize>) -> (r: Result<Vec<char>, RenamerError>)
    ensures
        match r {
            Ok(out) => spec_pad(v@, width_view(width)) == Ok::<Seq<char>, RenamerError>(out@),
            Err(e) => spec_pad(v@, width_view(width)) == Err::<Seq<char>, RenamerError>(e),
        },
{
    let n = v.len();
    match width {
        None => {
            let copied = subvec(v, 0, n);
            assert(copied@ =~= v@);
            Ok(copied)
        },
        Some(w) => {
            if n > 0 && v[0] == '-' {
                return Err(RenamerError::NegativeValue);
            }
            let mut all_digits = n > 0;
            let mut i: usize = 0;
            while i < n
                invariant
                    n == v@.len(),
                    i <= n,
                    all_digits == (n > 0 && forall|k: int| 0 <= k < i ==> is_digit(
                        #[trigger] v@[k],
                    )),
                decreases n - i,
            {
                if !('0' <= v[i] && v[i] <= '9') {
                    all_digits = false;
                }
                i = i + 1;
            }
            if all_digits {
                let mut s: usize = 0;
                assert(v@.subrange(0, n as int) =~= v@);
                while s + 1 < n && v[s] == '0'
                    invariant
                        n == v@.len(),
                        s < n,
                        canon_digits(v@) == canon_digits(v@.subrange(s as int, n as int)),
                    decreases n - s,
                {
                    assert(v@.subrange(s as int, n as int).drop_first() =~= v@.subrange(
                        s + 1,
                        n as int,
                    ));
                    s = s + 1;
                }
                let canon = subvec(v, s, n);
                assert(canon@ == canon_digits(v@));
                let mut r: Vec<char> = Vec::new();
                if canon.len() < w {
                    push_repeat(&mut r, '0', w - canon.len());
                }
                append_chars(&mut r, &canon);
                assert(r@ =~= pad_left(canon_digits(v@), w as int, '0'));
                Ok(r)
            } else {
                let mut r: Vec<char> = Vec::new();
                if n < w {
                    push_repeat(&mut r, ' ', w - n);
                }
                append_chars(&mut r, v);
                assert(r@ =~= pad_left(v@, w as int, ' '));
                Ok(r)
            }
        },
    }
}

/// Renders one placeholder.
fn subst_placeholder(
    name: &Vec<char>,
    width: Option<usize>,
    raw: &Vec<char>,
    fields: &Vec<(String, String)>,
    defaults: &Vec<(String, String)>,
    title: &str,
    keep_unknown: bool,
) -> (r: Result<Vec<char>, RenamerError>)
    ensures
        ({
            let s = spec_subst(
                name@,
                width_view(width),
                raw@,
                ctx_of(fields@, defaults@, title@, keep_unknown),
            );
            match r {
                Ok(out) => s == Ok::<Seq<char>, RenamerError>(out@),
                Err(e) => s == Err::<Seq<char>, RenamerError>(e),
            }
        }),
{
    match map_get(fields, name) {
        Some(v) => {
            let chars = str_to_chars(v.as_str());
            pad_field(&chars, width)
        },
        None => match map_get(defaults, name) {
            Some(v) => {
                let chars = str_to_chars(v.as_str());
                pad_field(&chars, width)
            },
            None => {
                if str_eq_chars("title", name) {
                    Ok(str_to_chars(title))
                } else if keep_unknown {
                    let copied = subvec(raw, 0, raw.len());
                    assert(copied@ =~= raw@);
                    Ok(copied)
                } else {
                    let empty: Vec<char> = Vec::new();
                    assert(empty@ =~= Seq::<char>::empty());
                    Ok(empty)
                }
            },
        },
    }
}

/// Renders a token list: literal text is copied unchanged, placeholders are
/// substituted in template order.
pub fn render_tokens(
    tokens: &Vec<Token>,
    fields: &Vec<(String, String)>,
    defaults: &Vec<(String, String)>,
    title: &str,
    keep_unknown: bool,
) -> (r: Result<Vec<char>, RenamerError>)
    ensures
        ({
            let s = spec_render_tokens(
                tokens_view(tokens@),
                ctx_of(fields@, defaults@, title@, keep_unknown),
            );
            match r {
                Ok(out) => s == Ok::<Seq<char>, RenamerError>(out@),
                Err(e) => s == Err::<Seq<char>, RenamerError>(e),
            }
        }),
{
    let ghost ctx = ctx_of(fields@, defaults@, title@, keep_unknown);
    let ghost all = tokens_view(tokens@);
    let mut acc: Vec<char> = Vec::new();
    let mut idx: usize = 0;
    assert(all.skip(0) =~= all);
    while idx < tokens.len()
        invariant
            idx <= tokens@.len(),
            all == tokens_view(tokens@),
            ctx == ctx_of(fields@, defaults@, title@, keep_unknown),
            spec_render_tokens(all, ctx) == (match spec_render_tokens(
                all.skip(idx as int),
                ctx,
            ) {
                Ok(rest) => Ok::<Seq<char>, RenamerError>(acc@ + rest),
                Err(e) => Err::<Seq<char>, RenamerError>(e),
            }),
        decreases tokens.len() - idx,
    {
        let ghost suffix = all.skip(idx as int);
        proof {
            assert(suffix[0] == token_view(tokens@[idx as int]));
            assert(suffix.drop_first() =~= all.skip(idx + 1));
        }
        let head = match &tokens[idx] {
            Token::Literal(text) => {
                let copied = subvec(text, 0, text.len());
                proof {
                    if let Token::Literal(tx) = tokens@[idx as int] {
                        assert(copied@ =~= tx@);
                    }
                }
                Ok(copied)
            },
            Token::Placeholder { name, width, raw } => {
                subst_placeholder(name, *width, raw, fields, defaults, title, keep_unknown)
            },
        };
        match head {
            Ok(h) => {
                proof {
                    // the head token renders as `h`, so the suffix renders as
                    // `h` followed by the rest
                    assert(spec_render_tokens(suffix, ctx) == (match spec_render_tokens(
                        all.skip(idx + 1),
                        ctx,
                    ) {
                        Ok(rest) => Ok::<Seq<char>, RenamerError>(h@ + rest),
                        Err(e) => Err::<Seq<char>, RenamerError>(e),
                    }));
                }
                let ghost pre = acc@;
                append_chars(&mut acc, &h);
                proof {
                    let nxt = spec_render_tokens(all.skip(idx + 1), ctx);
                    if nxt is Ok {
                        assert(pre + (h@ + nxt->Ok_0) =~= acc@ + nxt->Ok_0);
                    }
                }
                idx = idx + 1;
            },
            Err(e) => {
                proof {
                    assert(spec_render_tokens(suffix, ctx) == Err::<Seq<char>, RenamerError>(e));
                }
                return Err(e);
            },
        }
    }
    proof {
        assert(all.skip(tokens@.len() as int) =~= Seq::<TokenModel>::empty());
        assert(acc@ + Seq::<char>::empty() =~= acc@);
    }
    Ok(acc)
}

/// *Zero-padding is a minimum, never a truncation*: padding an all-digit
/// value to a width keeps its numeric value; the result is at least the
/// requested width and at least as long as the value's canonical digits.
pub proof fn lemma_zero_pad_minimum(v: Seq<char>, w: int)
    requires
        is_digit_seq(v),
        0 <= w,
    ensures
        spec_pad(v, Some(w)) == Ok::<Seq<char>, RenamerError>(pad_left(canon_digits(v), w, '0')),
        pad_left(canon_digits(v), w, '0').len() >= w,
        pad_left(canon_digits(v), w, '0').len() >= canon_digits(v).len(),
        digits_val(pad_left(canon_digits(v), w, '0')) == digits_val(v),
{
    assert(!is_digit('-'));
    lemma_canon_digits_shape(v);
    lemma_digits_val_canon(v);
    let c = canon_digits(v);
    if c.len() < w {
        let z = Seq::new((w - c.len()) as nat, |k: int| '0');
        lemma_digits_val_zeros_prefix(z, c);
    } else {
        assert(pad_left(c, w, '0') == c);
    }
}

/// The canonical digits of an all-digit value are a nonempty all-digit
/// suffix of it.
pub proof fn lemma_canon_digits_shape(v: Seq<char>)
    requires
        is_digit_seq(v),
    ensures
        is_digit_seq(canon_digits(v)),
        canon_digits(v).len() <= v.len(),
    decreases v.len(),
{
    if v.len() > 1 && v[0] == '0' {
        assert(forall|k: int|
            0 <= k < v.drop_first().len() ==> #[trigger] v.drop_first()[k] == v[k + 1]);
        lemma_canon_digits_shape(v.drop_first());
    }
}

/// Dropping a leading zero does not change a digit run's value.
proof fn lemma_digits_val_drop_zero(v: Seq<char>)
    requires
        v.len() >= 1,
        v[0] == '0',
    ensures
        digits_val(v.drop_first()) == digits_val(v),
    decreases v.len(),
{
    if v.len() == 1 {
        assert(v.drop_first() =~= Seq::<char>::empty());
        assert(digits_val(v) == 10 * digits_val(v.drop_last()) + (v.last() as int - '0' as int));
        assert(v.drop_last() =~= Seq::<char>::empty());
    } else {
        assert(v.drop_last()[0] == v[0]);
        lemma_digits_val_drop_zero(v.drop_last());
        assert(v.drop_last().drop_first() =~= v.drop_first().drop_last());
        assert(v.drop_first().last() == v.last());
        assert(digits_val(v) == 10 * digits_val(v.drop_last()) + (v.last() as int - '0' as int));
        assert(digits_val(v.drop_first()) == 10 * digits_val(v.drop_first().drop_last()) + (
        v.drop_first().last() as int - '0' as int));
    }
}

/// Canonicalizing an all-digit value keeps its numeric value.
pub proof fn lemma_digits_val_canon(v: Seq<char>)
    requires
        is_digit_seq(v),
    ensures
        digits_val(canon_digits(v)) == digits_val(v),
    decreases v.len(),
{
    if v.len() > 1 && v[0] == '0' {
        lemma_digits_val_drop_zero(v);
        assert(forall|k: int|
            0 <= k < v.drop_first().len() ==> #[trigger] v.drop_first()[k] == v[k + 1]);
        lemma_digits_val_canon(v.drop_first());
    }
}

/// A prefix of zeros does not change a digit run's value.
proof fn lemma_digits_val_zeros_prefix(z: Seq<char>, d: Seq<char>)
    requires
        forall|k: int| 0 <= k < z.len() ==> #[trigger] z[k] == '0',
    ensures
        digits_val(z + d) == digits_val(d),
    decreases d.len(),
{
    if d.len() == 0 {
        assert(z + d =~= z);
        lemma_digits_val_all_zeros(z);
    } else {
        assert((z + d).drop_last() =~= z + d.drop_last());
        assert((z + d).last() == d.last());
        lemma_digits_val_zeros_prefix(z, d.drop_last());
    }
}

/// A run of zeros has value zero.
proof fn lemma_digits_val_all_zeros(z: Seq<char>)
    requires
        forall|k: int| 0 <= k < z.len() ==> #[trigger] z[k] == '0',
    ensures
        digits_val(z) == 0,
    decreases z.len(),
{
    if z.len() > 0 {
        assert(forall|k: int|
            0 <= k < z.drop_last().len() ==> #[trigger] z.drop_last()[k] == z[k]);
        lemma_digits_val_all_zeros(z.drop_last());
    }
}

/// *The negative-value guard*: a field value beginning with `-` is never
/// padded — rendering it with any requested width fails, at the padding
/// rule and hence at any placeholder that takes its value from such a
/// field.
pub proof fn lemma_negative_guard(v: Seq<char>, w: int, name: Seq<char>, raw: Seq<char>, ctx: RenderModel)
    requires
        v.len() > 0,
        v[0] == '-',
        lookup(ctx.fields, name) == Some(v),
    ensures
        spec_pad(v, Some(w)) == Err::<Seq<char>, RenamerError>(RenamerError::NegativeValue),
        spec_subst(name, Some(w), raw, ctx) == Err::<Seq<char>, RenamerError>(
            RenamerError::NegativeValue,
        ),
{
}

/// A literal run covering the whole rest of the template.
proof fn lemma_lit_run_full(t: Seq<char>, i: int)
    requires
        0 <= i <= t.len(),
        forall|k: int| 0 <= k < t.len() ==> placeholder_len(t, k) <= 0,
    ensures
        lit_run(t, i) == t.len() - i,
    decreases t.len() - i,
{
    if i < t.len() {
        lemma_lit_run_full(t, i + 1);
    }
}

/// *Idempotence of literal text*: a template in which no placeholder is
/// recognized renders to itself, verbatim, whatever fields, defaults,
/// title and policy the rendering sees.
pub proof fn lemma_literal_idempotent(t: Seq<char>, ctx: RenderModel)
    requires
        forall|i: int| 0 <= i < t.len() ==> placeholder_len(t, i) <= 0,
    ensures
        spec_render(t, ctx) == Ok::<Seq<char>, RenamerError>(t),
{
    if t.len() == 0 {
        assert(spec_tokens(t) =~= Seq::<TokenModel>::empty());
        assert(t =~= Seq::<char>::empty());
    } else {
        lemma_lit_run_full(t, 0);
        assert(t.subrange(0, t.len() as int) =~= t);
        let lone = seq![TokenModel::Literal { text: t }];
        assert(spec_tokens_from(t, t.len() as int) =~= Seq::<TokenModel>::empty());
        assert(lone + Seq::<TokenModel>::empty() =~= lone);
        assert(spec_tokens(t) == lone);
        assert(lone[0] == TokenModel::Literal { text: t });
        assert(lone.drop_first() =~= Seq::<TokenModel>::empty());
        assert(spec_render_tokens(lone.drop_first(), ctx) == Ok::<Seq<char>, RenamerError>(
            Seq::<char>::empty(),
        ));
        assert(t + Seq::<char>::empty() =~= t);
        assert(spec_render_tokens(lone, ctx) == Ok::<Seq<char>, RenamerError>(t));
    }
}

} // verus!
