//! Resolving `$VARIABLE` references in a path string against an environment,
//! plus the small path-text helpers that go with the fixture-embedding step:
//! identifier parsing, separator normalization, and reading a quoted string
//! literal's source form.
//!
//! The environment is any lookup the caller supplies; resolution substitutes
//! each `$name` exactly once, never resolving recursively into the values.

use vstd::prelude::*;
use vstd::string::StrSliceExecFns;
use vstd::string::StringExecFns;
use crate::text::{find_char, find_char_spec, lemma_find_char_spec};

verus! {

/// An identifier character at position `i` of the identifier: `_` and ASCII
/// letters anywhere, ASCII digits anywhere but first.
pub open spec fn is_ident_char(c: char, i: int) -> bool {
    ||| c == '_'
    ||| ('A' as u32) <= (c as u32) <= ('Z' as u32)
    ||| ('a' as u32) <= (c as u32) <= ('z' as u32)
    ||| (i > 0 && ('0' as u32) <= (c as u32) <= ('9' as u32))
}

/// Scanning `text` from position `i` on: the position of the first character
/// that does not continue an identifier started at position 0.
pub open spec fn ident_end_from(text: Seq<char>, i: int) -> int
    decreases text.len() - i,
{
    if 0 <= i < text.len() && is_ident_char(text[i], i) {
        ident_end_from(text, i + 1)
    } else {
        i
    }
}

/// The length of the identifier prefix of `text`.
pub open spec fn ident_len(text: Seq<char>) -> int {
    ident_end_from(text, 0)
}

/// What `ident_end_from` returns, spelled out.
pub proof fn lemma_ident_end_from(text: Seq<char>, i: int)
    requires
        0 <= i <= text.len(),
    ensures
        i <= ident_end_from(text, i) <= text.len(),
        forall|j: int| i <= j < ident_end_from(text, i) ==> is_ident_char(text[j], j),
        ident_end_from(text, i) < text.len() ==> !is_ident_char(
            text[ident_end_from(text, i)],
            ident_end_from(text, i),
        ),
    decreases text.len() - i,
{
    if 0 <= i < text.len() && is_ident_char(text[i], i) {
        lemma_ident_end_from(text, i + 1);
    }
}

/// Split the leading identifier off `text`: the longest prefix of identifier
/// characters (a digit may not come first), and the remainder. Nothing is
/// returned when no identifier starts the text.
pub fn parse_identifier(text: &str) -> (r: Option<(String, String)>)
    ensures
        match r {
            None => ident_len(text@) == 0,
            Some(parts) => ident_len(text@) > 0 && parts.0@ == text@.take(ident_len(text@))
                && parts.1@ == text@.skip(ident_len(text@)),
        },
{
    let n = text.unicode_len();
    let mut i: usize = 0;
    while i < n && is_ident_char_exec(text.get_char(i), i)
        invariant
            i <= n == text@.len(),
            ident_len(text@) == ident_end_from(text@, i as int),
        decreases n - i,
    {
        i = i + 1;
    }
    proof {
        assert(ident_len(text@) == i);
    }
    if i == 0 {
        None
    } else {
        let head = text.substring_char(0, i).to_owned();
        let tail = text.substring_char(i, n).to_owned();
        proof {
            assert(head@ =~= text@.take(i as int));
            assert(tail@ =~= text@.skip(i as int));
        }
        Some((head, tail))
    }
}

/// Whether `c` continues an identifier at position `i`.
fn is_ident_char_exec(c: char, i: usize) -> (r: bool)
    ensures
        r == is_ident_char(c, i as int),
{
    c == '_' || ((c as u32) >= ('A' as u32) && (c as u32) <= ('Z' as u32)) || ((c as u32) >= ('a'
        as u32) && (c as u32) <= ('z' as u32)) || (i > 0 && (c as u32) >= ('0' as u32) && (c
        as u32) <= ('9' as u32))
}

/// Why a path string could not be resolved.
#[derive(Debug, PartialEq, Eq)]
pub enum ResolveError {
    /// `$variable` named a variable the environment does not define.
    MissingVariable { variable: String },
    /// A `$` is not followed by a valid identifier.
    UnableToParseVariable { rest: String },
}

/// The mathematical picture of a [`ResolveError`].
pub enum ResolveErrorModel {
    MissingVariable { variable: Seq<char> },
    UnableToParseVariable { rest: Seq<char> },
}

impl View for ResolveError {
    type V = ResolveErrorModel;

    open spec fn view(&self) -> ResolveErrorModel {
        match self {
            ResolveError::MissingVariable { variable } => ResolveErrorModel::MissingVariable {
                variable: variable@,
            },
            ResolveError::UnableToParseVariable { rest } => (
            ResolveErrorModel::UnableToParseVariable { rest: rest@ }),
        }
    }
}

/// The mathematical picture of a resolution result.
pub open spec fn resolve_result_model(r: Result<String, ResolveError>) -> Result<
    Seq<char>,
    ResolveErrorModel,
> {
    match r {
        Ok(s) => Ok(s@),
        Err(e) => Err(e@),
    }
}

/// How a resolution result `r` can come from the text `s` under the
/// environment `env`, with `prefix` already resolved: text up to the first
/// `$` is kept; the identifier after the `$` (there must be one) is looked
/// up, and some value the environment can return for it replaces both; the
/// rest is resolved the same way. Substituted values are never scanned again.
pub open spec fn resolve_from<F: Fn(&str) -> Option<String>>(
    env: F,
    prefix: Seq<char>,
    s: Seq<char>,
    r: Result<Seq<char>, ResolveErrorModel>,
) -> bool
    decreases s.len(),
    via resolve_from_decreases::<F>
{
    match find_char_spec(s, '$') {
        None => r == Ok::<Seq<char>, ResolveErrorModel>(prefix + s),
        Some(d) => {
            let tail = s.skip(d + 1);
            let l = ident_len(tail);
            if l == 0 {
                r == Err::<Seq<char>, ResolveErrorModel>(
                    ResolveErrorModel::UnableToParseVariable { rest: s.skip(d) },
                )
            } else {
                let variable = tail.take(l);
                let rest = tail.skip(l);
                ||| ((exists|arg: &str|
                    (#[trigger] call_ensures(env, (arg,), None::<String>)) && arg@ == variable)
                    && r == Err::<Seq<char>, ResolveErrorModel>(
                    ResolveErrorModel::MissingVariable { variable },
                ))
                ||| (exists|arg: &str, value: String|
                    {
                        &&& #[trigger] call_ensures(env, (arg,), Some(value))
                        &&& arg@ == variable
                        &&& resolve_from(env, prefix + s.take(d) + value@, rest, r)
                    })
            }
        },
    }
}

#[via_fn]
proof fn resolve_from_decreases<F: Fn(&str) -> Option<String>>(
    env: F,
    prefix: Seq<char>,
    s: Seq<char>,
    r: Result<Seq<char>, ResolveErrorModel>,
) {
    lemma_find_char_spec(s, '$');
    match find_char_spec(s, '$') {
        Some(d) => {
            lemma_ident_end_from(s.skip(d + 1), 0);
        },
        None => {},
    }
}

/// How a resolution result can come from a text: resolution from a clean
/// slate.
pub open spec fn resolve_rel<F: Fn(&str) -> Option<String>>(
    env: F,
    s: Seq<char>,
    r: Result<Seq<char>, ResolveErrorModel>,
) -> bool {
    resolve_from(env, Seq::<char>::empty(), s, r)
}

/// Substitute every `$identifier` in `raw` by what `get_env` returns for it,
/// left to right, never rescanning substituted values. The result stands in
/// `resolve_rel` to the input: text up to each `$` is kept as it is; an
/// undefined variable fails with `MissingVariable`, a `$` without an
/// identifier with `UnableToParseVariable`; a text without `$` comes back
/// unchanged.
pub fn resolve_path<F: Fn(&str) -> Option<String>>(raw: &str, get_env: F) -> (r: Result<
    String,
    ResolveError,
>)
    requires
        forall|arg: &str| #[trigger] call_requires(get_env, (arg,)),
    ensures
        resolve_rel(get_env, raw@, resolve_result_model(r)),
{
    let mut resolved = String::new();
    let mut unprocessed = raw.to_owned();
    loop
        invariant
            forall|arg: &str| #[trigger] call_requires(get_env, (arg,)),
            forall|rr: Result<Seq<char>, ResolveErrorModel>| #[trigger]
                resolve_from(get_env, resolved@, unprocessed@, rr) ==> resolve_from(
                get_env,
                Seq::<char>::empty(),
                raw@,
                rr,
            ),
        decreases unprocessed@.len(),
    {
        let d = match find_char(unprocessed.as_str(), '$') {
            None => {
                let mut out = resolved;
                let ghost pre = out@;
                out.append(unprocessed.as_str());
                proof {
                    assert(resolve_from(
                        get_env,
                        pre,
                        unprocessed@,
                        Ok::<Seq<char>, ResolveErrorModel>(out@),
                    ));
                }
                return Ok(out);
            },
            Some(d) => d,
        };
        proof {
            lemma_find_char_spec(unprocessed@, '$');
        }
        let n = unprocessed.as_str().unicode_len();
        let tail = unprocessed.as_str().substring_char(d + 1, n);
        proof {
            assert(tail@ =~= unprocessed@.skip(d + 1));
        }
        match parse_identifier(tail) {
            None => {
                let rest_text = unprocessed.as_str().substring_char(d, n).to_owned();
                proof {
                    assert(rest_text@ =~= unprocessed@.skip(d as int));
                    assert(resolve_from(
                        get_env,
                        resolved@,
                        unprocessed@,
                        Err::<Seq<char>, ResolveErrorModel>(
                            ResolveErrorModel::UnableToParseVariable { rest: rest_text@ },
                        ),
                    ));
                }
                return Err(ResolveError::UnableToParseVariable { rest: rest_text });
            },
            Some(parts) => {
                let variable = parts.0;
                let rest = parts.1;
                let var_ref = variable.as_str();
                let looked_up = get_env(var_ref);
                match looked_up {
                    None => {
                        proof {
                            assert(call_ensures(get_env, (var_ref,), None::<String>));
                            assert(resolve_from(
                                get_env,
                                resolved@,
                                unprocessed@,
                                Err::<Seq<char>, ResolveErrorModel>(
                                    ResolveErrorModel::MissingVariable { variable: variable@ },
                                ),
                            ));
                        }
                        return Err(ResolveError::MissingVariable { variable });
                    },
                    Some(value) => {
                        let ghost old_resolved = resolved@;
                        let ghost old_unprocessed = unprocessed@;
                        let head = unprocessed.as_str().substring_char(0, d);
                        proof {
                            assert(head@ =~= old_unprocessed.take(d as int));
                        }
                        resolved.append(head);
                        resolved.append(value.as_str());
                        unprocessed = rest;
                        proof {
                            let dd = d as int;
                            let tail_seq = old_unprocessed.skip(dd + 1);
                            let l = ident_len(tail_seq);
                            lemma_ident_end_from(tail_seq, 0);
                            assert(unprocessed@ == tail_seq.skip(l));
                            assert(resolved@ =~= (old_resolved + old_unprocessed.take(dd))
                                + value@);
                            assert(resolved@ =~= old_resolved + old_unprocessed.take(dd) + value@);
                            assert(call_ensures(get_env, (var_ref,), Some(value)));
                            assert(var_ref@ == tail_seq.take(l));
                            assert forall|rr: Result<Seq<char>, ResolveErrorModel>| #[trigger]
                                resolve_from(get_env, resolved@, unprocessed@, rr) implies
                                resolve_from(get_env, Seq::<char>::empty(), raw@, rr) by {
                                assert(resolve_from(
                                    get_env,
                                    old_resolved + old_unprocessed.take(dd) + value@,
                                    tail_seq.skip(l),
                                    rr,
                                ));
                                assert(resolve_from(get_env, old_resolved, old_unprocessed, rr));
                            }
                        }
                    },
                }
            },
        }
    }
}

/// A text without `$` admits exactly one resolution: itself.
pub proof fn lemma_resolve_no_dollar<F: Fn(&str) -> Option<String>>(
    env: F,
    s: Seq<char>,
    r: Result<Seq<char>, ResolveErrorModel>,
)
    requires
        find_char_spec(s, '$') is None,
        resolve_rel(env, s, r),
    ensures
        r == Ok::<Seq<char>, ResolveErrorModel>(s),
{
    assert(Seq::<char>::empty() + s =~= s);
}

/// Every backslash turned into a forward slash.
pub open spec fn separators_normalized(s: Seq<char>) -> Seq<char> {
    s.map_values(|c: char| if c == '\\' { '/' } else { c })
}

/// The part of `path` below `root`: the suffix after the root prefix, minus
/// one leading separator if present.
pub open spec fn relative_to(root: Seq<char>, path: Seq<char>) -> Seq<char> {
    let suffix = path.skip(root.len() as int);
    if suffix.len() > 0 && (suffix[0] == '/' || suffix[0] == '\\') {
        suffix.skip(1)
    } else {
        suffix
    }
}

/// Relies on `str::replace`: every occurrence of the pattern replaced; with a
/// one-character pattern and replacement this maps characters one for one.
#[verifier::external_body]
fn replace_backslashes(s: &str) -> (r: String)
    ensures
        r@ == separators_normalized(s@),
{
    s.replace('\\', "/")
}

/// The path relative to `root`, with every path separator written `/`
/// whatever the host wrote. Callers hand in only paths that lie below the
/// root.
pub fn normalize_path(root: &str, path: &str) -> (r: String)
    requires
        path@.len() >= root@.len(),
        path@.take(root@.len() as int) == root@,
    ensures
        r@ == separators_normalized(relative_to(root@, path@)),
{
    let rn = root.unicode_len();
    let n = path.unicode_len();
    let suffix = path.substring_char(rn, n);
    proof {
        assert(suffix@ =~= path@.skip(rn as int));
    }
    let stripped = if suffix.unicode_len() > 0 && (suffix.get_char(0) == '/' || suffix.get_char(0)
        == '\\') {
        let m = suffix.unicode_len();
        let s = suffix.substring_char(1, m);
        proof {
            assert(s@ =~= suffix@.skip(1));
        }
        s
    } else {
        suffix
    };
    replace_backslashes(stripped)
}

/// The text a quoted string literal's source form denotes: what stands
/// between the surrounding double quotes.
pub fn unwrap_string_literal(repr: &str) -> (r: String)
    requires
        repr@.len() >= 2,
        repr@.first() == '"',
        repr@.last() == '"',
    ensures
        r@ == repr@.subrange(1, repr@.len() - 1),
{
    let n = repr.unicode_len();
    repr.substring_char(1, n - 1).to_owned()
}

} // verus!
