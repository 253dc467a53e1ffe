//! Argument classification and resolution, and placeholder expansion.
//!
//! A task declares an ordered list of arguments, each with a default value
//! (an empty default means "required"). An invocation supplies raw tokens,
//! which are classified as positional or named, then bound to the declared
//! arguments. The resolved values are substituted for `$name` placeholders
//! in the task's command template, longest name first.

use vstd::prelude::*;

use crate::error::{ErrorView, RunzError};
use crate::text::{first_at, lemma_first_at_found, lemma_first_at_none, matches_at, str_eq};

verus! {

// ---------- Classification ----------

/// A raw token is a named-argument token when it starts with `--`.
pub open spec fn is_named_token(t: Seq<char>) -> bool {
    t.len() >= 2 && t[0] == '-' && t[1] == '-'
}

/// The key of a named token: what stands between `--` and the first `=`.
pub open spec fn named_key(t: Seq<char>) -> Seq<char> {
    match first_at(t, '=', 2) {
        Some(j) => t.subrange(2, j),
        None => t.subrange(2, t.len() as int),
    }
}

/// The supplied value of a named token: what follows the first `=`, or
/// nothing for a bare `--key`.
pub open spec fn named_supplied(t: Seq<char>) -> Option<Seq<char>> {
    match first_at(t, '=', 2) {
        Some(j) => Some(t.subrange(j + 1, t.len() as int)),
        None => None,
    }
}

/// The style of one invocation's raw tokens.
#[derive(Debug)]
pub enum ArgStyle {
    /// Tokens bound to declared arguments by position.
    Positional(Vec<String>),
    /// `--key` or `--key=value` tokens, in the order supplied.
    Named(Vec<(String, Option<String>)>),
    /// No tokens were supplied.
    NoArgs,
}

/// The mathematical shape of an [`ArgStyle`].
pub enum ArgStyleView {
    Positional(Seq<Seq<char>>),
    Named(Seq<(Seq<char>, Option<Seq<char>>)>),
    NoArgs,
}

impl View for ArgStyle {
    type V = ArgStyleView;

    open spec fn view(&self) -> ArgStyleView {
        match self {
            ArgStyle::Positional(v) => ArgStyleView::Positional(v.deep_view()),
            ArgStyle::Named(v) => ArgStyleView::Named(v.deep_view()),
            ArgStyle::NoArgs => ArgStyleView::NoArgs,
        }
    }
}

/// Classification of raw tokens: empty input has no style, mixing positional
/// and named tokens is an error, and otherwise the tokens are all named or
/// all positional.
pub open spec fn classify_spec(raw: Seq<Seq<char>>) -> Result<ArgStyleView, ErrorView> {
    if raw.len() == 0 {
        Ok(ArgStyleView::NoArgs)
    } else if (exists|i: int| 0 <= i < raw.len() && is_named_token(raw[i])) && (exists|i: int|
        0 <= i < raw.len() && !is_named_token(raw[i]))
    {
        Err(ErrorView::MixedArgStyles)
    } else if forall|i: int| 0 <= i < raw.len() ==> is_named_token(raw[i]) {
        Ok(ArgStyleView::Named(raw.map_values(|t: Seq<char>| (named_key(t), named_supplied(t)))))
    } else {
        Ok(ArgStyleView::Positional(raw))
    }
}

/// Whether one raw token is named, by its text.
fn is_named_token_exec(t: &str) -> (r: bool)
    ensures
        r == is_named_token(t@),
{
    t.unicode_len() >= 2 && t.get_char(0) == '-' && t.get_char(1) == '-'
}

/// Split one named token into its key and its supplied value.
fn split_named_token(t: &str) -> (r: (String, Option<String>))
    requires
        is_named_token(t@),
    ensures
        r.0@ == named_key(t@),
        match r.1 {
            Some(v) => named_supplied(t@) == Some(v@),
            None => named_supplied(t@) is None,
        },
{
    let len = t.unicode_len();
    match crate::text::find_char_from(t, '=', 2) {
        Some(j) => {
            proof {
                lemma_first_at_found(t@, '=', 2, j as int);
            }
            let key = String::from_str(t.substring_char(2, j));
            let value = String::from_str(t.substring_char(j + 1, len));
            (key, Some(value))
        },
        None => {
            proof {
                lemma_first_at_none(t@, '=', 2);
            }
            (String::from_str(t.substring_char(2, len)), None)
        },
    }
}

/// Classify the raw invocation tokens as positional, named, or absent.
///
/// Mixing positional and named tokens in one invocation is an error; no
/// partial interpretation is attempted.
pub fn classify_args(raw: &Vec<String>) -> (r: Result<ArgStyle, RunzError>)
    ensures
        match r {
            Ok(st) => classify_spec(raw.deep_view()) == Ok::<ArgStyleView, ErrorView>(st@),
            Err(e) => classify_spec(raw.deep_view()) == Err::<ArgStyleView, ErrorView>(e@),
        },
{
    let ghost rawv = raw.deep_view();
    if raw.len() == 0 {
        proof {
            assert(rawv.len() == 0);
        }
        return Ok(ArgStyle::NoArgs);
    }
    let mut has_named = false;
    let mut has_positional = false;
    let mut i: usize = 0;
    while i < raw.len()
        invariant
            i <= raw.len(),
            rawv == raw.deep_view(),
            rawv.len() == raw.len(),
            has_named == exists|j: int| 0 <= j < i && is_named_token(rawv[j]),
            has_positional == exists|j: int| 0 <= j < i && !is_named_token(rawv[j]),
        decreases raw.len() - i,
    {
        if is_named_token_exec(raw[i].as_str()) {
            proof {
                assert(is_named_token(rawv[i as int]));
            }
            has_named = true;
        } else {
            proof {
                assert(!is_named_token(rawv[i as int]));
            }
            has_positional = true;
        }
        i = i + 1;
    }
    if has_named && has_positional {
        return Err(RunzError::MixedArgStyles);
    }
    if has_named {
        proof {
            assert(forall|j: int| 0 <= j < rawv.len() ==> is_named_token(rawv[j]));
        }
        let mut pairs: Vec<(String, Option<String>)> = Vec::new();
        let mut k: usize = 0;
        while k < raw.len()
            invariant
                k <= raw.len(),
                rawv == raw.deep_view(),
                rawv.len() == raw.len(),
                forall|j: int| 0 <= j < rawv.len() ==> is_named_token(rawv[j]),
                pairs.deep_view() =~= rawv.take(k as int).map_values(
                    |t: Seq<char>| (named_key(t), named_supplied(t)),
                ),
            decreases raw.len() - k,
        {
            let pair = split_named_token(raw[k].as_str());
            pairs.push(pair);
            proof {
                assert(rawv.take(k + 1).map_values(
                    |t: Seq<char>| (named_key(t), named_supplied(t)),
                ) =~= rawv.take(k as int).map_values(
                    |t: Seq<char>| (named_key(t), named_supplied(t)),
                ).push((named_key(rawv[k as int]), named_supplied(rawv[k as int]))));
            }
            k = k + 1;
        }
        proof {
            assert(rawv.take(rawv.len() as int) =~= rawv);
            assert(pairs.deep_view() =~= rawv.map_values(
                |t: Seq<char>| (named_key(t), named_supplied(t)),
            ));
        }
        Ok(ArgStyle::Named(pairs))
    } else {
        proof {
            assert(!is_named_token(rawv[0]));
        }
        let mut toks: Vec<String> = Vec::new();
        let mut k: usize = 0;
        while k < raw.len()
            invariant
                k <= raw.len(),
                rawv == raw.deep_view(),
                rawv.len() == raw.len(),
                toks.deep_view() =~= rawv.take(k as int),
            decreases raw.len() - k,
        {
            toks.push(raw[k].clone());
            proof {
                assert(rawv.take(k + 1) =~= rawv.take(k as int).push(rawv[k as int]));
            }
            k = k + 1;
        }
        proof {
            assert(toks.deep_view() =~= rawv);
        }
        Ok(ArgStyle::Positional(toks))
    }
}

// ---------- Resolution ----------

/// Some declared argument is named `n`.
pub open spec fn has_name(d: Seq<(Seq<char>, Seq<char>)>, n: Seq<char>) -> bool {
    exists|i: int| 0 <= i < d.len() && d[i].0 == n
}

/// Resolution without raw tokens, from declared position `i` on: every
/// declared argument takes its default, and the first empty default fails.
pub open spec fn resolve_none_from(d: Seq<(Seq<char>, Seq<char>)>, i: int) -> Result<
    Seq<(Seq<char>, Seq<char>)>,
    ErrorView,
>
    decreases d.len() - i,
{
    if i < 0 || i >= d.len() {
        Ok(Seq::empty())
    } else if d[i].1.len() == 0 {
        Err(ErrorView::MissingRequiredArg { name: d[i].0 })
    } else {
        match resolve_none_from(d, i + 1) {
            Ok(rest) => Ok(seq![d[i]] + rest),
            Err(e) => Err(e),
        }
    }
}

/// Positional resolution from declared position `i` on: raw tokens bind by
/// declaration order, a declared argument past the supplied tokens falls back
/// to its non-empty default, and the first one without either fails. Surplus
/// tokens beyond the declared arguments are ignored.
pub open spec fn resolve_positional_from(
    d: Seq<(Seq<char>, Seq<char>)>,
    vals: Seq<Seq<char>>,
    i: int,
) -> Result<Seq<(Seq<char>, Seq<char>)>, ErrorView>
    decreases d.len() - i,
{
    if i < 0 || i >= d.len() {
        Ok(Seq::empty())
    } else if i < vals.len() {
        match resolve_positional_from(d, vals, i + 1) {
            Ok(rest) => Ok(seq![(d[i].0, vals[i])] + rest),
            Err(e) => Err(e),
        }
    } else if d[i].1.len() > 0 {
        match resolve_positional_from(d, vals, i + 1) {
            Ok(rest) => Ok(seq![d[i]] + rest),
            Err(e) => Err(e),
        }
    } else {
        Err(ErrorView::MissingRequiredArg { name: d[i].0 })
    }
}

/// The value one declared argument ends up with after the named pairs apply
/// in order: the last pair with the argument's name wins, a supplied value
/// overwrites, and a bare `--key` denotes the default.
pub open spec fn named_value_for(
    default: Seq<char>,
    name: Seq<char>,
    pairs: Seq<(Seq<char>, Option<Seq<char>>)>,
) -> Seq<char>
    decreases pairs.len(),
{
    if pairs.len() == 0 {
        default
    } else if pairs.last().0 == name {
        match pairs.last().1 {
            Some(v) => v,
            None => default,
        }
    } else {
        named_value_for(default, name, pairs.drop_last())
    }
}

/// Every declared argument bound to its final value under the named pairs.
pub open spec fn named_values(
    d: Seq<(Seq<char>, Seq<char>)>,
    pairs: Seq<(Seq<char>, Option<Seq<char>>)>,
) -> Seq<(Seq<char>, Seq<char>)> {
    Seq::new(d.len(), |i: int| (d[i].0, named_value_for(d[i].1, d[i].0, pairs)))
}

/// The key of the first supplied pair, from position `k` on, that does not
/// match any declared argument.
pub open spec fn first_unknown_key_from(
    d: Seq<(Seq<char>, Seq<char>)>,
    pairs: Seq<(Seq<char>, Option<Seq<char>>)>,
    k: int,
) -> Option<Seq<char>>
    decreases pairs.len() - k,
{
    if k < 0 || k >= pairs.len() {
        None
    } else if !has_name(d, pairs[k].0) {
        Some(pairs[k].0)
    } else {
        first_unknown_key_from(d, pairs, k + 1)
    }
}

/// The name of the first binding, from position `i` on, whose value is empty.
pub open spec fn first_empty_from(vals: Seq<(Seq<char>, Seq<char>)>, i: int) -> Option<Seq<char>>
    decreases vals.len() - i,
{
    if i < 0 || i >= vals.len() {
        None
    } else if vals[i].1.len() == 0 {
        Some(vals[i].0)
    } else {
        first_empty_from(vals, i + 1)
    }
}

/// Named resolution: an unknown key fails, then every declared argument takes
/// its final value, and the first one left empty fails.
pub open spec fn resolve_named(
    d: Seq<(Seq<char>, Seq<char>)>,
    pairs: Seq<(Seq<char>, Option<Seq<char>>)>,
) -> Result<Seq<(Seq<char>, Seq<char>)>, ErrorView> {
    match first_unknown_key_from(d, pairs, 0) {
        Some(key) => Err(ErrorView::UnknownArg { name: key }),
        None => match first_empty_from(named_values(d, pairs), 0) {
            Some(name) => Err(ErrorView::MissingRequiredArg { name }),
            None => Ok(named_values(d, pairs)),
        },
    }
}

/// Full resolution of raw tokens against the declared arguments.
pub open spec fn resolve_spec(d: Seq<(Seq<char>, Seq<char>)>, raw: Seq<Seq<char>>) -> Result<
    Seq<(Seq<char>, Seq<char>)>,
    ErrorView,
> {
    match classify_spec(raw) {
        Err(e) => Err(e),
        Ok(ArgStyleView::NoArgs) => resolve_none_from(d, 0),
        Ok(ArgStyleView::Positional(vals)) => resolve_positional_from(d, vals, 0),
        Ok(ArgStyleView::Named(pairs)) => resolve_named(d, pairs),
    }
}

/// A prefix of already-resolved bindings, prepended to the rest of a
/// resolution.
spec fn prepend_result(
    prefix: Seq<(Seq<char>, Seq<char>)>,
    r: Result<Seq<(Seq<char>, Seq<char>)>, ErrorView>,
) -> Result<Seq<(Seq<char>, Seq<char>)>, ErrorView> {
    match r {
        Ok(s) => Ok(prefix + s),
        Err(e) => Err(e),
    }
}

/// Whether any declared argument is named `n`, by the text of the names.
fn has_name_exec(defined: &Vec<(String, String)>, n: &str) -> (r: bool)
    ensures
        r == has_name(defined.deep_view(), n@),
{
    let mut i: usize = 0;
    while i < defined.len()
        invariant
            i <= defined.len(),
            defined.deep_view().len() == defined.len(),
            forall|j: int| 0 <= j < i ==> defined.deep_view()[j].0 != n@,
        decreases defined.len() - i,
    {
        let p = &defined[i];
        if str_eq(p.0.as_str(), n) {
            proof {
                assert(defined.deep_view()[i as int].0 == n@);
            }
            return true;
        }
        i = i + 1;
    }
    false
}

/// The final value of one declared argument under the supplied named pairs.
fn value_for(name: &str, default: &String, pairs: &Vec<(String, Option<String>)>) -> (r: String)
    ensures
        r@ == named_value_for(default@, name@, pairs.deep_view()),
{
    let ghost pv = pairs.deep_view();
    let mut k: usize = pairs.len();
    proof {
        assert(pv.take(pairs.len() as int) =~= pv);
    }
    while k > 0
        invariant
            k <= pairs.len(),
            pv == pairs.deep_view(),
            pv.len() == pairs.len(),
            named_value_for(default@, name@, pv) == named_value_for(
                default@,
                name@,
                pv.take(k as int),
            ),
        decreases k,
    {
        k = k - 1;
        let p = &pairs[k];
        proof {
            assert(pv.take(k + 1).drop_last() =~= pv.take(k as int));
            assert(pv.take(k + 1).last() == pv[k as int]);
        }
        if str_eq(p.0.as_str(), name) {
            match &p.1 {
                Some(v) => {
                    return v.clone();
                },
                None => {
                    return default.clone();
                },
            }
        }
    }
    proof {
        assert(pv.take(0) =~= Seq::<(Seq<char>, Option<Seq<char>>)>::empty());
    }
    default.clone()
}

/// Resolve the raw invocation tokens against a task's declared arguments,
/// producing each declared argument's value in declaration order.
///
/// Positional tokens bind by declaration order; named tokens overwrite the
/// declared defaults, and an unknown named key is rejected. A declared
/// argument left without a non-empty value fails as missing.
pub fn resolve_args(defined: &Vec<(String, String)>, raw: &Vec<String>) -> (r: Result<
    Vec<(String, String)>,
    RunzError,
>)
    ensures
        match r {
            Ok(v) => resolve_spec(defined.deep_view(), raw.deep_view()) == Ok::<
                Seq<(Seq<char>, Seq<char>)>,
                ErrorView,
            >(v.deep_view()),
            Err(e) => resolve_spec(defined.deep_view(), raw.deep_view()) == Err::<
                Seq<(Seq<char>, Seq<char>)>,
                ErrorView,
            >(e@),
        },
{
    let ghost dv = defined.deep_view();
    let style = match classify_args(raw) {
        Ok(st) => st,
        Err(e) => {
            return Err(e);
        },
    };
    match style {
        ArgStyle::NoArgs => {
            let mut out: Vec<(String, String)> = Vec::new();
            let mut i: usize = 0;
            while i < defined.len()
                invariant
                    i <= defined.len(),
                    dv == defined.deep_view(),
                    dv.len() == defined.len(),
                    classify_spec(raw.deep_view()) == Ok::<ArgStyleView, ErrorView>(
                        ArgStyleView::NoArgs,
                    ),
                    resolve_none_from(dv, 0) == prepend_result(
                        out.deep_view(),
                        resolve_none_from(dv, i as int),
                    ),
                decreases defined.len() - i,
            {
                let p = &defined[i];
                if p.1.as_str().is_empty() {
                    return Err(RunzError::MissingRequiredArg { name: p.0.clone() });
                }
                let ghost out_old = out.deep_view();
                out.push((p.0.clone(), p.1.clone()));
                proof {
                    assert(out.deep_view() =~= out_old.push(dv[i as int]));
                    match resolve_none_from(dv, i + 1) {
                        Ok(rest) => {
                            assert(out_old + (seq![dv[i as int]] + rest) =~= out_old.push(
                                dv[i as int],
                            ) + rest);
                        },
                        Err(e) => {},
                    }
                }
                i = i + 1;
            }
            proof {
                assert(out.deep_view() + Seq::<(Seq<char>, Seq<char>)>::empty() =~= out.deep_view());
            }
            Ok(out)
        },
        ArgStyle::Positional(vals) => {
            let ghost vv = vals.deep_view();
            let mut out: Vec<(String, String)> = Vec::new();
            let mut i: usize = 0;
            while i < defined.len()
                invariant
                    i <= defined.len(),
                    dv == defined.deep_view(),
                    dv.len() == defined.len(),
                    vv == vals.deep_view(),
                    vv.len() == vals.len(),
                    classify_spec(raw.deep_view()) == Ok::<ArgStyleView, ErrorView>(
                        ArgStyleView::Positional(vv),
                    ),
                    resolve_positional_from(dv, vv, 0) == prepend_result(
                        out.deep_view(),
                        resolve_positional_from(dv, vv, i as int),
                    ),
                decreases defined.len() - i,
            {
                let p = &defined[i];
                let ghost out_old = out.deep_view();
                if i < vals.len() {
                    out.push((p.0.clone(), vals[i].clone()));
                    proof {
                        assert(out.deep_view() =~= out_old.push((dv[i as int].0, vv[i as int])));
                        match resolve_positional_from(dv, vv, i + 1) {
                            Ok(rest) => {
                                assert(out_old + (seq![(dv[i as int].0, vv[i as int])] + rest)
                                    =~= out_old.push((dv[i as int].0, vv[i as int])) + rest);
                            },
                            Err(e) => {},
                        }
                    }
                } else if !p.1.as_str().is_empty() {
                    out.push((p.0.clone(), p.1.clone()));
                    proof {
                        assert(out.deep_view() =~= out_old.push(dv[i as int]));
                        match resolve_positional_from(dv, vv, i + 1) {
                            Ok(rest) => {
                                assert(out_old + (seq![dv[i as int]] + rest) =~= out_old.push(
                                    dv[i as int],
                                ) + rest);
                            },
                            Err(e) => {},
                        }
                    }
                } else {
                    return Err(RunzError::MissingRequiredArg { name: p.0.clone() });
                }
                i = i + 1;
            }
            proof {
                assert(out.deep_view() + Seq::<(Seq<char>, Seq<char>)>::empty() =~= out.deep_view());
            }
            Ok(out)
        },
        ArgStyle::Named(pairs) => {
            let ghost pv = pairs.deep_view();
            let mut k: usize = 0;
            while k < pairs.len()
                invariant
                    k <= pairs.len(),
                    dv == defined.deep_view(),
                    pv == pairs.deep_view(),
                    pv.len() == pairs.len(),
                    classify_spec(raw.deep_view()) == Ok::<ArgStyleView, ErrorView>(
                        ArgStyleView::Named(pv),
                    ),
                    first_unknown_key_from(dv, pv, 0) == first_unknown_key_from(dv, pv, k as int),
                decreases pairs.len() - k,
            {
                let p = &pairs[k];
                if !has_name_exec(defined, p.0.as_str()) {
                    return Err(RunzError::UnknownArg { name: p.0.clone() });
                }
                k = k + 1;
            }
            let ghost nv = named_values(dv, pv);
            let mut out: Vec<(String, String)> = Vec::new();
            let mut i: usize = 0;
            while i < defined.len()
                invariant
                    i <= defined.len(),
                    dv == defined.deep_view(),
                    dv.len() == defined.len(),
                    pv == pairs.deep_view(),
                    nv == named_values(dv, pv),
                    classify_spec(raw.deep_view()) == Ok::<ArgStyleView, ErrorView>(
                        ArgStyleView::Named(pv),
                    ),
                    first_unknown_key_from(dv, pv, 0) is None,
                    out.deep_view() =~= nv.take(i as int),
                    first_empty_from(nv, 0) == first_empty_from(nv, i as int),
                decreases defined.len() - i,
            {
                let p = &defined[i];
                let v = value_for(p.0.as_str(), &p.1, &pairs);
                if v.as_str().is_empty() {
                    return Err(RunzError::MissingRequiredArg { name: p.0.clone() });
                }
                let ghost out_old = out.deep_view();
                out.push((p.0.clone(), v));
                proof {
                    assert(out.deep_view() =~= out_old.push(nv[i as int]));
                    assert(nv.take(i + 1) =~= nv.take(i as int).push(nv[i as int]));
                }
                i = i + 1;
            }
            proof {
                assert(out.deep_view() =~= nv);
            }
            Ok(out)
        },
    }
}

// ---------- Expansion ----------

/// The declared binding whose name matches at position `i` of the template
/// and is longest; among equally long matches the earliest declared wins.
pub open spec fn best_match(t: Seq<char>, i: int, entries: Seq<(Seq<char>, Seq<char>)>) -> Option<
    (Seq<char>, Seq<char>),
>
    decreases entries.len(),
{
    if entries.len() == 0 {
        None
    } else {
        let e = entries.last();
        match best_match(t, i, entries.drop_last()) {
            None => if matches_at(t, i, e.0) {
                Some(e)
            } else {
                None
            },
            Some(b) => if matches_at(t, i, e.0) && b.0.len() < e.0.len() {
                Some(e)
            } else {
                Some(b)
            },
        }
    }
}

/// What `best_match` picks is a declared binding whose name matches; when it
/// picks nothing, no declared name matches.
pub proof fn lemma_best_match_sound(t: Seq<char>, i: int, entries: Seq<(Seq<char>, Seq<char>)>)
    ensures
        match best_match(t, i, entries) {
            Some(e) => matches_at(t, i, e.0) && exists|k: int|
                0 <= k < entries.len() && entries[k] == e,
            None => forall|k: int| 0 <= k < entries.len() ==> !matches_at(t, i, entries[k].0),
        },
    decreases entries.len(),
{
    if entries.len() > 0 {
        lemma_best_match_sound(t, i, entries.drop_last());
        let prior = entries.drop_last();
        assert(forall|k: int| 0 <= k < prior.len() ==> prior[k] == entries[k]);
        match best_match(t, i, prior) {
            Some(b) => {
                let k0 = choose|k: int| 0 <= k < prior.len() && prior[k] == b;
                assert(entries[k0] == b);
            },
            None => {},
        }
    }
}

/// Longest-name-first: whenever some declared name matches right after the
/// placeholder marker, the expansion picks a matching name at least that
/// long. So a declared name that is a proper prefix of another declared name
/// never swallows part of the longer name's placeholder.
pub proof fn lemma_longest_match_first(
    t: Seq<char>,
    i: int,
    entries: Seq<(Seq<char>, Seq<char>)>,
    k: int,
)
    requires
        0 <= k < entries.len(),
        matches_at(t, i, entries[k].0),
    ensures
        match best_match(t, i, entries) {
            Some(e) => matches_at(t, i, e.0) && e.0.len() >= entries[k].0.len(),
            None => false,
        },
    decreases entries.len(),
{
    lemma_best_match_sound(t, i, entries);
    let prior = entries.drop_last();
    if k < entries.len() - 1 {
        assert(prior[k] == entries[k]);
        lemma_longest_match_first(t, i, prior, k);
    }
}

/// The expansion of the template from position `i` on: at `$`, the longest
/// matching declared name is replaced by its value and scanning resumes past
/// the name (a substituted value is never re-scanned); everything else is
/// copied unchanged.
pub open spec fn expand_from(t: Seq<char>, i: int, entries: Seq<(Seq<char>, Seq<char>)>) -> Seq<
    char,
>
    decreases t.len() - i,
    when 0 <= i <= t.len()
    via expand_from_decreases
{
    if i >= t.len() {
        Seq::empty()
    } else if t[i] == '$' {
        match best_match(t, i + 1, entries) {
            Some(e) => e.1 + expand_from(t, i + 1 + e.0.len(), entries),
            None => seq![t[i]] + expand_from(t, i + 1, entries),
        }
    } else {
        seq![t[i]] + expand_from(t, i + 1, entries)
    }
}

#[via_fn]
proof fn expand_from_decreases(t: Seq<char>, i: int, entries: Seq<(Seq<char>, Seq<char>)>) {
    if 0 <= i < t.len() && t[i] == '$' {
        lemma_best_match_sound(t, i + 1, entries);
    }
}

/// The expansion of a whole template under the resolved bindings.
pub open spec fn expand_spec(t: Seq<char>, entries: Seq<(Seq<char>, Seq<char>)>) -> Seq<char> {
    expand_from(t, 0, entries)
}

/// The index of the longest declared name matching at position `i`, if any.
fn best_match_exec(t: &str, i: usize, entries: &Vec<(String, String)>) -> (r: Option<usize>)
    ensures
        match r {
            Some(k) => k < entries.len() && best_match(t@, i as int, entries.deep_view()) == Some(
                entries.deep_view()[k as int],
            ),
            None => best_match(t@, i as int, entries.deep_view()) is None,
        },
{
    let ghost ev = entries.deep_view();
    let mut best: Option<usize> = None;
    let mut k: usize = 0;
    proof {
        assert(ev.take(0) =~= Seq::<(Seq<char>, Seq<char>)>::empty());
    }
    while k < entries.len()
        invariant
            k <= entries.len(),
            ev == entries.deep_view(),
            ev.len() == entries.len(),
            match best {
                Some(b) => b < k && best_match(t@, i as int, ev.take(k as int)) == Some(
                    ev[b as int],
                ),
                None => best_match(t@, i as int, ev.take(k as int)) is None,
            },
        decreases entries.len() - k,
    {
        let p = &entries[k];
        let is_match = crate::text::contains_at(t, i, p.0.as_str());
        proof {
            assert(ev.take(k + 1).drop_last() =~= ev.take(k as int));
            assert(ev.take(k + 1).last() == ev[k as int]);
        }
        if is_match {
            let replace = match best {
                None => true,
                Some(b) => {
                    let q = &entries[b];
                    q.0.unicode_len() < p.0.unicode_len()
                },
            };
            if replace {
                best = Some(k);
            }
        }
        k = k + 1;
    }
    proof {
        assert(ev.take(entries.len() as int) =~= ev);
    }
    best
}

/// Substitute the resolved argument values for `$name` placeholders in the
/// command template, longest name first; `$` sequences matching no declared
/// name are left untouched, and substituted values are never re-expanded.
pub fn expand_command(cmd: &str, resolved: &Vec<(String, String)>) -> (r: String)
    ensures
        r@ == expand_spec(cmd@, resolved.deep_view()),
{
    let ghost ev = resolved.deep_view();
    let len = cmd.unicode_len();
    let mut out = String::new();
    let mut i: usize = 0;
    while i < len
        invariant
            i <= len,
            len == cmd@.len(),
            ev == resolved.deep_view(),
            expand_from(cmd@, 0, ev) == out@ + expand_from(cmd@, i as int, ev),
        decreases len - i,
    {
        let c = cmd.get_char(i);
        if c == '$' {
            match best_match_exec(cmd, i + 1, resolved) {
                Some(k) => {
                    let p = &resolved[k];
                    proof {
                        lemma_best_match_sound(cmd@, i + 1, ev);
                    }
                    let ghost out_old = out@;
                    out.append(p.1.as_str());
                    let nlen = p.0.unicode_len();
                    proof {
                        match best_match(cmd@, i + 1, ev) {
                            Some(e) => {
                                assert(out_old + (e.1 + expand_from(
                                    cmd@,
                                    i + 1 + e.0.len(),
                                    ev,
                                )) =~= (out_old + e.1) + expand_from(cmd@, i + 1 + e.0.len(), ev));
                            },
                            None => {},
                        }
                    }
                    i = i + 1 + nlen;
                },
                None => {
                    let ghost out_old = out@;
                    out.append(cmd.substring_char(i, i + 1));
                    proof {
                        assert(cmd@.subrange(i as int, i + 1) =~= seq![cmd@[i as int]]);
                        assert(out_old + (seq![cmd@[i as int]] + expand_from(cmd@, i + 1, ev))
                            =~= (out_old + cmd@.subrange(i as int, i + 1)) + expand_from(
                            cmd@,
                            i + 1,
                            ev,
                        ));
                    }
                    i = i + 1;
                },
            }
        } else {
            let ghost out_old = out@;
            out.append(cmd.substring_char(i, i + 1));
            proof {
                assert(cmd@.subrange(i as int, i + 1) =~= seq![cmd@[i as int]]);
                assert(out_old + (seq![cmd@[i as int]] + expand_from(cmd@, i + 1, ev)) =~= (out_old
                    + cmd@.subrange(i as int, i + 1)) + expand_from(cmd@, i + 1, ev));
            }
            i = i + 1;
        }
    }
    proof {
        assert(out@ + expand_from(cmd@, len as int, ev) =~= out@);
    }
    out
}

/// With no raw tokens and every declared argument holding a non-empty
/// default, resolution from position `i` on returns exactly those declared
/// defaults.
proof fn lemma_resolve_none_total(d: Seq<(Seq<char>, Seq<char>)>, i: int)
    requires
        0 <= i <= d.len(),
        forall|j: int| 0 <= j < d.len() ==> d[j].1.len() > 0,
    ensures
        resolve_none_from(d, i) == Ok::<Seq<(Seq<char>, Seq<char>)>, ErrorView>(d.skip(i)),
    decreases d.len() - i,
{
    if i < d.len() {
        lemma_resolve_none_total(d, i + 1);
        assert(seq![d[i]] + d.skip(i + 1) =~= d.skip(i));
    } else {
        assert(d.skip(i) =~= Seq::<(Seq<char>, Seq<char>)>::empty());
    }
}

/// With no raw tokens and every declared argument holding a non-empty
/// default, resolution returns the declared defaults unchanged.
pub proof fn lemma_resolve_no_tokens_defaults(d: Seq<(Seq<char>, Seq<char>)>)
    requires
        forall|j: int| 0 <= j < d.len() ==> d[j].1.len() > 0,
    ensures
        resolve_spec(d, Seq::empty()) == Ok::<Seq<(Seq<char>, Seq<char>)>, ErrorView>(d),
{
    lemma_resolve_none_total(d, 0);
    assert(d.skip(0) =~= d);
}

} // verus!

