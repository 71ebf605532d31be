//! The local chat-completions endpoint's request handling: model names,
//! fan-out selection, and the routing of a request.

use vstd::prelude::*;

use crate::leecher::{fanout_named, CompletionResult, Fanout};
use crate::text::{
    chars_of, find_chars, first_match, has_prefix, matches_at, lower, starts_with, string_of, trim, trim_chars,
};
use crate::types::{model_key, opt_view, ModelId};

verus! {

/// The model named by `name@quant` (split at the first `@`), or by `name`.
#[verifier::opaque]
pub open spec fn model_named(s: Seq<char>) -> (Seq<char>, Option<Seq<char>>) {
    match first_match(s, seq!['@']) {
        Some(i) => (s.take(i), Some(s.skip(i + 1))),
        None => (s, None),
    }
}

/// Parsing a model's key gives the model back: `parse_model` undoes
/// `ModelId::key` for a name without `@` (an empty quant reads back as none).
pub proof fn lemma_model_key_roundtrip(name: Seq<char>, quant: Option<Seq<char>>)
    requires
        !name.contains('@'),
    ensures
        model_named(model_key(name, quant)) == (name, match quant {
            Some(q) => if q.len() > 0 {
                Some(q)
            } else {
                None::<Seq<char>>
            },
            None => None::<Seq<char>>,
        }),
{
    reveal(model_named);
    reveal(first_match);
    let k = model_key(name, quant);
    let at = seq!['@'];
    if quant is Some && quant->0.len() > 0 {
        let q = quant->0;
        let n = name.len() as int;
        assert(k == name + at + q);
        assert(k.subrange(n, n + 1) =~= at);
        assert(matches_at(k, at, n));
        assert forall|j: int| 0 <= j < n implies !#[trigger] matches_at(k, at, j) by {
            if matches_at(k, at, j) {
                assert(k.subrange(j, j + 1)[0] == k[j]);
                assert(k[j] == name[j]);
                assert(name.contains(name[j]));
            }
        }
        let i = choose|i: int| matches_at(k, at, i) && forall|j: int| 0 <= j < i ==> !matches_at(k, at, j);
        assert(matches_at(k, at, i) && forall|j: int| 0 <= j < i ==> !matches_at(k, at, j));
        assert(i == n);
        assert(k.take(n) =~= name);
        assert(k.skip(n + 1) =~= q);
    } else {
        assert(k == name);
        assert forall|i: int| !#[trigger] matches_at(k, at, i) by {
            if matches_at(k, at, i) {
                assert(k.subrange(i, i + 1)[0] == k[i]);
                assert(name.contains(name[i]));
            }
        }
    }
}

fn span_text(v: &Vec<char>, a: usize, b: usize) -> (r: String)
    requires
        a <= b <= v@.len(),
    ensures
        r@ == v@.subrange(a as int, b as int),
{
    let mut out: Vec<char> = Vec::new();
    let mut k: usize = a;
    while k < b
        invariant
            a <= k <= b,
            b <= v@.len(),
            out@ == v@.subrange(a as int, k as int),
        decreases b - k,
    {
        out.push(v[k]);
        k = k + 1;
        assert(out@ =~= v@.subrange(a as int, k as int));
    }
    string_of(out.as_slice())
}

fn model_at(v: &Vec<char>, i: usize) -> (r: ModelId)
    requires
        i < v@.len(),
    ensures
        r.name@ == v@.take(i as int),
        opt_view(r.quant) == Some(v@.skip(i + 1)),
{
    let n: usize = v.len();
    let name = span_text(v, 0, i);
    let quant = span_text(v, i + 1, n);
    assert(v@.subrange(0, i as int) =~= v@.take(i as int));
    assert(v@.subrange(i + 1, v@.len() as int) =~= v@.skip(i + 1));
    ModelId { name, quant: Some(quant) }
}

/// Parse `name` or `name@quant` into a model identity.
pub fn parse_model(s: &str) -> (r: ModelId)
    ensures
        r.name@ == model_named(s@).0,
        opt_view(r.quant) == model_named(s@).1,
{
    let v = chars_of(s);
    let at = vec!['@'];
    let found = find_chars(v.as_slice(), at.as_slice());
    proof {
        assert(at@ =~= seq!['@']);
        reveal(model_named);
    }
    match found {
        Some(i) => {
            assert(i < v@.len()) by {
                reveal(crate::text::matches_at);
            }
            model_at(&v, i)
        },
        None => ModelId { name: s.to_owned(), quant: None },
    }
}

/// The fan-out mode a model-name prefix selects, with the rest of the name
/// trimmed; `None` and the whole name when no prefix matches.
pub open spec fn model_prefix(m: Seq<char>) -> (Option<Fanout>, Seq<char>) {
    if starts_with(m, "racing:"@) {
        (Some(Fanout::Racing), trim(m.skip(7)))
    } else if starts_with(m, "race:"@) {
        (Some(Fanout::Racing), trim(m.skip(5)))
    } else if starts_with(m, "quorum:"@) {
        (Some(Fanout::Quorum), trim(m.skip(7)))
    } else if starts_with(m, "vote:"@) {
        (Some(Fanout::Quorum), trim(m.skip(5)))
    } else if starts_with(m, "ensemble:"@) {
        (Some(Fanout::Ensemble), trim(m.skip(9)))
    } else if starts_with(m, "moa:"@) {
        (Some(Fanout::Ensemble), trim(m.skip(4)))
    } else if starts_with(m, "single:"@) {
        (Some(Fanout::Single), trim(m.skip(7)))
    } else {
        (None, m)
    }
}

/// A model name's prefix selects the mode its word names: a name starting
/// with a mode word and `:` selects what that word parses to as a mode on its
/// own (`ensemble:` selects what `Fanout::parse("ensemble")` gives), with the
/// rest of the name, trimmed, as the model.
pub proof fn lemma_prefix_selects_named_mode(m: Seq<char>)
    ensures
        starts_with(m, "racing:"@) ==> model_prefix(m) == (fanout_named("racing"@), trim(m.skip(7))),
        starts_with(m, "race:"@) ==> model_prefix(m) == (fanout_named("race"@), trim(m.skip(5))),
        starts_with(m, "quorum:"@) ==> model_prefix(m) == (fanout_named("quorum"@), trim(m.skip(7))),
        starts_with(m, "vote:"@) ==> model_prefix(m) == (fanout_named("vote"@), trim(m.skip(5))),
        starts_with(m, "ensemble:"@) ==> model_prefix(m) == (fanout_named("ensemble"@), trim(m.skip(9))),
        starts_with(m, "moa:"@) ==> model_prefix(m) == (fanout_named("moa"@), trim(m.skip(4))),
        starts_with(m, "single:"@) ==> model_prefix(m) == (fanout_named("single"@), trim(m.skip(7))),
{
    reveal_strlit("racing:");
    reveal_strlit("racing");
    reveal_strlit("race:");
    reveal_strlit("race");
    reveal_strlit("quorum:");
    reveal_strlit("quorum");
    reveal_strlit("vote:");
    reveal_strlit("vote");
    reveal_strlit("ensemble:");
    reveal_strlit("ensemble");
    reveal_strlit("moa:");
    reveal_strlit("moa");
    reveal_strlit("single:");
    reveal_strlit("single");
    reveal_strlit("single");
    reveal_strlit("off");
    reveal_strlit("first");
    reveal_strlit("fastest");
    reveal_strlit("redundant");
    reveal_strlit("all");
    if starts_with(m, "racing:"@) {
        lemma_prefix_char(m, "racing:"@, 0);
        assert("racing"@[0] == 'r');
    }
    if starts_with(m, "race:"@) {
        lemma_prefix_char(m, "race:"@, 0);
        if starts_with(m, "racing:"@) {
            lemma_prefix_char(m, "racing:"@, 4);
            lemma_prefix_char(m, "race:"@, 4);
        }
        assert("race"@[0] == 'r');
    }
    if starts_with(m, "quorum:"@) {
        lemma_prefix_char(m, "quorum:"@, 0);
        if starts_with(m, "racing:"@) {
            lemma_prefix_char(m, "racing:"@, 0);
        }
        if starts_with(m, "race:"@) {
            lemma_prefix_char(m, "race:"@, 0);
        }
        assert("quorum"@[0] == 'q');
    }
    if starts_with(m, "vote:"@) {
        lemma_prefix_char(m, "vote:"@, 0);
        if starts_with(m, "racing:"@) {
            lemma_prefix_char(m, "racing:"@, 0);
        }
        if starts_with(m, "race:"@) {
            lemma_prefix_char(m, "race:"@, 0);
        }
        if starts_with(m, "quorum:"@) {
            lemma_prefix_char(m, "quorum:"@, 0);
        }
        assert("vote"@[0] == 'v');
    }
    if starts_with(m, "ensemble:"@) {
        lemma_prefix_char(m, "ensemble:"@, 0);
        if starts_with(m, "racing:"@) {
            lemma_prefix_char(m, "racing:"@, 0);
        }
        if starts_with(m, "race:"@) {
            lemma_prefix_char(m, "race:"@, 0);
        }
        if starts_with(m, "quorum:"@) {
            lemma_prefix_char(m, "quorum:"@, 0);
        }
        if starts_with(m, "vote:"@) {
            lemma_prefix_char(m, "vote:"@, 0);
        }
        assert("ensemble"@[0] == 'e');
    }
    if starts_with(m, "moa:"@) {
        lemma_prefix_char(m, "moa:"@, 0);
        if starts_with(m, "racing:"@) {
            lemma_prefix_char(m, "racing:"@, 0);
        }
        if starts_with(m, "race:"@) {
            lemma_prefix_char(m, "race:"@, 0);
        }
        if starts_with(m, "quorum:"@) {
            lemma_prefix_char(m, "quorum:"@, 0);
        }
        if starts_with(m, "vote:"@) {
            lemma_prefix_char(m, "vote:"@, 0);
        }
        if starts_with(m, "ensemble:"@) {
            lemma_prefix_char(m, "ensemble:"@, 0);
        }
        assert("moa"@[0] == 'm');
    }
    if starts_with(m, "single:"@) {
        lemma_prefix_char(m, "single:"@, 0);
        if starts_with(m, "racing:"@) {
            lemma_prefix_char(m, "racing:"@, 0);
        }
        if starts_with(m, "race:"@) {
            lemma_prefix_char(m, "race:"@, 0);
        }
        if starts_with(m, "quorum:"@) {
            lemma_prefix_char(m, "quorum:"@, 0);
        }
        if starts_with(m, "vote:"@) {
            lemma_prefix_char(m, "vote:"@, 0);
        }
        if starts_with(m, "ensemble:"@) {
            lemma_prefix_char(m, "ensemble:"@, 0);
        }
        if starts_with(m, "moa:"@) {
            lemma_prefix_char(m, "moa:"@, 0);
        }
        assert("single"@[0] == 's');
    }
}

/// A text that starts with `p` carries `p`'s characters at `p`'s positions.
proof fn lemma_prefix_char(m: Seq<char>, p: Seq<char>, i: int)
    requires
        starts_with(m, p),
        0 <= i < p.len(),
    ensures
        m[i] == p[i],
{
    assert(m.subrange(0, p.len() as int)[i] == m[i]);
}

fn strip_mode(v: &Vec<char>, pfx: &str) -> (r: Option<String>)
    ensures
        starts_with(v@, pfx@) ==> (r matches Some(rest) && rest@ == trim(v@.skip(pfx@.len() as int))),
        !starts_with(v@, pfx@) ==> r is None,
{
    let p = chars_of(pfx);
    if !has_prefix(v.as_slice(), p.as_slice()) {
        return None;
    }
    let mut rest: Vec<char> = Vec::new();
    let mut k: usize = p.len();
    while k < v.len()
        invariant
            p@.len() <= k <= v@.len(),
            rest@ == v@.subrange(p@.len() as int, k as int),
        decreases v@.len() - k,
    {
        rest.push(v[k]);
        k = k + 1;
        assert(rest@ =~= v@.subrange(p@.len() as int, k as int));
    }
    assert(rest@ =~= v@.skip(p@.len() as int));
    Some(string_of(trim_chars(rest.as_slice()).as_slice()))
}

/// Resolve a fan-out mode from a model-name prefix shortcut (`race:llama3`,
/// `quorum:...`, `ensemble:...`), so that any client can select one.
pub fn split_model_prefix(model: &str) -> (r: (Option<Fanout>, String))
    ensures
        r.0 == model_prefix(model@).0,
        r.1@ == model_prefix(model@).1,
{
    let v = chars_of(model);
    proof {
        reveal_strlit("racing:");
        reveal_strlit("race:");
        reveal_strlit("quorum:");
        reveal_strlit("vote:");
        reveal_strlit("ensemble:");
        reveal_strlit("moa:");
        reveal_strlit("single:");
    }
    if let Some(rest) = strip_mode(&v, "racing:") {
        return (Some(Fanout::Racing), rest);
    }
    if let Some(rest) = strip_mode(&v, "race:") {
        return (Some(Fanout::Racing), rest);
    }
    if let Some(rest) = strip_mode(&v, "quorum:") {
        return (Some(Fanout::Quorum), rest);
    }
    if let Some(rest) = strip_mode(&v, "vote:") {
        return (Some(Fanout::Quorum), rest);
    }
    if let Some(rest) = strip_mode(&v, "ensemble:") {
        return (Some(Fanout::Ensemble), rest);
    }
    if let Some(rest) = strip_mode(&v, "moa:") {
        return (Some(Fanout::Ensemble), rest);
    }
    if let Some(rest) = strip_mode(&v, "single:") {
        return (Some(Fanout::Single), rest);
    }
    (None, model.to_owned())
}

/// How many peers a fan-out asks for when the request does not say.
pub const DEFAULT_FANOUT_COUNT: u32 = 3;

/// How a chat request is served.
#[derive(Debug, Clone, Copy, PartialEq, Eq, Structural)]
pub enum Route {
    /// several providers, one answer or all of them, not streamed
    FanOut,
    /// one provider, streamed as server-sent events
    Stream,
    /// one provider, one response
    Single,
}

/// The resolved handling of a chat request.
#[derive(Debug)]
pub struct ChatPlan {
    pub mode: Fanout,
    pub count: u32,
    pub model: ModelId,
    /// the model name as echoed back (prefix removed)
    pub model_name: String,
    pub route: Route,
}

/// The mode a request selects: the explicit `fanout` field when it parses,
/// else the model-name prefix, else single.
pub open spec fn chosen_mode(fanout: Option<Seq<char>>, prefix: Option<Fanout>) -> Fanout {
    match (
        match fanout {
            Some(f) => fanout_named(lower(trim(f))),
            None => None,
        },
        prefix,
    ) {
        (Some(m), _) => m,
        (None, Some(m)) => m,
        (None, None) => Fanout::Single,
    }
}

/// Resolve how a chat request is served.
pub fn plan_chat(model: &str, fanout: Option<&str>, fanout_count: Option<u32>, stream: Option<
    bool,
>) -> (p: ChatPlan)
    ensures
        p.mode == chosen_mode(
            match fanout {
                Some(f) => Some(f@),
                None => None,
            },
            model_prefix(model@).0,
        ),
        p.count == match fanout_count {
            Some(c) => c,
            None => DEFAULT_FANOUT_COUNT,
        },
        p.model_name@ == model_prefix(model@).1,
        p.model.name@ == model_named(model_prefix(model@).1).0,
        opt_view(p.model.quant) == model_named(model_prefix(model@).1).1,
        p.route == if p.mode != Fanout::Single {
            Route::FanOut
        } else if stream == Some(true) {
            Route::Stream
        } else {
            Route::Single
        },
{
    let (prefix_mode, clean) = split_model_prefix(model);
    let explicit = match fanout {
        Some(f) => Fanout::parse(f),
        None => None,
    };
    let mode = match explicit {
        Some(m) => m,
        None => match prefix_mode {
            Some(m) => m,
            None => Fanout::Single,
        },
    };
    let count = match fanout_count {
        Some(c) => c,
        None => DEFAULT_FANOUT_COUNT,
    };
    let parsed = parse_model(clean.as_str());
    let route = if mode != Fanout::Single {
        Route::FanOut
    } else if stream == Some(true) {
        Route::Stream
    } else {
        Route::Single
    };
    ChatPlan { mode, count, model: parsed, model_name: clean, route }
}

/// The sum of the token counts of some completions.
pub open spec fn total_tokens(s: Seq<CompletionResult>) -> nat
    decreases s.len(),
{
    if s.len() == 0 {
        0
    } else {
        total_tokens(s.drop_last()) + s.last().cumulative_tokens as nat
    }
}

/// The completion tokens reported for a set of choices.
pub fn usage_tokens(choices: &Vec<CompletionResult>) -> (r: u64)
    requires
        total_tokens(choices@) <= u64::MAX,
    ensures
        r == total_tokens(choices@),
{
    let mut t: u64 = 0;
    let mut i: usize = 0;
    while i < choices.len()
        invariant
            i <= choices@.len(),
            total_tokens(choices@) <= u64::MAX,
            t == total_tokens(choices@.subrange(0, i as int)),
        decreases choices@.len() - i,
    {
        proof {
            assert(choices@.subrange(0, i + 1).drop_last() =~= choices@.subrange(0, i as int));
            lemma_total_prefix(choices@, i + 1);
        }
        t = t + choices[i].cumulative_tokens;
        i = i + 1;
    }
    assert(choices@.subrange(0, choices@.len() as int) =~= choices@);
    t
}

/// Whether the token counts of some choices sum within `u64`.
pub fn total_tokens_fit(choices: &Vec<CompletionResult>) -> (r: bool)
    ensures
        r == (total_tokens(choices@) <= u64::MAX),
{
    let mut t: u64 = 0;
    let mut i: usize = 0;
    while i < choices.len()
        invariant
            i <= choices@.len(),
            t == total_tokens(choices@.subrange(0, i as int)),
        decreases choices@.len() - i,
    {
        proof {
            assert(choices@.subrange(0, i + 1).drop_last() =~= choices@.subrange(0, i as int));
        }
        match t.checked_add(choices[i].cumulative_tokens) {
            Some(n) => {
                t = n;
            },
            None => {
                proof {
                    lemma_total_prefix(choices@, i + 1);
                }
                return false;
            },
        }
        i = i + 1;
    }
    assert(choices@.subrange(0, choices@.len() as int) =~= choices@);
    true
}

proof fn lemma_total_prefix(s: Seq<CompletionResult>, k: int)
    requires
        0 <= k <= s.len(),
    ensures
        total_tokens(s.subrange(0, k)) <= total_tokens(s),
    decreases s.len() - k,
{
    if k < s.len() {
        lemma_total_prefix(s, k + 1);
        assert(s.subrange(0, k + 1).drop_last() =~= s.subrange(0, k));
    } else {
        assert(s.subrange(0, k) =~= s);
    }
}

/// Lexicographic order of texts by code point (the order of `String`).
pub open spec fn text_lt(a: Seq<char>, b: Seq<char>) -> bool
    decreases a.len(),
{
    if a.len() == 0 {
        b.len() > 0
    } else if b.len() == 0 {
        false
    } else if a[0] != b[0] {
        a[0] < b[0]
    } else {
        text_lt(a.drop_first(), b.drop_first())
    }
}

proof fn lemma_text_lt_irreflexive(a: Seq<char>)
    ensures
        !text_lt(a, a),
    decreases a.len(),
{
    if a.len() > 0 {
        lemma_text_lt_irreflexive(a.drop_first());
    }
}

proof fn lemma_text_lt_transitive(a: Seq<char>, b: Seq<char>, c: Seq<char>)
    requires
        text_lt(a, b),
        text_lt(b, c),
    ensures
        text_lt(a, c),
    decreases a.len(),
{
    if a.len() > 0 && b.len() > 0 && c.len() > 0 && a[0] == b[0] && b[0] == c[0] {
        lemma_text_lt_transitive(a.drop_first(), b.drop_first(), c.drop_first());
    }
}

proof fn lemma_text_lt_total(a: Seq<char>, b: Seq<char>)
    requires
        a != b,
    ensures
        text_lt(a, b) || text_lt(b, a),
    decreases a.len(),
{
    if a.len() > 0 && b.len() > 0 && a[0] == b[0] {
        if a.drop_first() == b.drop_first() {
            assert(a =~= seq![a[0]] + a.drop_first());
            assert(b =~= seq![b[0]] + b.drop_first());
        }
        lemma_text_lt_total(a.drop_first(), b.drop_first());
    } else if a.len() == 0 && b.len() == 0 {
        assert(a =~= b);
    }
}

fn chars_lt(a: &[char], b: &[char]) -> (r: bool)
    ensures
        r == text_lt(a@, b@),
{
    let mut i: usize = 0;
    assert(a@.skip(0) =~= a@);
    assert(b@.skip(0) =~= b@);
    while i < a.len() && i < b.len() && a[i] == b[i]
        invariant
            i <= a@.len(),
            i <= b@.len(),
            text_lt(a@, b@) == text_lt(a@.skip(i as int), b@.skip(i as int)),
        decreases a@.len() - i,
    {
        assert(a@.skip(i as int).drop_first() =~= a@.skip(i + 1));
        assert(b@.skip(i as int).drop_first() =~= b@.skip(i + 1));
        i = i + 1;
    }
    if i == a.len() {
        i < b.len()
    } else if i == b.len() {
        false
    } else {
        a[i] < b[i]
    }
}

/// The texts are in strictly increasing order.
pub open spec fn strictly_sorted(s: Seq<String>) -> bool {
    forall|i: int, j: int| 0 <= i < j < s.len() ==> text_lt((#[trigger] s[i])@, (#[trigger] s[j])@)
}

/// `t` is among the texts of `s`.
pub open spec fn has_text(s: Seq<String>, t: Seq<char>) -> bool {
    exists|i: int| 0 <= i < s.len() && (#[trigger] s[i])@ == t
}

/// The model list served to clients: every key once, in ascending order.
pub fn model_list(keys: &Vec<String>) -> (r: Vec<String>)
    ensures
        strictly_sorted(r@),
        forall|t: Seq<char>| has_text(r@, t) <==> has_text(keys@, t),
{
    let mut out: Vec<String> = Vec::new();
    let mut k: usize = 0;
    while k < keys.len()
        invariant
            k <= keys@.len(),
            strictly_sorted(out@),
            forall|t: Seq<char>| has_text(out@, t) <==> has_text(keys@.take(k as int), t),
        decreases keys@.len() - k,
    {
        let key = &keys[k];
        let kc = chars_of(key.as_str());
        let mut p: usize = 0;
        while p < out.len() && chars_lt(chars_of(out[p].as_str()).as_slice(), kc.as_slice())
            invariant
                p <= out@.len(),
                kc@ == key@,
                forall|q: int| 0 <= q < p ==> text_lt((#[trigger] out@[q])@, key@),
            decreases out@.len() - p,
        {
            p = p + 1;
        }
        let ghost before = out@;
        let dup = p < out.len() && crate::text::str_eq(out[p].as_str(), key.as_str());
        if !dup {
            proof {
                if p < out@.len() {
                    lemma_text_lt_total(out@[p as int]@, key@);
                    assert(text_lt(key@, out@[p as int]@));
                }
                assert forall|q: int| p <= q < before.len() implies text_lt(key@, (#[trigger] before[q])@) by {
                    if q > p {
                        lemma_text_lt_transitive(key@, before[p as int]@, before[q]@);
                    }
                }
            }
            out.insert(p, key.clone());
            proof {
                before.insert_ensures(p as int, *key);
                assert forall|i: int, j: int| 0 <= i < j < out@.len() implies text_lt(
                    (#[trigger] out@[i])@,
                    (#[trigger] out@[j])@,
                ) by {
                    if i < p && j < p {
                    } else if i < p && j == p {
                    } else if i < p && j > p {
                        assert(out@[j] == before[j - 1]);
                    } else if i == p {
                        assert(out@[j] == before[j - 1]);
                    } else {
                        assert(out@[i] == before[i - 1] && out@[j] == before[j - 1]);
                    }
                }
            }
        }
        proof {
            if !dup {
                before.insert_ensures(p as int, *key);
            }
            assert(keys@.take(k + 1) =~= keys@.take(k as int).push(keys@[k as int]));
            assert forall|t: Seq<char>| has_text(out@, t) <==> has_text(keys@.take(k + 1), t) by {
                let ks = keys@.take(k + 1);
                if has_text(out@, t) {
                    let i = choose|i: int| 0 <= i < out@.len() && (#[trigger] out@[i])@ == t;
                    if !dup && i == p {
                        assert(ks[k as int]@ == t);
                    } else {
                        let bi = if !dup && i > p { i - 1 } else { i };
                        assert(before[bi]@ == t);
                        assert(has_text(before, t));
                        let m = choose|m: int| 0 <= m < k && (#[trigger] keys@.take(k as int)[m])@ == t;
                        assert(ks[m]@ == t);
                    }
                }
                if has_text(ks, t) {
                    let m = choose|m: int| 0 <= m < ks.len() && (#[trigger] ks[m])@ == t;
                    if m == k {
                        if dup {
                            assert(out@[p as int]@ == t);
                        } else {
                            assert(out@[p as int]@ == t);
                        }
                    } else {
                        assert(keys@.take(k as int)[m]@ == t);
                        assert(has_text(keys@.take(k as int), t));
                        assert(has_text(before, t));
                        let i = choose|i: int| 0 <= i < before.len() && (#[trigger] before[i])@ == t;
                        if !dup && i >= p {
                            assert(out@[i + 1]@ == t);
                        } else {
                            assert(out@[i]@ == t);
                        }
                    }
                }
            }
        }
        k = k + 1;
    }
    assert(keys@.take(keys@.len() as int) =~= keys@);
    out
}

} // verus!
