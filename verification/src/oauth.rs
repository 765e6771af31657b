//! The OAuth consent page: reading the authorize request from the query
//! string, and what each scope means.

use vstd::prelude::*;
use crate::mail_model::opt_view;
use crate::text::{
    chars_of, concat2, concat3, join, join_strings, lemma_pieces_nonempty, owned, pieces, split_chars, str_eq,
    string_of, views,
};

verus! {

broadcast use vstd::string::group_string_axioms;

/// What a scope of the consent screen allows.
pub open spec fn scope_text(scope: Seq<char>) -> Seq<char> {
    if scope == "files:read"@ {
        "Read your files, folders, gallery, and music"@
    } else if scope == "files:write"@ {
        "Create, upload, rename, and move files and folders"@
    } else if scope == "files:delete"@ {
        "Move files and folders to trash"@
    } else {
        "Unknown scope"@
    }
}

/// What a scope of the consent screen allows.
pub fn scope_description(scope: &str) -> (r: &'static str)
    ensures
        r@ == scope_text(scope@),
{
    if str_eq(scope, "files:read") {
        "Read your files, folders, gallery, and music"
    } else if str_eq(scope, "files:write") {
        "Create, upload, rename, and move files and folders"
    } else if str_eq(scope, "files:delete") {
        "Move files and folders to trash"
    } else {
        "Unknown scope"
    }
}

/// The text that `urlencoding::decode` gives for `s`: percent escapes turned
/// into bytes, read as UTF-8; `None` when the bytes are not UTF-8. Named, not
/// defined here: it is a function of the text alone.
pub uninterp spec fn url_decoded(s: Seq<char>) -> Option<Seq<char>>;

/// Decodes a percent-encoded query value.
///
/// Trusted: calls `urlencoding::decode`. Claimed: the result is `url_decoded`
/// of the input.
#[verifier::external_body]
fn url_decode(s: &str) -> (r: Option<String>)
    ensures
        opt_view(r) == url_decoded(s@),
{
    urlencoding::decode(s).ok().map(|c| c.into_owned())
}

/// `s` without leading `?`s.
pub open spec fn strip_question(s: Seq<char>) -> Seq<char>
    decreases s.len(),
{
    if s.len() > 0 && s[0] == '?' {
        strip_question(s.drop_first())
    } else {
        s
    }
}

/// The part of `s` before its first `=`, or all of it.
pub open spec fn before_eq(s: Seq<char>) -> Seq<char>
    decreases s.len(),
{
    if s.len() == 0 || s[0] == '=' {
        Seq::empty()
    } else {
        seq![s[0]] + before_eq(s.drop_first())
    }
}

/// The part of `s` after its first `=`, or nothing when there is none.
pub open spec fn after_eq(s: Seq<char>) -> Seq<char>
    decreases s.len(),
{
    if s.len() == 0 {
        Seq::empty()
    } else if s[0] == '=' {
        s.drop_first()
    } else {
        after_eq(s.drop_first())
    }
}

/// A query value decoded, or as it stands when decoding fails.
pub open spec fn decoded_value(raw: Seq<char>) -> Seq<char> {
    match url_decoded(raw) {
        Some(d) => d,
        None => raw,
    }
}

/// The index of the first pair with key `k`, or `-1`.
pub open spec fn find_key(map: Seq<(Seq<char>, Seq<char>)>, k: Seq<char>) -> int
    decreases map.len(),
{
    if map.len() == 0 {
        -1
    } else if map[0].0 == k {
        0
    } else {
        let r = find_key(map.drop_first(), k);
        if r < 0 {
            -1
        } else {
            r + 1
        }
    }
}

/// `map` with `k` set to `v`: a present key keeps its place, a new one goes last.
pub open spec fn set_key(map: Seq<(Seq<char>, Seq<char>)>, k: Seq<char>, v: Seq<char>) -> Seq<(Seq<char>, Seq<char>)> {
    let i = find_key(map, k);
    if i < 0 {
        map.push((k, v))
    } else {
        map.update(i, (k, v))
    }
}

/// The pairs of `&`-separated `key=value` parts, set in turn, later ones
/// winning.
pub open spec fn pairs_of(parts: Seq<Seq<char>>) -> Seq<(Seq<char>, Seq<char>)>
    decreases parts.len(),
{
    if parts.len() == 0 {
        Seq::empty()
    } else {
        set_key(pairs_of(parts.drop_last()), before_eq(parts.last()), decoded_value(after_eq(parts.last())))
    }
}

/// The parameters of a query string (`?a=1&b=2`), each key once, in order of
/// first appearance, with the value of its last appearance, decoded.
pub open spec fn query_pairs(search: Seq<char>) -> Seq<(Seq<char>, Seq<char>)> {
    let q = strip_question(search);
    if q.len() == 0 {
        Seq::empty()
    } else {
        pairs_of(pieces(q, '&'))
    }
}

/// The views of a list of pairs.
pub open spec fn pairs_view(v: Seq<(String, String)>) -> Seq<(Seq<char>, Seq<char>)> {
    v.map_values(|p: (String, String)| (p.0@, p.1@))
}

proof fn lemma_find_key(map: Seq<(Seq<char>, Seq<char>)>, k: Seq<char>, i: int)
    requires
        0 <= i <= map.len(),
        forall|j: int| 0 <= j < i ==> (#[trigger] map[j]).0 != k,
    ensures
        i < map.len() && map[i].0 == k ==> find_key(map, k) == i,
        i == map.len() ==> find_key(map, k) == -1,
    decreases i,
{
    if i > 0 {
        assert forall|j: int| 0 <= j < i - 1 implies (#[trigger] map.drop_first()[j]).0 != k by {
            assert(map.drop_first()[j] == map[j + 1]);
        }
        lemma_find_key(map.drop_first(), k, i - 1);
        if i < map.len() {
            assert(map.drop_first()[i - 1] == map[i]);
        }
    }
}

fn split_at_eq(part: &Vec<char>) -> (r: (Vec<char>, Vec<char>))
    ensures
        r.0@ == before_eq(part@),
        r.1@ == after_eq(part@),
{
    let mut key: Vec<char> = Vec::new();
    let mut i: usize = 0;
    assert(part@.skip(0) =~= part@);
    assert(key@ + before_eq(part@) =~= before_eq(part@));
    while i < part.len() && part[i] != '='
        invariant
            i <= part.len(),
            before_eq(part@) == key@ + before_eq(part@.skip(i as int)),
            after_eq(part@) == after_eq(part@.skip(i as int)),
        decreases part.len() - i,
    {
        let ghost rest = part@.skip(i as int);
        assert(rest[0] == part[i as int]);
        assert(rest.drop_first() =~= part@.skip(i + 1));
        key.push(part[i]);
        i = i + 1;
        assert(before_eq(part@) =~= key@ + before_eq(part@.skip(i as int)));
    }
    let mut val: Vec<char> = Vec::new();
    if i < part.len() {
        let ghost rest = part@.skip(i as int);
        assert(rest[0] == '=');
        assert(before_eq(rest) =~= Seq::<char>::empty());
        let mut k: usize = i + 1;
        while k < part.len()
            invariant
                i < part.len(),
                i + 1 <= k <= part.len(),
                val@ == part@.subrange(i + 1, k as int),
            decreases part.len() - k,
        {
            val.push(part[k]);
            k = k + 1;
            assert(val@ =~= part@.subrange(i + 1, k as int));
        }
        assert(rest.drop_first() =~= val@);
    } else {
        assert(part@.skip(i as int) =~= Seq::<char>::empty());
    }
    assert(key@ =~= key@ + Seq::<char>::empty());
    (key, val)
}

fn find_pair(map: &Vec<(String, String)>, key: &String) -> (r: Option<usize>)
    ensures
        match r {
            Some(i) => i < map.len() && find_key(pairs_view(map@), key@) == i,
            None => find_key(pairs_view(map@), key@) == -1,
        },
{
    let ghost mv = pairs_view(map@);
    let mut j: usize = 0;
    while j < map.len()
        invariant
            j <= map.len(),
            mv == pairs_view(map@),
            forall|m: int| 0 <= m < j ==> (#[trigger] mv[m]).0 != key@,
        decreases map.len() - j,
    {
        if map[j].0.eq(key) {
            proof {
                lemma_find_key(mv, key@, j as int);
            }
            return Some(j);
        }
        j = j + 1;
    }
    proof {
        lemma_find_key(mv, key@, j as int);
    }
    None
}

/// Reads the parameters of a query string such as `?client_id=x&scope=y`.
pub fn parse_query_string(search: &str) -> (r: Vec<(String, String)>)
    ensures
        pairs_view(r@) == query_pairs(search@),
{
    let v = chars_of(search);
    let mut s: usize = 0;
    assert(v@.skip(0) =~= v@);
    while s < v.len() && v[s] == '?'
        invariant
            s <= v.len(),
            v@ == search@,
            strip_question(v@) == strip_question(v@.skip(s as int)),
        decreases v.len() - s,
    {
        assert(v@.skip(s as int).drop_first() =~= v@.skip(s + 1));
        s = s + 1;
    }
    let mut q: Vec<char> = Vec::new();
    let mut k: usize = s;
    while k < v.len()
        invariant
            s <= k <= v.len(),
            q@ == v@.subrange(s as int, k as int),
        decreases v.len() - k,
    {
        q.push(v[k]);
        k = k + 1;
        assert(q@ =~= v@.subrange(s as int, k as int));
    }
    assert(q@ =~= v@.skip(s as int));
    let mut out: Vec<(String, String)> = Vec::new();
    if q.len() == 0 {
        assert(pairs_view(out@) =~= Seq::<(Seq<char>, Seq<char>)>::empty());
        return out;
    }
    let parts = split_chars(&q, '&');
    let ghost pv = parts@.map_values(|x: Vec<char>| x@);
    let mut i: usize = 0;
    while i < parts.len()
        invariant
            i <= parts.len(),
            pv == parts@.map_values(|x: Vec<char>| x@),
            pairs_view(out@) == pairs_of(pv.take(i as int)),
        decreases parts.len() - i,
    {
        let (kv, rawv) = split_at_eq(&parts[i]);
        let key = string_of(&kv);
        let raw = string_of(&rawv);
        let val = match url_decode(raw.as_str()) {
            Some(d) => d,
            None => raw,
        };
        assert(pv.take(i + 1).drop_last() =~= pv.take(i as int));
        assert(pv.take(i + 1).last() == pv[i as int]);
        let ghost before = pairs_view(out@);
        let found = find_pair(&out, &key);
        match found {
            Some(j) => {
                out.remove(j);
                out.insert(j, (key, val));
                assert(pairs_view(out@) =~= before.update(j as int, (key@, val@)));
            },
            None => {
                out.push((key, val));
                assert(pairs_view(out@) =~= before.push((key@, val@)));
            },
        }
        i = i + 1;
    }
    assert(pv.take(parts.len() as int) =~= pv);
    out
}

/// No key occurs twice among `pairs`.
pub open spec fn distinct_keys(pairs: Seq<(Seq<char>, Seq<char>)>) -> bool {
    forall|i: int, j: int| 0 <= i < j < pairs.len() ==> (#[trigger] pairs[i]).0 != (#[trigger] pairs[j]).0
}

proof fn lemma_find_key_range(map: Seq<(Seq<char>, Seq<char>)>, k: Seq<char>)
    ensures
        -1 <= find_key(map, k) < map.len(),
        find_key(map, k) >= 0 ==> map[find_key(map, k)].0 == k,
        find_key(map, k) < 0 ==> forall|j: int| 0 <= j < map.len() ==> (#[trigger] map[j]).0 != k,
    decreases map.len(),
{
    if map.len() > 0 && map[0].0 != k {
        lemma_find_key_range(map.drop_first(), k);
        assert forall|j: int| 1 <= j < map.len() implies map[j] == map.drop_first()[j - 1] by {}
    }
}

proof fn lemma_pairs_of_keys(parts: Seq<Seq<char>>)
    ensures
        distinct_keys(pairs_of(parts)),
        forall|i: int| 0 <= i < parts.len() ==> exists|j: int| 0 <= j < pairs_of(parts).len()
            && (#[trigger] pairs_of(parts)[j]).0 == before_eq(#[trigger] parts[i]),
        parts.len() > 0 ==> exists|j: int| 0 <= j < pairs_of(parts).len()
            && pairs_of(parts)[j] == (before_eq(parts.last()), decoded_value(after_eq(parts.last()))),
    decreases parts.len(),
{
    if parts.len() > 0 {
        let t = parts.drop_last();
        let prev = pairs_of(t);
        let k = before_eq(parts.last());
        let v = decoded_value(after_eq(parts.last()));
        lemma_pairs_of_keys(t);
        lemma_find_key_range(prev, k);
        let r = pairs_of(parts);
        let at = if find_key(prev, k) < 0 { prev.len() as int } else { find_key(prev, k) };
        assert(r[at] == (k, v));
        assert forall|j: int| 0 <= j < prev.len() implies (#[trigger] r[j]).0 == prev[j].0 by {}
        assert forall|i: int| 0 <= i < parts.len() implies exists|j: int| 0 <= j < r.len()
            && (#[trigger] r[j]).0 == before_eq(#[trigger] parts[i]) by {
            if i < parts.len() - 1 {
                assert(parts[i] == t[i]);
                let j = choose|j: int| 0 <= j < prev.len() && (#[trigger] prev[j]).0 == before_eq(t[i]);
                assert(r[j].0 == prev[j].0);
            } else {
                assert(r[at].0 == before_eq(parts[i]));
            }
        }
    }
}

/// The parameters of a query string name each key once, every key of the
/// string is among them, and the last `key=value` part is kept as it reads:
/// a later part wins over an earlier one with the same key.
pub proof fn lemma_query_pairs_keys(search: Seq<char>)
    ensures
        distinct_keys(query_pairs(search)),
        strip_question(search).len() > 0 ==> query_pairs(search).contains(
            (
                before_eq(pieces(strip_question(search), '&').last()),
                decoded_value(after_eq(pieces(strip_question(search), '&').last())),
            ),
        ),
        strip_question(search).len() > 0 ==> forall|i: int|
            0 <= i < pieces(strip_question(search), '&').len() ==> exists|j: int|
                0 <= j < query_pairs(search).len() && (#[trigger] query_pairs(search)[j]).0 == before_eq(
                    #[trigger] pieces(strip_question(search), '&')[i],
                ),
{
    let q = strip_question(search);
    if q.len() > 0 {
        let parts = pieces(q, '&');
        lemma_pairs_of_keys(parts);
        let r = query_pairs(search);
        assert(r == pairs_of(parts));
        assert forall|i: int| 0 <= i < parts.len() implies exists|j: int| 0 <= j < r.len()
            && (#[trigger] r[j]).0 == before_eq(#[trigger] parts[i]) by {
            let j = choose|j: int| 0 <= j < pairs_of(parts).len() && (#[trigger] pairs_of(parts)[j]).0 == before_eq(parts[i]);
            assert(r[j] == pairs_of(parts)[j]);
        }
        crate::text::lemma_pieces_nonempty(q, '&');
        let j = choose|j: int| 0 <= j < pairs_of(parts).len()
            && pairs_of(parts)[j] == (before_eq(parts.last()), decoded_value(after_eq(parts.last())));
        assert(r[j] == pairs_of(parts)[j]);
    }
}

/// The value of key `key` among the parameters, if present: that of the last
/// pair with the key.
pub open spec fn param(pairs: Seq<(Seq<char>, Seq<char>)>, key: Seq<char>) -> Option<Seq<char>>
    decreases pairs.len(),
{
    if pairs.len() == 0 {
        None
    } else if pairs.last().0 == key {
        Some(pairs.last().1)
    } else {
        param(pairs.drop_last(), key)
    }
}

/// The value of a query parameter; of a key given twice, the later value,
/// as a map of the parameters keeps it.
pub fn query_value(pairs: &Vec<(String, String)>, key: &str) -> (r: Option<String>)
    ensures
        opt_view(r) == param(pairs_view(pairs@), key@),
{
    let ghost pv = pairs_view(pairs@);
    let mut i: usize = pairs.len();
    assert(pv.take(i as int) =~= pv);
    while i > 0
        invariant
            i <= pairs.len(),
            pv == pairs_view(pairs@),
            param(pv, key@) == param(pv.take(i as int), key@),
        decreases i,
    {
        assert(pv.take(i as int).drop_last() =~= pv.take(i - 1));
        assert(pv.take(i as int).last() == pv[i - 1]);
        if str_eq(pairs[i - 1].0.as_str(), key) {
            return Some(pairs[i - 1].1.clone());
        }
        i = i - 1;
    }
    None
}

/// The authorize decision that the consent page sends.
pub struct AuthorizeRequest {
    pub client_id: String,
    pub redirect_uri: String,
    pub response_type: String,
    pub scope: String,
    pub state: Option<String>,
    pub code_challenge: String,
    pub code_challenge_method: String,
    pub decision: String,
}

/// A parameter's value, or `fallback` when it is missing.
pub open spec fn param_or(pairs: Seq<(Seq<char>, Seq<char>)>, key: Seq<char>, fallback: Seq<char>) -> Seq<char> {
    match param(pairs, key) {
        Some(v) => v,
        None => fallback,
    }
}

fn value_or(pairs: &Vec<(String, String)>, key: &str, fallback: &str) -> (r: String)
    ensures
        r@ == param_or(pairs_view(pairs@), key@, fallback@),
{
    match query_value(pairs, key) {
        Some(v) => v,
        None => owned(fallback),
    }
}

/// The decision sent for the parameters of the page: the client, redirect,
/// scope and code challenge as given (empty when missing), the response type
/// `code` and the challenge method `S256` unless given, the state only if
/// given.
pub fn authorize_request(pairs: &Vec<(String, String)>, decision: &str) -> (r: AuthorizeRequest)
    ensures
        r.client_id@ == param_or(pairs_view(pairs@), "client_id"@, Seq::empty()),
        r.redirect_uri@ == param_or(pairs_view(pairs@), "redirect_uri"@, Seq::empty()),
        r.response_type@ == param_or(pairs_view(pairs@), "response_type"@, "code"@),
        r.scope@ == param_or(pairs_view(pairs@), "scope"@, Seq::empty()),
        opt_view(r.state) == param(pairs_view(pairs@), "state"@),
        r.code_challenge@ == param_or(pairs_view(pairs@), "code_challenge"@, Seq::empty()),
        r.code_challenge_method@ == param_or(pairs_view(pairs@), "code_challenge_method"@, "S256"@),
        r.decision@ == decision@,
{
    proof {
        reveal_strlit("");
    }
    AuthorizeRequest {
        client_id: value_or(pairs, "client_id", ""),
        redirect_uri: value_or(pairs, "redirect_uri", ""),
        response_type: value_or(pairs, "response_type", "code"),
        scope: value_or(pairs, "scope", ""),
        state: query_value(pairs, "state"),
        code_challenge: value_or(pairs, "code_challenge", ""),
        code_challenge_method: value_or(pairs, "code_challenge_method", "S256"),
        decision: owned(decision),
    }
}

/// The percent-encoded form of a text as `urlencoding::encode` writes it.
/// Named, not defined here: it is a function of the text alone.
pub uninterp spec fn url_encoded(s: Seq<char>) -> Seq<char>;

/// Percent-encodes a text for a URL.
///
/// Trusted: calls `urlencoding::encode`. Claimed: the result is `url_encoded`
/// of the input.
#[verifier::external_body]
fn url_encode(s: &str) -> (r: String)
    ensures
        r@ == url_encoded(s@),
{
    urlencoding::encode(s).into_owned()
}

/// The `key=value` parts of a query.
pub open spec fn query_parts(pairs: Seq<(Seq<char>, Seq<char>)>) -> Seq<Seq<char>> {
    pairs.map_values(|p: (Seq<char>, Seq<char>)| p.0 + "="@ + p.1)
}

/// The address of the authorize page carrying the given parameters, each key
/// and value already encoded: `/oauth/authorize?k=v&...`, without `?` when
/// there are none.
pub open spec fn authorize_path_text(encoded: Seq<(Seq<char>, Seq<char>)>) -> Seq<char> {
    if encoded.len() == 0 {
        "/oauth/authorize"@
    } else {
        "/oauth/authorize?"@ + join(query_parts(encoded), "&"@)
    }
}

/// Builds the address of the authorize page from encoded parameters.
pub fn authorize_path(encoded: &Vec<(String, String)>) -> (r: String)
    ensures
        r@ == authorize_path_text(pairs_view(encoded@)),
{
    if encoded.len() == 0 {
        return owned("/oauth/authorize");
    }
    let ghost ev = pairs_view(encoded@);
    let mut parts: Vec<String> = Vec::new();
    let mut i: usize = 0;
    while i < encoded.len()
        invariant
            i <= encoded.len(),
            ev == pairs_view(encoded@),
            views(parts@) == query_parts(ev.take(i as int)),
        decreases encoded.len() - i,
    {
        let part = concat3(encoded[i].0.as_str(), "=", encoded[i].1.as_str());
        let ghost before = views(parts@);
        assert(ev[i as int] == (encoded@[i as int].0@, encoded@[i as int].1@));
        parts.push(part);
        assert(views(parts@) =~= before.push(part@));
        i = i + 1;
        assert(ev.take(i as int) =~= ev.take(i - 1).push(ev[i - 1]));
        assert(views(parts@) =~= query_parts(ev.take(i as int)));
    }
    assert(ev.take(encoded.len() as int) =~= ev);
    let q = join_strings(&parts, "&");
    concat2("/oauth/authorize?", q.as_str())
}

/// The encoded forms of the parameters, key by key.
pub open spec fn encoded_pairs(pairs: Seq<(Seq<char>, Seq<char>)>) -> Seq<(Seq<char>, Seq<char>)> {
    pairs.map_values(|p: (Seq<char>, Seq<char>)| (url_encoded(p.0), url_encoded(p.1)))
}

/// Whether a pair after position `i` has the same key as the pair at `i`.
pub open spec fn key_given_later(pairs: Seq<(Seq<char>, Seq<char>)>, i: int) -> bool {
    exists|j: int| i < j < pairs.len() && (#[trigger] pairs[j]).0 == pairs[i].0
}

/// The pairs from position `i` on that no later pair overrides, in order.
pub open spec fn latest_from(pairs: Seq<(Seq<char>, Seq<char>)>, i: int) -> Seq<(Seq<char>, Seq<char>)>
    decreases pairs.len() - i,
{
    if i >= pairs.len() || i < 0 {
        Seq::empty()
    } else if key_given_later(pairs, i) {
        latest_from(pairs, i + 1)
    } else {
        seq![pairs[i]] + latest_from(pairs, i + 1)
    }
}

/// The parameters as a map of them keeps them: each key once, with the
/// value of its last pair, in the order of those last pairs.
pub open spec fn latest_pairs(pairs: Seq<(Seq<char>, Seq<char>)>) -> Seq<(Seq<char>, Seq<char>)> {
    latest_from(pairs, 0)
}

proof fn lemma_latest_from_distinct(pairs: Seq<(Seq<char>, Seq<char>)>, i: int)
    requires
        distinct_keys(pairs),
        0 <= i <= pairs.len(),
    ensures
        latest_from(pairs, i) == pairs.skip(i),
    decreases pairs.len() - i,
{
    if i < pairs.len() {
        lemma_latest_from_distinct(pairs, i + 1);
        assert(!key_given_later(pairs, i));
        assert(pairs.skip(i) =~= seq![pairs[i]] + pairs.skip(i + 1));
    } else {
        assert(pairs.skip(i) =~= Seq::<(Seq<char>, Seq<char>)>::empty());
    }
}

/// With each key given once, as a parsed query string gives them, no pair
/// is overridden: the redirect keeps every parameter in order.
pub proof fn lemma_latest_pairs_distinct(pairs: Seq<(Seq<char>, Seq<char>)>)
    requires
        distinct_keys(pairs),
    ensures
        latest_pairs(pairs) == pairs,
{
    lemma_latest_from_distinct(pairs, 0);
    assert(pairs.skip(0) =~= pairs);
}

/// Where a signed-out visitor of the consent page is sent: the login page,
/// with the consent address and all its parameters as `next` (a key given
/// twice with its later value).
pub fn login_redirect(pairs: &Vec<(String, String)>) -> (r: String)
    ensures
        r@ == "/login?next="@ + url_encoded(authorize_path_text(encoded_pairs(latest_pairs(pairs_view(pairs@))))),
{
    let ghost pv = pairs_view(pairs@);
    let mut enc: Vec<(String, String)> = Vec::new();
    let mut i: usize = 0;
    assert(latest_from(pv, 0) =~= Seq::<(Seq<char>, Seq<char>)>::empty() + latest_from(pv, 0));
    while i < pairs.len()
        invariant
            i <= pairs.len(),
            pv == pairs_view(pairs@),
            latest_pairs(pv) == latest_from(pv, 0),
            encoded_pairs(latest_pairs(pv)) == pairs_view(enc@) + encoded_pairs(latest_from(pv, i as int)),
        decreases pairs.len() - i,
    {
        let mut later = false;
        let mut j: usize = i + 1;
        while j < pairs.len()
            invariant
                i < j <= pairs.len(),
                pv == pairs_view(pairs@),
                later == exists|m: int| i < m < j && (#[trigger] pv[m]).0 == pv[i as int].0,
            decreases pairs.len() - j,
        {
            assert(pv[j as int].0 == pairs@[j as int].0@);
            assert(pv[i as int].0 == pairs@[i as int].0@);
            if str_eq(pairs[j].0.as_str(), pairs[i].0.as_str()) {
                later = true;
            }
            j = j + 1;
        }
        if !later {
            let k = url_encode(pairs[i].0.as_str());
            let v = url_encode(pairs[i].1.as_str());
            let ghost before = pairs_view(enc@);
            assert(pv[i as int] == (pairs@[i as int].0@, pairs@[i as int].1@));
            let ghost item = (k@, v@);
            enc.push((k, v));
            assert(pairs_view(enc@) =~= before.push(item));
            assert(latest_from(pv, i as int) == seq![pv[i as int]] + latest_from(pv, i + 1));
            assert(encoded_pairs(seq![pv[i as int]] + latest_from(pv, i + 1)) =~= seq![item] + encoded_pairs(
                latest_from(pv, i + 1),
            ));
            assert(before + (seq![item] + encoded_pairs(latest_from(pv, i + 1))) =~= pairs_view(enc@)
                + encoded_pairs(latest_from(pv, i + 1)));
        } else {
            assert(latest_from(pv, i as int) == latest_from(pv, i + 1));
        }
        i = i + 1;
    }
    assert(latest_from(pv, pairs.len() as int) =~= Seq::<(Seq<char>, Seq<char>)>::empty());
    assert(encoded_pairs(Seq::<(Seq<char>, Seq<char>)>::empty()) =~= Seq::<(Seq<char>, Seq<char>)>::empty());
    assert(pairs_view(enc@) + Seq::<(Seq<char>, Seq<char>)>::empty() =~= pairs_view(enc@));
    let here = authorize_path(&enc);
    concat2("/login?next=", url_encode(here.as_str()).as_str())
}

/// Whether `c` is ASCII white space as `char::is_ascii_whitespace` says:
/// space, tab, line feed, form feed or carriage return.
pub open spec fn ascii_ws(c: char) -> bool {
    c == ' ' || c == '\t' || c == '\n' || c == '\u{c}' || c == '\r'
}

/// The pieces of `s` between ASCII white space chars, empty ones included.
pub open spec fn ws_pieces(s: Seq<char>) -> Seq<Seq<char>>
    decreases s.len(),
{
    if s.len() == 0 {
        seq![Seq::empty()]
    } else {
        let p = ws_pieces(s.drop_last());
        if ascii_ws(s.last()) {
            p.push(Seq::empty())
        } else {
            p.update(p.len() - 1, p.last().push(s.last()))
        }
    }
}

proof fn lemma_ws_pieces_nonempty(s: Seq<char>)
    ensures
        ws_pieces(s).len() > 0,
    decreases s.len(),
{
    if s.len() > 0 {
        lemma_ws_pieces_nonempty(s.drop_last());
    }
}

/// The pieces that are not empty.
pub open spec fn nonempty_pieces(ps: Seq<Seq<char>>) -> Seq<Seq<char>>
    decreases ps.len(),
{
    if ps.len() == 0 {
        Seq::empty()
    } else if ps.last().len() > 0 {
        nonempty_pieces(ps.drop_last()).push(ps.last())
    } else {
        nonempty_pieces(ps.drop_last())
    }
}

/// The words of `s` as `str::split_ascii_whitespace` gives them.
pub open spec fn ascii_words(s: Seq<char>) -> Seq<Seq<char>> {
    nonempty_pieces(ws_pieces(s))
}

/// The scopes that a request asks for: the words of its `scope` parameter.
pub fn scope_list(scope: &str) -> (r: Vec<String>)
    ensures
        views(r@) == ascii_words(scope@),
{
    let v = chars_of(scope);
    let mut out: Vec<String> = Vec::new();
    let mut cur: Vec<char> = Vec::new();
    let ghost mut done: Seq<Seq<char>> = Seq::empty();
    let mut i: usize = 0;
    assert(v@.take(0) =~= Seq::<char>::empty());
    assert(cur@ =~= Seq::<char>::empty());
    while i < v.len()
        invariant
            i <= v.len(),
            v@ == scope@,
            ws_pieces(v@.take(i as int)) == done.push(cur@),
            views(out@) == nonempty_pieces(done),
        decreases v.len() - i,
    {
        let c = v[i];
        assert(v@.take(i + 1).drop_last() =~= v@.take(i as int));
        assert(v@.take(i + 1).last() == c);
        if c == ' ' || c == '\t' || c == '\n' || c == '\u{c}' || c == '\r' {
            let ghost old_done = done;
            let ghost cur_before = cur@;
            if cur.len() > 0 {
                let w = string_of(&cur);
                let ghost before = views(out@);
                out.push(w);
                assert(views(out@) =~= before.push(cur_before));
            }
            proof {
                done = old_done.push(cur_before);
                assert(done.drop_last() =~= old_done);
            }
            cur = Vec::new();
            assert(old_done.push(cur_before).push(cur@) =~= done.push(cur@));
        } else {
            let ghost before = cur@;
            cur.push(c);
            assert(done.push(before).update(done.len() as int, before.push(c)) =~= done.push(cur@));
        }
        i = i + 1;
    }
    assert(v@.take(v.len() as int) =~= v@);
    let ghost all = done.push(cur@);
    assert(all.drop_last() =~= done);
    if cur.len() > 0 {
        let w = string_of(&cur);
        let ghost before = views(out@);
        out.push(w);
        assert(views(out@) =~= before.push(cur@));
    }
    out
}

} // verus!
