//! Who may call the service: developer tokens with their scopes, and player
//! sessions carried as bearer tokens.

use vstd::prelude::*;
use crate::text::chars_of;
use crate::node::{strings_view, trim, trim_piece};
use crate::text::{copy_string, push_char, str_eq};

verus! {

pub const SCOPE_MANAGE_CONCEPTS: &'static str = "manage:concepts";
pub const SCOPE_REGISTER_DEFINITIONS: &'static str = "register:definitions";
pub const SCOPE_AWARD_ACHIEVEMENTS: &'static str = "award:achievements";
pub const SCOPE_GRANT_ENTITLEMENTS: &'static str = "grant:entitlements";

/// A developer's bearer token and the scopes it grants.
#[derive(Clone, Debug)]
pub struct DeveloperTokenAuth {
    pub developer: String,
    pub token: String,
    pub scopes: Vec<String>,
}

/// The scopes named in `v`.
pub open spec fn scope_set(v: Seq<String>) -> Set<Seq<char>> {
    Set::new(|s: Seq<char>| exists|i: int| 0 <= i < v.len() && (#[trigger] v[i])@ == s)
}

/// The scopes a developer token grants when it names none.
pub open spec fn default_scopes() -> Set<Seq<char>> {
    set![
        SCOPE_MANAGE_CONCEPTS@,
        SCOPE_REGISTER_DEFINITIONS@,
        SCOPE_AWARD_ACHIEVEMENTS@,
        SCOPE_GRANT_ENTITLEMENTS@,
    ]
}

/// Every scope.
pub fn default_developer_scopes() -> (r: Vec<String>)
    ensures
        scope_set(r@) == default_scopes(),
{
    let mut v: Vec<String> = Vec::new();
    v.push(String::from_str(SCOPE_MANAGE_CONCEPTS));
    v.push(String::from_str(SCOPE_REGISTER_DEFINITIONS));
    v.push(String::from_str(SCOPE_AWARD_ACHIEVEMENTS));
    v.push(String::from_str(SCOPE_GRANT_ENTITLEMENTS));
    proof {
        assert forall|s: Seq<char>| scope_set(v@).contains(s) == default_scopes().contains(s) by {
            if default_scopes().contains(s) {
                if s == SCOPE_MANAGE_CONCEPTS@ {
                    assert(v@[0]@ == s);
                } else if s == SCOPE_REGISTER_DEFINITIONS@ {
                    assert(v@[1]@ == s);
                } else if s == SCOPE_AWARD_ACHIEVEMENTS@ {
                    assert(v@[2]@ == s);
                } else {
                    assert(v@[3]@ == s);
                }
            }
        }
        assert(scope_set(v@) =~= default_scopes());
    }
    v
}

/// The trimmed, non-empty scopes of `v`, in order.
pub open spec fn trimmed_scopes(v: Seq<Seq<char>>) -> Seq<Seq<char>>
    decreases v.len(),
{
    if v.len() == 0 {
        Seq::empty()
    } else if trim(v.last()).len() == 0 {
        trimmed_scopes(v.drop_last())
    } else {
        trimmed_scopes(v.drop_last()).push(trim(v.last()))
    }
}

/// Two development tokens, `dev1` with `token1` and `dev2` with `token2`,
/// each with every scope, for a service configured with them.
pub fn builtin_developer_tokens() -> (r: Vec<DeveloperTokenAuth>)
    ensures
        r@.len() == 2,
        r@[0].developer@ == "dev1"@ && r@[0].token@ == "token1"@,
        r@[1].developer@ == "dev2"@ && r@[1].token@ == "token2"@,
        scope_set(r@[0].scopes@) == default_scopes(),
        scope_set(r@[1].scopes@) == default_scopes(),
{
    let mut v: Vec<DeveloperTokenAuth> = Vec::new();
    v.push(DeveloperTokenAuth {
        developer: String::from_str("dev1"),
        token: String::from_str("token1"),
        scopes: default_developer_scopes(),
    });
    v.push(DeveloperTokenAuth {
        developer: String::from_str("dev2"),
        token: String::from_str("token2"),
        scopes: default_developer_scopes(),
    });
    v
}

/// The scopes a token grants: the named ones, trimmed, blanks dropped, or
/// every scope where none are named.
pub fn normalize_scopes(scopes: Vec<String>) -> (r: Vec<String>)
    ensures
        scopes@.len() == 0 ==> scope_set(r@) == default_scopes(),
        scopes@.len() > 0 ==> strings_view(r@) == trimmed_scopes(strings_view(scopes@)),
{
    if scopes.len() == 0 {
        return default_developer_scopes();
    }
    let mut out: Vec<String> = Vec::new();
    let mut i: usize = 0;
    while i < scopes.len()
        invariant
            i <= scopes@.len(),
            strings_view(out@) == trimmed_scopes(strings_view(scopes@).subrange(0, i as int)),
        decreases scopes@.len() - i,
    {
        let t = trim_piece(&scopes[i]);
        let ghost before = strings_view(out@);
        assert(strings_view(scopes@).subrange(0, i + 1).drop_last() =~= strings_view(scopes@).subrange(
            0,
            i as int,
        ));
        assert(strings_view(scopes@).subrange(0, i + 1).last() == scopes@[i as int]@);
        if !t.as_str().is_empty() {
            out.push(t);
            assert(strings_view(out@) =~= before.push(trim(scopes@[i as int]@)));
        }
        i = i + 1;
    }
    assert(strings_view(scopes@).subrange(0, scopes@.len() as int) =~= strings_view(scopes@));
    out
}

/// The pieces of `s` between occurrences of `sep`, empty ones included.
pub open spec fn split_on(s: Seq<char>, sep: char) -> Seq<Seq<char>>
    decreases s.len(),
{
    if s.len() == 0 {
        seq![Seq::empty()]
    } else {
        let p = split_on(s.drop_last(), sep);
        if s.last() == sep {
            p.push(Seq::empty())
        } else {
            p.update(p.len() - 1, p.last().push(s.last()))
        }
    }
}

/// The pieces of `s` between occurrences of `sep`.
pub fn split_text(s: &str, sep: char) -> (r: Vec<String>)
    ensures
        strings_view(r@) == split_on(s@, sep),
{
    broadcast use vstd::string::axiom_spec_iter;

    let mut pieces: Vec<String> = Vec::new();
    pieces.push(String::new());
    assert(strings_view(pieces@) =~= split_on(s@.subrange(0, 0), sep));
    for c in it: s.chars()
        invariant
            it.seq() == s@,
            pieces@.len() >= 1,
            strings_view(pieces@) == split_on(s@.subrange(0, it.index() as int), sep),
    {
        let ghost i = it.index() as int;
        assert(c == s@[i]);
        assert(s@.subrange(0, i + 1).drop_last() =~= s@.subrange(0, i));
        let ghost before = strings_view(pieces@);
        if c == sep {
            pieces.push(String::new());
            assert(strings_view(pieces@) =~= before.push(Seq::empty()));
        } else {
            let mut last = pieces.pop().unwrap();
            push_char(&mut last, c);
            pieces.push(last);
            assert(strings_view(pieces@) =~= before.update(before.len() - 1, before.last().push(c)));
        }
    }
    assert(s@.subrange(0, s@.len() as int) =~= s@);
    pieces
}

/// The index of the first `sep` in `s`.
pub open spec fn first_index_of(s: Seq<char>, sep: char) -> Option<int> {
    if exists|i: int| 0 <= i < s.len() && s[i] == sep {
        Some(choose|i: int| 0 <= i < s.len() && s[i] == sep && forall|j: int| 0 <= j < i ==> s[j] != sep)
    } else {
        None
    }
}

/// `s` cut at its first `sep`: the text before and the text after.
pub open spec fn cut_once(s: Seq<char>, sep: char) -> Option<(Seq<char>, Seq<char>)> {
    match first_index_of(s, sep) {
        Some(i) => Some((s.subrange(0, i), s.subrange(i + 1, s.len() as int))),
        None => None,
    }
}

fn text_of(chars: &Vec<char>, from: usize, to: usize) -> (r: String)
    requires
        from <= to <= chars@.len(),
    ensures
        r@ == chars@.subrange(from as int, to as int),
{
    let mut out = String::new();
    let mut i = from;
    while i < to
        invariant
            from <= i <= to <= chars@.len(),
            out@ == chars@.subrange(from as int, i as int),
        decreases to - i,
    {
        push_char(&mut out, chars[i]);
        i = i + 1;
        assert(out@ =~= chars@.subrange(from as int, i as int));
    }
    out
}

/// `s` cut at its first `sep`.
pub fn cut_text_once(s: &str, sep: char) -> (r: Option<(String, String)>)
    ensures
        match cut_once(s@, sep) {
            Some((a, b)) => r matches Some((x, y)) && x@ == a && y@ == b,
            None => r is None,
        },
{
    let chars = chars_of(s);
    let mut i: usize = 0;
    while i < chars.len()
        invariant
            i <= chars@.len(),
            chars@ == s@,
            forall|j: int| 0 <= j < i ==> chars@[j] != sep,
        decreases chars@.len() - i,
    {
        if chars[i] == sep {
            let ghost k = choose|k: int| 0 <= k < s@.len() && s@[k] == sep && forall|j: int| 0 <= j < k ==> s@[j] != sep;
            assert(k == i as int) by {
                assert(0 <= i < s@.len() && s@[i as int] == sep);
                if k < i {
                } else if k > i {
                    assert(s@[i as int] == sep);
                }
            }
            let before = text_of(&chars, 0, i);
            let after = text_of(&chars, i + 1, chars.len());
            return Some((before, after));
        }
        i = i + 1;
    }
    None
}

/// A developer token entry of the `developer:token[:scope+scope...]`
/// list: `None` where the entry has no `:`.
pub open spec fn token_entry(e: Seq<char>) -> Option<(Seq<char>, Seq<char>, Seq<Seq<char>>)> {
    match cut_once(e, ':') {
        None => None,
        Some((developer, rest)) => match cut_once(rest, ':') {
            None => Some((trim(developer), trim(rest), Seq::empty())),
            Some((token, scopes)) => Some(
                (trim(developer), trim(token), trimmed_scopes(split_on(scopes, '+'))),
            ),
        },
    }
}

/// The developer tokens of a comma-separated list of
/// `developer:token[:scope+scope...]` entries; entries without a `:` are
/// skipped.
pub open spec fn token_entries(entries: Seq<Seq<char>>) -> Seq<(Seq<char>, Seq<char>, Seq<Seq<char>>)>
    decreases entries.len(),
{
    if entries.len() == 0 {
        Seq::empty()
    } else {
        match token_entry(entries.last()) {
            Some(t) => token_entries(entries.drop_last()).push(t),
            None => token_entries(entries.drop_last()),
        }
    }
}

/// A token's developer, token and scopes, its scopes before defaults.
pub open spec fn auth_matches(a: DeveloperTokenAuth, t: (Seq<char>, Seq<char>, Seq<Seq<char>>)) -> bool {
    &&& a.developer@ == t.0
    &&& a.token@ == t.1
    &&& if t.2.len() == 0 {
        scope_set(a.scopes@) == default_scopes()
    } else {
        strings_view(a.scopes@) == trimmed_scopes(t.2)
    }
}

/// Parses developer tokens from `developer:token[:scope+scope...]`
/// entries separated by commas.
#[verifier::spinoff_prover]
#[verifier::rlimit(40)]
pub fn parse_developer_tokens_env(var: &str) -> (r: Vec<DeveloperTokenAuth>)
    ensures
        r@.len() == token_entries(split_on(var@, ',')).len(),
        forall|i: int|
            0 <= i < r@.len() ==> auth_matches(#[trigger] r@[i], token_entries(split_on(var@, ','))[i]),
{
    let entries = split_text(var, ',');
    let ghost es = strings_view(entries@);
    let mut out: Vec<DeveloperTokenAuth> = Vec::new();
    let mut i: usize = 0;
    while i < entries.len()
        invariant
            i <= entries@.len(),
            es == strings_view(entries@),
            es == split_on(var@, ','),
            out@.len() == token_entries(es.subrange(0, i as int)).len(),
            forall|k: int|
                0 <= k < out@.len() ==> auth_matches(#[trigger] out@[k], token_entries(es.subrange(0, i as int))[k]),
        decreases entries@.len() - i,
    {
        let ghost prefix = es.subrange(0, i + 1);
        assert(prefix.drop_last() =~= es.subrange(0, i as int));
        assert(prefix.last() == entries@[i as int]@);
        match cut_text_once(entries[i].as_str(), ':') {
            None => {},
            Some((developer, rest)) => {
                let (token, scopes) = match cut_text_once(rest.as_str(), ':') {
                    None => (trim_piece(&rest), Vec::new()),
                    Some((token, raw)) => {
                        let pieces = split_text(raw.as_str(), '+');
                        let mut named: Vec<String> = Vec::new();
                        let mut j: usize = 0;
                        while j < pieces.len()
                            invariant
                                j <= pieces@.len(),
                                strings_view(named@) == trimmed_scopes(strings_view(pieces@).subrange(0, j as int)),
                            decreases pieces@.len() - j,
                        {
                            let t = trim_piece(&pieces[j]);
                            let ghost before = strings_view(named@);
                            assert(strings_view(pieces@).subrange(0, j + 1).drop_last()
                                =~= strings_view(pieces@).subrange(0, j as int));
                            assert(strings_view(pieces@).subrange(0, j + 1).last() == pieces@[j as int]@);
                            if !t.as_str().is_empty() {
                                named.push(t);
                                assert(strings_view(named@) =~= before.push(trim(pieces@[j as int]@)));
                            }
                            j = j + 1;
                        }
                        assert(strings_view(pieces@).subrange(0, pieces@.len() as int) =~= strings_view(pieces@));
                        (trim_piece(&token), named)
                    },
                };
                let ghost named = strings_view(scopes@);
                let auth = DeveloperTokenAuth {
                    developer: trim_piece(&developer),
                    token,
                    scopes: normalize_scopes(scopes),
                };
                proof {
                    let t = token_entry(entries@[i as int]@)->0;
                    assert(auth.developer@ == t.0);
                    assert(named == t.2);
                }
                out.push(auth);
            },
        }
        i = i + 1;
    }
    assert(es.subrange(0, entries@.len() as int) =~= es);
    out
}

/// The header `Authorization: Bearer <token>` of `token`.
pub open spec fn bearer(token: Seq<char>) -> Seq<char> {
    "Bearer "@ + token
}

/// Whether `tokens[i]` is the first token that `h` presents.
pub open spec fn first_presented(h: Seq<char>, tokens: Seq<DeveloperTokenAuth>, i: int) -> bool {
    &&& 0 <= i < tokens.len()
    &&& h == bearer(tokens[i].token@)
    &&& forall|j: int| 0 <= j < i ==> h != bearer(#[trigger] tokens[j].token@)
}

/// The index of the first token that `h` presents, where there is one.
pub open spec fn first_presented_index(h: Seq<char>, tokens: Seq<DeveloperTokenAuth>) -> int {
    choose|i: int| first_presented(h, tokens, i)
}

/// The first developer token that the authorization header presents.
pub open spec fn presented_token(header: Option<Seq<char>>, tokens: Seq<DeveloperTokenAuth>) -> Option<int> {
    match header {
        None => None,
        Some(h) => if first_presented(h, tokens, first_presented_index(h, tokens)) {
            Some(first_presented_index(h, tokens))
        } else {
            None
        },
    }
}

fn is_bearer_of(header: &str, token: &str) -> (r: bool)
    ensures
        r == (header@ == bearer(token@)),
{
    let mut expected = String::from_str("Bearer ");
    expected.append(token);
    str_eq(header, expected.as_str())
}

/// The developer token that the authorization header presents, if any.
pub fn authorized_token(header: Option<&str>, tokens: &[DeveloperTokenAuth]) -> (r: Option<DeveloperTokenAuth>)
    ensures
        match presented_token(opt_str_view(header), tokens@) {
            Some(i) => r matches Some(t) && t.developer@ == tokens@[i].developer@ && t.token@
                == tokens@[i].token@ && strings_view(t.scopes@) == strings_view(tokens@[i].scopes@),
            None => r is None,
        },
        tokens@.len() == 0 ==> r is None,
{
    let value = match header {
        Some(v) => v,
        None => {
            return None;
        },
    };
    let mut i: usize = 0;
    while i < tokens.len()
        invariant
            i <= tokens@.len(),
            opt_str_view(header) == Some(value@),
            forall|j: int| 0 <= j < i ==> value@ != bearer(#[trigger] tokens@[j].token@),
        decreases tokens@.len() - i,
    {
        if is_bearer_of(value, tokens[i].token.as_str()) {
            proof {
                assert(first_presented(value@, tokens@, i as int));
                let k = first_presented_index(value@, tokens@);
                assert(k == i as int) by {
                    if k > i {
                        assert(value@ == bearer(tokens@[i as int].token@));
                    }
                }
                assert(presented_token(opt_str_view(header), tokens@) == Some(i as int));
            }
            return Some(duplicate_auth(&tokens[i]));
        }
        i = i + 1;
    }
    assert forall|k: int| !first_presented(value@, tokens@, k) by {}
    None
}

fn duplicate_auth(a: &DeveloperTokenAuth) -> (r: DeveloperTokenAuth)
    ensures
        r.developer@ == a.developer@,
        r.token@ == a.token@,
        strings_view(r.scopes@) == strings_view(a.scopes@),
{
    let mut scopes: Vec<String> = Vec::new();
    let mut i: usize = 0;
    while i < a.scopes.len()
        invariant
            i <= a.scopes@.len(),
            strings_view(scopes@) == strings_view(a.scopes@).subrange(0, i as int),
        decreases a.scopes@.len() - i,
    {
        let c = copy_string(&a.scopes[i]);
        let ghost before = scopes@;
        scopes.push(c);
        assert(strings_view(scopes@) =~= strings_view(before).push(a.scopes@[i as int]@));
        assert(strings_view(a.scopes@).subrange(0, i + 1) =~= strings_view(a.scopes@).subrange(0, i as int).push(
            a.scopes@[i as int]@,
        ));
        i = i + 1;
    }
    assert(strings_view(a.scopes@).subrange(0, i as int) =~= strings_view(a.scopes@));
    DeveloperTokenAuth { developer: copy_string(&a.developer), token: copy_string(&a.token), scopes }
}

/// An optional text by its view.
pub open spec fn opt_str_view(s: Option<&str>) -> Option<Seq<char>> {
    match s {
        Some(v) => Some(v@),
        None => None,
    }
}

/// Whether `scopes` names `scope`.
pub fn has_scope(scopes: &Vec<String>, scope: &str) -> (r: bool)
    ensures
        r == scope_set(scopes@).contains(scope@),
{
    let mut i: usize = 0;
    while i < scopes.len()
        invariant
            i <= scopes@.len(),
            forall|j: int| 0 <= j < i ==> scopes@[j]@ != scope@,
        decreases scopes@.len() - i,
    {
        if str_eq(scopes[i].as_str(), scope) {
            assert(scope_set(scopes@).contains(scope@)) by {
                assert(scopes@[i as int]@ == scope@);
            }
            return true;
        }
        i = i + 1;
    }
    false
}

/// Whether the authorization header presents a token of `developer` that
/// grants `required_scope`.
pub fn developer_authorized_for(
    header: Option<&str>,
    tokens: &[DeveloperTokenAuth],
    developer: &str,
    required_scope: &str,
) -> (r: bool)
    ensures
        r == match presented_token(opt_str_view(header), tokens@) {
            Some(i) => tokens@[i].developer@ == developer@ && scope_set(tokens@[i].scopes@).contains(
                required_scope@,
            ),
            None => false,
        },
{
    match authorized_token(header, tokens) {
        Some(token) => {
            proof {
                assert forall|s: Seq<char>| scope_set(token.scopes@).contains(s) == scope_set(
                    tokens@[presented_token(opt_str_view(header), tokens@)->0].scopes@,
                ).contains(s) by {
                    let a = token.scopes@;
                    let b = tokens@[presented_token(opt_str_view(header), tokens@)->0].scopes@;
                    assert(strings_view(a).len() == a.len() && strings_view(b).len() == b.len());
                    assert(forall|k: int| 0 <= k < a.len() ==> #[trigger] strings_view(a)[k] == a[k]@);
                    assert(forall|k: int| 0 <= k < b.len() ==> #[trigger] strings_view(b)[k] == b[k]@);
                    if scope_set(a).contains(s) {
                        let i = choose|i: int| 0 <= i < a.len() && (#[trigger] a[i])@ == s;
                        assert(strings_view(a)[i] == strings_view(b)[i]);
                        assert(b[i]@ == s);
                    }
                    if scope_set(b).contains(s) {
                        let i = choose|i: int| 0 <= i < b.len() && (#[trigger] b[i])@ == s;
                        assert(strings_view(a)[i] == strings_view(b)[i]);
                        assert(a[i]@ == s);
                    }
                }
            }
            str_eq(token.developer.as_str(), developer) && has_scope(&token.scopes, required_scope)
        },
        None => false,
    }
}

/// The player session token that the authorization header carries: what
/// follows `Bearer `.
pub open spec fn session_token_of(header: Option<Seq<char>>) -> Option<Seq<char>> {
    match header {
        Some(h) => if "Bearer "@.is_prefix_of(h) {
            Some(h.subrange(7, h.len() as int))
        } else {
            None
        },
        None => None,
    }
}

/// The player session token that the authorization header carries.
pub fn player_token(header: Option<&str>) -> (r: Option<String>)
    ensures
        match session_token_of(opt_str_view(header)) {
            Some(t) => r matches Some(s) && s@ == t,
            None => r is None,
        },
{
    let value = match header {
        Some(v) => v,
        None => {
            return None;
        },
    };
    let chars = chars_of(value);
    let prefix = chars_of("Bearer ");
    proof {
        reveal_strlit("Bearer ");
    }
    assert("Bearer "@.len() == 7);
    if chars.len() < 7 {
        assert(!"Bearer "@.is_prefix_of(value@));
        return None;
    }
    let mut i: usize = 0;
    while i < 7
        invariant
            i <= 7,
            opt_str_view(header) == Some(value@),
            chars@ == value@,
            prefix@ == "Bearer "@,
            prefix@.len() == 7,
            chars@.len() >= 7,
            forall|j: int| 0 <= j < i ==> chars@[j] == prefix@[j],
        decreases 7 - i,
    {
        if chars[i] != prefix[i] {
            assert(!"Bearer "@.is_prefix_of(value@)) by {
                assert(value@.subrange(0, 7)[i as int] == value@[i as int]);
                assert(prefix@[i as int] == "Bearer "@[i as int]);
            }
            return None;
        }
        i = i + 1;
    }
    assert("Bearer "@.is_prefix_of(value@)) by {
        assert(value@.subrange(0, 7) =~= prefix@);
    }
    Some(text_of(&chars, 7, chars.len()))
}

} // verus!
