//! Player identity: which providers are accepted, how a provider token
//! names a subject, which player each subject is, and the sessions that
//! exchanging an identity opens.

use vstd::prelude::*;
use crate::text::chars_of;
use crate::access::{cut_once, cut_text_once, split_on, split_text, trimmed_scopes};
use crate::node::{strings_view, trim, trim_piece};
use crate::offline::{new_uuid_text, uuid_text};
use crate::table::Table;
use crate::text::{copy_string, str_eq};

verus! {

#[derive(Debug, Clone, Copy, PartialEq, Eq, Structural)]
pub enum IdentityError {
    UnsupportedProvider,
    InvalidToken,
    StorageError,
}

/// What exchanging a provider identity gives: a session token and the
/// player it is bound to.
#[derive(Debug, Clone)]
pub struct ExchangeResult {
    pub access_token: String,
    pub player_id: String,
    pub is_new_player: bool,
}

/// `c` in lower case where it is an ASCII capital.
pub open spec fn ascii_lower(c: char) -> char {
    if 'A' <= c && c <= 'Z' {
        ((c as u32) + 32) as char
    } else {
        c
    }
}

/// Whether `a` and `b` are equal but for the case of ASCII letters.
pub open spec fn eq_ignore_ascii_case(a: Seq<char>, b: Seq<char>) -> bool {
    a.len() == b.len() && forall|i: int| 0 <= i < a.len() ==> ascii_lower(#[trigger] a[i]) == ascii_lower(b[i])
}

fn ascii_lower_exec(c: char) -> (r: char)
    ensures
        r == ascii_lower(c),
{
    if 'A' <= c && c <= 'Z' {
        let n = (c as u32) + 32;
        let b = n as u8;
        b as char
    } else {
        c
    }
}

/// Whether `a` and `b` are equal but for the case of ASCII letters.
pub fn equal_ignoring_ascii_case(a: &str, b: &str) -> (r: bool)
    ensures
        r == eq_ignore_ascii_case(a@, b@),
{
    let x = chars_of(a);
    let y = chars_of(b);
    if x.len() != y.len() {
        return false;
    }
    let mut i: usize = 0;
    while i < x.len()
        invariant
            i <= x@.len(),
            x@ == a@,
            y@ == b@,
            x@.len() == y@.len(),
            forall|j: int| 0 <= j < i ==> ascii_lower(#[trigger] x@[j]) == ascii_lower(y@[j]),
        decreases x@.len() - i,
    {
        if ascii_lower_exec(x[i]) != ascii_lower_exec(y[i]) {
            return false;
        }
        i = i + 1;
    }
    true
}

/// The providers accepted when none are configured.
pub open spec fn default_providers() -> Seq<Seq<char>> {
    seq!["google_play_games"@, "apple_id"@, "epic"@, "steam"@, "oidc"@]
}

/// The accepted providers: the trimmed, non-empty names of a
/// comma-separated list, or the default ones where there is no list.
pub fn supported_providers(configured: Option<&str>) -> (r: Vec<String>)
    ensures
        match configured {
            Some(v) => strings_view(r@) == trimmed_scopes(split_on(v@, ',')),
            None => strings_view(r@) == default_providers(),
        },
{
    match configured {
        Some(v) => {
            let pieces = split_text(v, ',');
            let mut out: Vec<String> = Vec::new();
            let mut i: usize = 0;
            while i < pieces.len()
                invariant
                    i <= pieces@.len(),
                    strings_view(pieces@) == split_on(v@, ','),
                    strings_view(out@) == trimmed_scopes(strings_view(pieces@).subrange(0, i as int)),
                decreases pieces@.len() - i,
            {
                let t = trim_piece(&pieces[i]);
                let ghost before = strings_view(out@);
                assert(strings_view(pieces@).subrange(0, i + 1).drop_last() =~= strings_view(pieces@).subrange(
                    0,
                    i as int,
                ));
                assert(strings_view(pieces@).subrange(0, i + 1).last() == pieces@[i as int]@);
                if !t.as_str().is_empty() {
                    out.push(t);
                    assert(strings_view(out@) =~= before.push(trim(pieces@[i as int]@)));
                }
                i = i + 1;
            }
            assert(strings_view(pieces@).subrange(0, pieces@.len() as int) =~= strings_view(pieces@));
            out
        },
        None => {
            let mut out: Vec<String> = Vec::new();
            out.push(String::from_str("google_play_games"));
            out.push(String::from_str("apple_id"));
            out.push(String::from_str("epic"));
            out.push(String::from_str("steam"));
            out.push(String::from_str("oidc"));
            assert(strings_view(out@) =~= default_providers());
            out
        },
    }
}

/// A `provider:token:subject` entry, trimmed; `None` without two `:`.
pub open spec fn provider_token_entry(e: Seq<char>) -> Option<(Seq<char>, Seq<char>, Seq<char>)> {
    match cut_once(e, ':') {
        None => None,
        Some((provider, rest)) => match cut_once(rest, ':') {
            None => None,
            Some((token, subject)) => Some((trim(provider), trim(token), trim(subject))),
        },
    }
}

/// The entries of a comma-separated list of `provider:token:subject`.
pub open spec fn provider_token_entries(entries: Seq<Seq<char>>) -> Seq<(Seq<char>, Seq<char>, Seq<char>)>
    decreases entries.len(),
{
    if entries.len() == 0 {
        Seq::empty()
    } else {
        match provider_token_entry(entries.last()) {
            Some(t) => provider_token_entries(entries.drop_last()).push(t),
            None => provider_token_entries(entries.drop_last()),
        }
    }
}

/// The views of a list of text triples.
pub open spec fn triples_view(v: Seq<(String, String, String)>) -> Seq<(Seq<char>, Seq<char>, Seq<char>)> {
    v.map_values(|t: (String, String, String)| (t.0@, t.1@, t.2@))
}

/// Parses a comma-separated list of `provider:token:subject` entries.
pub fn parse_provider_tokens(var: &str) -> (r: Vec<(String, String, String)>)
    ensures
        triples_view(r@) == provider_token_entries(split_on(var@, ',')),
{
    let entries = split_text(var, ',');
    let ghost es = strings_view(entries@);
    let mut out: Vec<(String, String, String)> = Vec::new();
    let mut i: usize = 0;
    while i < entries.len()
        invariant
            i <= entries@.len(),
            es == strings_view(entries@),
            es == split_on(var@, ','),
            triples_view(out@) == provider_token_entries(es.subrange(0, i as int)),
        decreases entries@.len() - i,
    {
        let ghost prefix = es.subrange(0, i + 1);
        assert(prefix.drop_last() =~= es.subrange(0, i as int));
        assert(prefix.last() == entries@[i as int]@);
        let ghost before = triples_view(out@);
        match cut_text_once(entries[i].as_str(), ':') {
            None => {},
            Some((provider, rest)) => match cut_text_once(rest.as_str(), ':') {
                None => {},
                Some((token, subject)) => {
                    let entry = (trim_piece(&provider), trim_piece(&token), trim_piece(&subject));
                    out.push(entry);
                    assert(triples_view(out@) =~= before.push(
                        provider_token_entry(entries@[i as int]@)->0,
                    ));
                },
            },
        }
        i = i + 1;
    }
    assert(es.subrange(0, entries@.len() as int) =~= es);
    out
}

/// The subject that the last entry for `provider` and `token` names.
pub open spec fn last_subject(
    entries: Seq<(Seq<char>, Seq<char>, Seq<char>)>,
    provider: Seq<char>,
    token: Seq<char>,
) -> Option<Seq<char>>
    decreases entries.len(),
{
    if entries.len() == 0 {
        None
    } else if entries.last().0 == provider && entries.last().1 == token {
        Some(entries.last().2)
    } else {
        last_subject(entries.drop_last(), provider, token)
    }
}

/// Whether an entry is for `provider`.
pub open spec fn has_provider(entries: Seq<(Seq<char>, Seq<char>, Seq<char>)>, provider: Seq<char>) -> bool {
    exists|i: int| 0 <= i < entries.len() && (#[trigger] entries[i]).0 == provider
}

/// The subject a provider token names: per the entries for that provider
/// where there are any; the token itself where no entries are configured
/// at all; none otherwise.
pub open spec fn subject_of(
    entries: Seq<(Seq<char>, Seq<char>, Seq<char>)>,
    provider: Seq<char>,
    token: Seq<char>,
) -> Option<Seq<char>> {
    if has_provider(entries, provider) {
        last_subject(entries, provider, token)
    } else if entries.len() == 0 {
        Some(token)
    } else {
        None
    }
}

/// Identities by provider and subject, and the sessions opened for them.
pub struct IdentityDirectory {
    supported: Vec<String>,
    provider_tokens: Vec<(String, String, String)>,
    identities: Vec<(String, String, String)>,
    sessions: Table<String>,
}

/// The player that the last identity entry for `provider` and `subject`
/// names.
pub open spec fn player_of(
    identities: Seq<(Seq<char>, Seq<char>, Seq<char>)>,
    provider: Seq<char>,
    subject: Seq<char>,
) -> Option<Seq<char>> {
    last_subject(identities, provider, subject)
}

/// Once a subject of a provider is bound to a player, that subject names
/// that player: a second exchange for it finds the same player.
pub proof fn lemma_bound_subject_names_its_player(
    identities: Seq<(Seq<char>, Seq<char>, Seq<char>)>,
    provider: Seq<char>,
    subject: Seq<char>,
    player: Seq<char>,
)
    ensures
        player_of(identities.push((provider, subject, player)), provider, subject) == Some(player),
{
    assert(identities.push((provider, subject, player)).last() == (provider, subject, player));
}

/// A session opened for a player names that player, and opening it leaves
/// every other session as it was: the token an exchange hands out finds
/// its player, and a token never handed out finds none.
pub proof fn lemma_opened_session_names_its_player(
    sessions: Map<Seq<char>, Seq<char>>,
    token: Seq<char>,
    player: Seq<char>,
    other: Seq<char>,
)
    requires
        other != token,
    ensures
        sessions.insert(token, player).contains_key(token),
        sessions.insert(token, player)[token] == player,
        sessions.insert(token, player).contains_key(other) == sessions.contains_key(other),
        sessions.contains_key(other) ==> sessions.insert(token, player)[other] == sessions[other],
{
}

/// Binding one subject leaves the player of every other subject as it was.
pub proof fn lemma_binding_leaves_other_subjects(
    identities: Seq<(Seq<char>, Seq<char>, Seq<char>)>,
    entry: (Seq<char>, Seq<char>, Seq<char>),
    provider: Seq<char>,
    subject: Seq<char>,
)
    requires
        entry.0 != provider || entry.1 != subject,
    ensures
        player_of(identities.push(entry), provider, subject) == player_of(identities, provider, subject),
{
    assert(identities.push(entry).drop_last() =~= identities);
}

impl IdentityDirectory {
    pub closed spec fn supported_view(&self) -> Seq<Seq<char>> {
        strings_view(self.supported@)
    }

    pub closed spec fn tokens_view(&self) -> Seq<(Seq<char>, Seq<char>, Seq<char>)> {
        triples_view(self.provider_tokens@)
    }

    /// The identity entries: provider, subject and player, oldest first.
    pub closed spec fn identities_view(&self) -> Seq<(Seq<char>, Seq<char>, Seq<char>)> {
        triples_view(self.identities@)
    }

    /// The player of each open session.
    pub closed spec fn sessions_view(&self) -> Map<Seq<char>, Seq<char>> {
        self.sessions.map().map_values(|s: String| s@)
    }

    /// A directory with the accepted providers, the provider tokens and the
    /// identities known so far, and no sessions.
    pub fn new(
        supported: Vec<String>,
        provider_tokens: Vec<(String, String, String)>,
        identities: Vec<(String, String, String)>,
    ) -> (r: Self)
        ensures
            r.supported_view() == strings_view(supported@),
            r.tokens_view() == triples_view(provider_tokens@),
            r.identities_view() == triples_view(identities@),
            r.sessions_view() == Map::<Seq<char>, Seq<char>>::empty(),
    {
        let r = IdentityDirectory { supported, provider_tokens, identities, sessions: Table::new() };
        assert(r.sessions_view() =~= Map::<Seq<char>, Seq<char>>::empty());
        r
    }

    /// The identity entries, to persist.
    pub fn identities(&self) -> (r: &Vec<(String, String, String)>)
        ensures
            triples_view(r@) == self.identities_view(),
    {
        &self.identities
    }

    /// Whether `provider` is accepted, ignoring ASCII case.
    pub fn is_supported_provider(&self, provider: &str) -> (r: bool)
        ensures
            r == exists|i: int| 0 <= i < self.supported_view().len() && eq_ignore_ascii_case(
                #[trigger] self.supported_view()[i],
                provider@,
            ),
    {
        let mut i: usize = 0;
        while i < self.supported.len()
            invariant
                i <= self.supported@.len(),
                forall|j: int| 0 <= j < i ==> !eq_ignore_ascii_case(#[trigger] self.supported_view()[j], provider@),
            decreases self.supported@.len() - i,
        {
            assert(self.supported_view()[i as int] == self.supported@[i as int]@);
            if equal_ignoring_ascii_case(self.supported[i].as_str(), provider) {
                return true;
            }
            i = i + 1;
        }
        false
    }

    /// The subject that `token` names for `provider`.
    pub fn resolve_subject(&self, provider: &str, token: &str) -> (r: Option<String>)
        ensures
            match subject_of(self.tokens_view(), provider@, token@) {
                Some(s) => r matches Some(v) && v@ == s,
                None => r is None,
            },
    {
        let entries = &self.provider_tokens;
        let ghost es = triples_view(entries@);
        let mut known = false;
        let mut found: Option<usize> = None;
        let mut i: usize = 0;
        while i < entries.len()
            invariant
                i <= entries@.len(),
                es == triples_view(entries@),
                es == self.tokens_view(),
                known == exists|j: int| 0 <= j < i && (#[trigger] es[j]).0 == provider@,
                match found {
                    Some(k) => k < i && last_subject(es.subrange(0, i as int), provider@, token@) == Some(es[k as int].2),
                    None => last_subject(es.subrange(0, i as int), provider@, token@) is None,
                },
            decreases entries@.len() - i,
        {
            let ghost prefix = es.subrange(0, i + 1);
            assert(prefix.drop_last() =~= es.subrange(0, i as int));
            assert(prefix.last() == es[i as int]);
            assert(es[i as int] == (entries@[i as int].0@, entries@[i as int].1@, entries@[i as int].2@));
            if str_eq(entries[i].0.as_str(), provider) {
                known = true;
                if str_eq(entries[i].1.as_str(), token) {
                    found = Some(i);
                }
            }
            i = i + 1;
        }
        assert(es.subrange(0, entries@.len() as int) =~= es);
        if known {
            match found {
                Some(k) => {
                    assert(es[k as int] == (entries@[k as int].0@, entries@[k as int].1@, entries@[k as int].2@));
                    Some(copy_string(&entries[k].2))
                },
                None => None,
            }
        } else if entries.len() == 0 {
            Some(String::from_str(token))
        } else {
            None
        }
    }

    /// The player a subject of `provider` is, made up and recorded as new
    /// where there is none yet.
    fn bind_subject(&mut self, provider: &str, subject: &str) -> (r: (String, bool))
        ensures
            final(self).supported_view() == old(self).supported_view(),
            final(self).tokens_view() == old(self).tokens_view(),
            final(self).sessions_view() == old(self).sessions_view(),
            match player_of(old(self).identities_view(), provider@, subject@) {
                Some(p) => r.0@ == p && !r.1 && final(self).identities_view() == old(self).identities_view(),
                None => r.1 && uuid_text(r.0@) && final(self).identities_view() == old(
                    self,
                ).identities_view().push((provider@, subject@, r.0@)),
            },
    {
        let entries = &self.identities;
        let ghost es = triples_view(entries@);
        let mut found: Option<usize> = None;
        let mut i: usize = 0;
        while i < entries.len()
            invariant
                i <= entries@.len(),
                es == triples_view(entries@),
                match found {
                    Some(k) => k < i && last_subject(es.subrange(0, i as int), provider@, subject@) == Some(es[k as int].2),
                    None => last_subject(es.subrange(0, i as int), provider@, subject@) is None,
                },
            decreases entries@.len() - i,
        {
            let ghost prefix = es.subrange(0, i + 1);
            assert(prefix.drop_last() =~= es.subrange(0, i as int));
            assert(prefix.last() == es[i as int]);
            assert(es[i as int] == (entries@[i as int].0@, entries@[i as int].1@, entries@[i as int].2@));
            if str_eq(entries[i].0.as_str(), provider) && str_eq(entries[i].1.as_str(), subject) {
                found = Some(i);
            }
            i = i + 1;
        }
        assert(es.subrange(0, entries@.len() as int) =~= es);
        match found {
            Some(k) => {
                assert(es[k as int] == (entries@[k as int].0@, entries@[k as int].1@, entries@[k as int].2@));
                (copy_string(&entries[k].2), false)
            },
            None => {
                let player_id = new_uuid_text();
                let ghost before = self.identities@;
                self.identities.push((String::from_str(provider), String::from_str(subject), copy_string(&player_id)));
                assert(triples_view(self.identities@) =~= triples_view(before).push(
                    (provider@, subject@, player_id@),
                ));
                (player_id, true)
            },
        }
    }

    /// The player that `token` identifies with `provider`, recorded as a
    /// new player the first time: refused for providers that are not
    /// accepted and for tokens that name no subject.
    pub fn bind_player(&mut self, provider: &str, token: &str) -> (r: Result<(String, bool), IdentityError>)
        ensures
            final(self).supported_view() == old(self).supported_view(),
            final(self).tokens_view() == old(self).tokens_view(),
            final(self).sessions_view() == old(self).sessions_view(),
            !(exists|i: int| 0 <= i < old(self).supported_view().len() && eq_ignore_ascii_case(
                #[trigger] old(self).supported_view()[i],
                provider@,
            )) ==> r == Err::<(String, bool), IdentityError>(IdentityError::UnsupportedProvider)
                && final(self).identities_view() == old(self).identities_view(),
            (exists|i: int| 0 <= i < old(self).supported_view().len() && eq_ignore_ascii_case(
                #[trigger] old(self).supported_view()[i],
                provider@,
            )) ==> match subject_of(old(self).tokens_view(), provider@, token@) {
                None => r == Err::<(String, bool), IdentityError>(IdentityError::InvalidToken)
                    && final(self).identities_view() == old(self).identities_view(),
                Some(s) => r matches Ok((player, is_new)) && match player_of(
                    old(self).identities_view(),
                    provider@,
                    s,
                ) {
                    Some(p) => player@ == p && !is_new && final(self).identities_view() == old(
                        self,
                    ).identities_view(),
                    None => is_new && uuid_text(player@) && final(self).identities_view() == old(
                        self,
                    ).identities_view().push((provider@, s, player@)),
                },
            },
    {
        if !self.is_supported_provider(provider) {
            return Err(IdentityError::UnsupportedProvider);
        }
        let subject = match self.resolve_subject(provider, token) {
            Some(s) => s,
            None => {
                return Err(IdentityError::InvalidToken);
            },
        };
        Ok(self.bind_subject(provider, subject.as_str()))
    }

    /// Opens a session for `player_id`: a fresh access token bound to it.
    pub fn open_session(&mut self, player_id: &str) -> (r: String)
        ensures
            uuid_text(r@),
            final(self).sessions_view() == old(self).sessions_view().insert(r@, player_id@),
            final(self).supported_view() == old(self).supported_view(),
            final(self).tokens_view() == old(self).tokens_view(),
            final(self).identities_view() == old(self).identities_view(),
    {
        let access_token = new_uuid_text();
        self.sessions.insert(copy_string(&access_token), String::from_str(player_id));
        assert(self.sessions_view() =~= old(self).sessions_view().insert(access_token@, player_id@));
        access_token
    }

    /// The player of the session that `token` opened, if any.
    pub fn player_id_from_session(&self, token: &str) -> (r: Option<String>)
        ensures
            match r {
                Some(p) => self.sessions_view().contains_key(token@) && p@ == self.sessions_view()[token@],
                None => !self.sessions_view().contains_key(token@),
            },
    {
        match self.sessions.get(token) {
            Some(p) => Some(copy_string(p)),
            None => None,
        }
    }
}

} // verus!
