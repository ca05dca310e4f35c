//! Registries of achievement, entitlement and concept definitions, keyed by
//! `developer:game:id:v<version>` (concepts by their own key).

use vstd::prelude::*;
use crate::achievement::AchievementDefinition;
use crate::hd::BitVec;
use crate::table::{entries_map, keyed, Table};
use crate::text::{decimal_text, digit_text, push_decimal};

verus! {

/// The key of a definition: `developer:game:id:v<version>`.
pub open spec fn registry_key(dev: Seq<char>, game: Seq<char>, id: Seq<char>, version: u32) -> Seq<
    char,
> {
    dev + ":"@ + game + ":"@ + id + ":v"@ + decimal_text(version as nat)
}

fn key(dev: &str, game: &str, id: &str, version: u32) -> (r: String)
    ensures
        r@ == registry_key(dev@, game@, id@, version),
{
    let mut k = String::from_str(dev);
    k.append(":");
    k.append(game);
    k.append(":");
    k.append(id);
    k.append(":v");
    push_decimal(&mut k, version as u64);
    k
}

/// Achievement definitions by developer, game, id and version.
pub struct AchievementRegistry {
    achievements: Table<AchievementDefinition>,
}

impl AchievementRegistry {
    /// The definitions by key.
    pub closed spec fn map(&self) -> Map<Seq<char>, AchievementDefinition> {
        self.achievements.map()
    }

    /// An empty registry.
    pub fn new() -> (r: Self)
        ensures
            r.map() == Map::<Seq<char>, AchievementDefinition>::empty(),
    {
        AchievementRegistry { achievements: Table::new() }
    }

    /// Adds `def` under its own key, replacing a definition there.
    pub fn insert(&mut self, def: AchievementDefinition)
        ensures
            final(self).map() == old(self).map().insert(
                registry_key(def@.developer, def@.game, def@.achievement_id, def@.version),
                def,
            ),
    {
        let k = key(def.developer(), def.game(), def.achievement_id(), def.version());
        self.achievements.insert(k, def);
    }

    /// Adds `def` under `key` as a saved registry holds it.
    pub fn insert_entry(&mut self, key: String, def: AchievementDefinition)
        ensures
            final(self).map() == old(self).map().insert(key@, def),
    {
        self.achievements.insert(key, def);
    }

    /// The definition of that identity, if registered.
    pub fn get(&self, developer: &str, game: &str, id: &str, version: u32) -> (r: Option<
        &AchievementDefinition,
    >)
        ensures
            match r {
                Some(d) => self.map().contains_key(registry_key(developer@, game@, id@, version))
                    && *d == self.map()[registry_key(developer@, game@, id@, version)],
                None => !self.map().contains_key(registry_key(developer@, game@, id@, version)),
            },
    {
        let k = key(developer, game, id, version);
        self.achievements.get(k.as_str())
    }

    /// The entries by key, oldest first.
    pub fn entries(&self) -> (r: &[(String, AchievementDefinition)])
        ensures
            entries_map(keyed(r@)) == self.map(),
    {
        self.achievements.entries()
    }
}

impl Default for AchievementRegistry {
    fn default() -> (r: Self)
        ensures
            r.map() == Map::<Seq<char>, AchievementDefinition>::empty(),
    {
        AchievementRegistry::new()
    }
}

/// A definition read back after it was inserted is the one inserted.
pub proof fn lemma_achievement_insert_get(
    before: AchievementRegistry,
    after: AchievementRegistry,
    def: AchievementDefinition,
)
    requires
        after.map() == before.map().insert(
            registry_key(def@.developer, def@.game, def@.achievement_id, def@.version),
            def,
        ),
    ensures
        after.map().contains_key(
            registry_key(def@.developer, def@.game, def@.achievement_id, def@.version),
        ),
        after.map()[registry_key(def@.developer, def@.game, def@.achievement_id, def@.version)]
            == def,
        forall|k: Seq<char>|
            k != registry_key(def@.developer, def@.game, def@.achievement_id, def@.version)
                ==> after.map().contains_key(k) == before.map().contains_key(k) && (
            before.map().contains_key(k) ==> after.map()[k] == before.map()[k]),
{
}

/// `s` holds no colon.
pub open spec fn colon_free(s: Seq<char>) -> bool {
    forall|i: int| 0 <= i < s.len() ==> s[i] != ':'
}

/// The digit text of a digit is that digit's single character, below
/// the colon and above every other digit's.
proof fn lemma_digit_text(d: int)
    requires
        0 <= d < 10,
    ensures
        digit_text(d).len() == 1,
        digit_text(d)[0] == (('0' as int) + d) as char,
{
    reveal_strlit("0");
    reveal_strlit("1");
    reveal_strlit("2");
    reveal_strlit("3");
    reveal_strlit("4");
    reveal_strlit("5");
    reveal_strlit("6");
    reveal_strlit("7");
    reveal_strlit("8");
    reveal_strlit("9");
}

/// Decimal text is digits only, and at least two of them from ten on.
proof fn lemma_decimal_text_digits(n: nat)
    ensures
        decimal_text(n).len() >= 1,
        n >= 10 ==> decimal_text(n).len() >= 2,
        forall|i: int| 0 <= i < decimal_text(n).len() ==> '0' <= #[trigger] decimal_text(n)[i] <= '9',
    decreases n,
{
    if n < 10 {
        lemma_digit_text(n as int);
    } else {
        lemma_decimal_text_digits(n / 10);
        lemma_digit_text((n % 10) as int);
        let a = decimal_text(n / 10);
        let b = digit_text((n % 10) as int);
        assert forall|i: int| 0 <= i < decimal_text(n).len() implies '0' <= #[trigger] decimal_text(n)[i] <= '9' by {
            if i < a.len() {
                assert(decimal_text(n)[i] == a[i]);
            } else {
                assert(decimal_text(n)[i] == b[i - a.len()]);
            }
        }
    }
}

/// Different numbers have different decimal texts.
proof fn lemma_decimal_text_injective(a: nat, b: nat)
    requires
        decimal_text(a) == decimal_text(b),
    ensures
        a == b,
    decreases a,
{
    lemma_decimal_text_digits(a);
    lemma_decimal_text_digits(b);
    if a < 10 && b < 10 {
        lemma_digit_text(a as int);
        lemma_digit_text(b as int);
        assert(decimal_text(a)[0] == decimal_text(b)[0]);
        assert(a == b);
    } else if a < 10 || b < 10 {
        if a < 10 {
            lemma_digit_text(a as int);
        } else {
            lemma_digit_text(b as int);
        }
        assert(decimal_text(a).len() == decimal_text(b).len());
    } else {
        let ta = decimal_text(a);
        let tb = decimal_text(b);
        lemma_digit_text((a % 10) as int);
        lemma_digit_text((b % 10) as int);
        assert(ta.last() == tb.last());
        assert(ta.last() == digit_text((a % 10) as int)[0]);
        assert(tb.last() == digit_text((b % 10) as int)[0]);
        assert(a % 10 == b % 10);
        assert(ta.drop_last() =~= decimal_text(a / 10));
        assert(tb.drop_last() =~= decimal_text(b / 10));
        lemma_decimal_text_injective(a / 10, b / 10);
        assert(a == 10 * (a / 10) + a % 10);
        assert(b == 10 * (b / 10) + b % 10);
    }
}

/// Texts without a colon, each followed by a colon, are told apart there.
proof fn lemma_split_at_colon(a1: Seq<char>, r1: Seq<char>, a2: Seq<char>, r2: Seq<char>)
    requires
        colon_free(a1),
        colon_free(a2),
        a1 + ":"@ + r1 == a2 + ":"@ + r2,
    ensures
        a1 == a2,
        r1 == r2,
{
    reveal_strlit(":");
    let k = a1 + ":"@ + r1;
    if a1.len() < a2.len() {
        assert(k[a1.len() as int] == ':');
        assert((a2 + ":"@ + r2)[a1.len() as int] == a2[a1.len() as int]);
    } else if a2.len() < a1.len() {
        assert((a2 + ":"@ + r2)[a2.len() as int] == ':');
        assert(k[a2.len() as int] == a1[a2.len() as int]);
    }
    assert(a1 =~= k.subrange(0, a1.len() as int));
    assert(a2 =~= (a2 + ":"@ + r2).subrange(0, a2.len() as int));
    assert(r1 =~= k.subrange(a1.len() as int + 1, k.len() as int));
    assert(r2 =~= (a2 + ":"@ + r2).subrange(a2.len() as int + 1, k.len() as int));
}

/// Keys of identities whose developer, game and id hold no colon are equal
/// only for the same identity.
pub proof fn lemma_registry_key_injective(
    d1: Seq<char>,
    g1: Seq<char>,
    i1: Seq<char>,
    v1: u32,
    d2: Seq<char>,
    g2: Seq<char>,
    i2: Seq<char>,
    v2: u32,
)
    requires
        colon_free(d1),
        colon_free(g1),
        colon_free(i1),
        colon_free(d2),
        colon_free(g2),
        colon_free(i2),
        registry_key(d1, g1, i1, v1) == registry_key(d2, g2, i2, v2),
    ensures
        d1 == d2,
        g1 == g2,
        i1 == i2,
        v1 == v2,
{
    reveal_strlit(":v");
    reveal_strlit(":");
    reveal_strlit("v");
    let t1 = decimal_text(v1 as nat);
    let t2 = decimal_text(v2 as nat);
    assert(registry_key(d1, g1, i1, v1) =~= d1 + ":"@ + (g1 + ":"@ + (i1 + ":"@ + ("v"@ + t1))));
    assert(registry_key(d2, g2, i2, v2) =~= d2 + ":"@ + (g2 + ":"@ + (i2 + ":"@ + ("v"@ + t2))));
    lemma_split_at_colon(d1, g1 + ":"@ + (i1 + ":"@ + ("v"@ + t1)), d2, g2 + ":"@ + (i2 + ":"@ + ("v"@ + t2)));
    assert(g1 + ":"@ + (i1 + ":"@ + ("v"@ + t1)) =~= g1 + ":"@ + (i1 + ":"@ + ("v"@ + t1)));
    lemma_split_at_colon(g1, i1 + ":"@ + ("v"@ + t1), g2, i2 + ":"@ + ("v"@ + t2));
    lemma_split_at_colon(i1, "v"@ + t1, i2, "v"@ + t2);
    assert(t1 =~= ("v"@ + t1).drop_first());
    assert(t2 =~= ("v"@ + t2).drop_first());
    lemma_decimal_text_injective(v1 as nat, v2 as nat);
}

/// Inserting a definition leaves the lookup of every other identity as it
/// was, where developers, games and ids hold no colon.
pub proof fn lemma_achievement_insert_keeps_others(
    before: AchievementRegistry,
    after: AchievementRegistry,
    def: AchievementDefinition,
    developer: Seq<char>,
    game: Seq<char>,
    achievement_id: Seq<char>,
    version: u32,
)
    requires
        after.map() == before.map().insert(
            registry_key(def@.developer, def@.game, def@.achievement_id, def@.version),
            def,
        ),
        colon_free(def@.developer),
        colon_free(def@.game),
        colon_free(def@.achievement_id),
        colon_free(developer),
        colon_free(game),
        colon_free(achievement_id),
        (developer, game, achievement_id, version) != (def@.developer, def@.game, def@.achievement_id, def@.version),
    ensures
        ({
            let k = registry_key(developer, game, achievement_id, version);
            &&& after.map().contains_key(k) == before.map().contains_key(k)
            &&& before.map().contains_key(k) ==> after.map()[k] == before.map()[k]
        }),
{
    if registry_key(developer, game, achievement_id, version) == registry_key(
        def@.developer,
        def@.game,
        def@.achievement_id,
        def@.version,
    ) {
        lemma_registry_key_injective(
            developer,
            game,
            achievement_id,
            version,
            def@.developer,
            def@.game,
            def@.achievement_id,
            def@.version,
        );
    }
}

/// An entitlement that can be awarded.
#[derive(Clone, Debug)]
pub struct EntitlementDefinition {
    pub developer: String,
    pub game: String,
    pub entitlement_id: String,
    pub version: u32,
    pub item_type: String,
    pub item_id: String,
    pub description: String,
}

/// Entitlement definitions by developer, game, id and version.
pub struct EntitlementRegistry {
    entitlements: Table<EntitlementDefinition>,
}

impl EntitlementRegistry {
    /// The definitions by key.
    pub closed spec fn map(&self) -> Map<Seq<char>, EntitlementDefinition> {
        self.entitlements.map()
    }

    /// An empty registry.
    pub fn new() -> (r: Self)
        ensures
            r.map() == Map::<Seq<char>, EntitlementDefinition>::empty(),
    {
        EntitlementRegistry { entitlements: Table::new() }
    }

    /// Adds `def` under its own key, replacing a definition there.
    pub fn insert(&mut self, def: EntitlementDefinition)
        ensures
            final(self).map() == old(self).map().insert(
                registry_key(def.developer@, def.game@, def.entitlement_id@, def.version),
                def,
            ),
    {
        let k = key(def.developer.as_str(), def.game.as_str(), def.entitlement_id.as_str(), def.version);
        self.entitlements.insert(k, def);
    }

    /// Adds `def` under `key` as a saved registry holds it.
    pub fn insert_entry(&mut self, key: String, def: EntitlementDefinition)
        ensures
            final(self).map() == old(self).map().insert(key@, def),
    {
        self.entitlements.insert(key, def);
    }

    /// The definition of that identity, if registered.
    pub fn get(&self, developer: &str, game: &str, id: &str, version: u32) -> (r: Option<
        &EntitlementDefinition,
    >)
        ensures
            match r {
                Some(d) => self.map().contains_key(registry_key(developer@, game@, id@, version))
                    && *d == self.map()[registry_key(developer@, game@, id@, version)],
                None => !self.map().contains_key(registry_key(developer@, game@, id@, version)),
            },
    {
        let k = key(developer, game, id, version);
        self.entitlements.get(k.as_str())
    }

    /// The entries by key, oldest first.
    pub fn entries(&self) -> (r: &[(String, EntitlementDefinition)])
        ensures
            entries_map(keyed(r@)) == self.map(),
    {
        self.entitlements.entries()
    }
}

impl Default for EntitlementRegistry {
    fn default() -> (r: Self)
        ensures
            r.map() == Map::<Seq<char>, EntitlementDefinition>::empty(),
    {
        EntitlementRegistry::new()
    }
}

/// Concept vectors by name.
pub struct ConceptRegistry {
    concepts: Table<BitVec>,
}

impl ConceptRegistry {
    /// The vectors by key.
    pub closed spec fn map(&self) -> Map<Seq<char>, BitVec> {
        self.concepts.map()
    }

    /// An empty registry.
    pub fn new() -> (r: Self)
        ensures
            r.map() == Map::<Seq<char>, BitVec>::empty(),
    {
        ConceptRegistry { concepts: Table::new() }
    }

    /// Sets the vector for `key`.
    pub fn insert(&mut self, key: String, vec: BitVec)
        ensures
            final(self).map() == old(self).map().insert(key@, vec),
    {
        self.concepts.insert(key, vec);
    }

    /// The vector for `key`, if any.
    pub fn get(&self, key: &str) -> (r: Option<&BitVec>)
        ensures
            match r {
                Some(v) => self.map().contains_key(key@) && *v == self.map()[key@],
                None => !self.map().contains_key(key@),
            },
    {
        self.concepts.get(key)
    }

    /// The entries by key, oldest first.
    pub fn entries(&self) -> (r: &[(String, BitVec)])
        ensures
            entries_map(keyed(r@)) == self.map(),
    {
        self.concepts.entries()
    }
}

impl Default for ConceptRegistry {
    fn default() -> (r: Self)
        ensures
            r.map() == Map::<Seq<char>, BitVec>::empty(),
    {
        ConceptRegistry::new()
    }
}

} // verus!
