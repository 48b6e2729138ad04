//! Namespaced, layered configuration so services compose without key collisions.
//!
//! - Namespace by service: every service owns a top-level namespace and reads
//!   only its own [`Section`].
//! - Deterministic precedence: a later [`Config::layer`] overrides an earlier one
//!   for the same key.
use crate::text_map::TextMap;
use vstd::prelude::*;
use vstd::string::*;

verus! {

/// Configuration error surfaced when a required key is absent.
#[derive(Debug, Clone, PartialEq, Eq)]
pub enum ConfigError {
    /// A required key was not present in the resolved configuration.
    Missing(String),
}

impl ConfigError {
    /// The key that is missing.
    pub open spec fn key(self) -> Seq<char> {
        match self {
            ConfigError::Missing(key) => key@,
        }
    }

    /// The text that a person reads of the error.
    pub fn message(&self) -> (text: String)
        ensures
            text@ == "missing required config key `"@ + self.key() + "`"@,
    {
        match self {
            ConfigError::Missing(key) => "missing required config key `".to_owned().concat(
                key.as_str(),
            ).concat("`"),
        }
    }
}

/// A layered configuration. Each layer is a flat map of fully-qualified
/// `"<namespace>.<key>"` entries; later layers override earlier ones.
#[derive(Debug, Clone)]
pub struct Config {
    resolved: TextMap<String>,
}

impl View for Config {
    type V = Map<Seq<char>, Seq<char>>;

    closed spec fn view(&self) -> Map<Seq<char>, Seq<char>> {
        self.resolved@.map_values(|value: String| value@)
    }
}

/// The views of a layer's entries.
pub open spec fn entry_views(entries: Seq<(&str, &str)>) -> Seq<(Seq<char>, Seq<char>)> {
    entries.map_values(|entry: (&str, &str)| (entry.0@, entry.1@))
}

/// The settings with a layer on top: of several entries for one key the last
/// counts.
pub open spec fn layered(
    settings: Map<Seq<char>, Seq<char>>,
    entries: Seq<(Seq<char>, Seq<char>)>,
) -> Map<Seq<char>, Seq<char>>
    decreases entries.len(),
{
    if entries.len() == 0 {
        settings
    } else {
        layered(settings, entries.drop_last()).insert(entries.last().0, entries.last().1)
    }
}

/// The full name of a key in a namespace.
pub open spec fn qualified(namespace: Seq<char>, key: Seq<char>) -> Seq<char> {
    namespace + "."@ + key
}

impl Config {
    /// An empty configuration.
    pub fn new() -> (config: Self)
        ensures
            config@ == Map::<Seq<char>, Seq<char>>::empty(),
    {
        let config = Config { resolved: TextMap::new() };
        assert(config@ =~= Map::<Seq<char>, Seq<char>>::empty());
        config
    }

    /// Apply a layer. Entries override any earlier value for the same key, so
    /// callers layer from lowest precedence (defaults) to highest (flags). The
    /// configuration itself comes back, so that layers can be chained.
    pub fn layer(&mut self, entries: &[(&str, &str)]) -> (same: &mut Self)
        ensures
            same@ == layered(old(self)@, entry_views(entries@)),
            *final(self) == *final(same),
    {
        let ghost all = entry_views(entries@);
        let ghost before = self@;
        let mut resolved: TextMap<String> = TextMap::new();
        std::mem::swap(&mut resolved, &mut self.resolved);
        let mut i: usize = 0;
        assert(resolved@.map_values(|value: String| value@) =~= layered(before, all.take(0)));
        while i < entries.len()
            invariant
                i <= entries@.len(),
                all == entry_views(entries@),
                resolved@.map_values(|value: String| value@) == layered(
                    before,
                    all.take(i as int),
                ),
            decreases entries@.len() - i,
        {
            let (key, value) = entries[i];
            let ghost so_far = resolved@.map_values(|value: String| value@);
            resolved = resolved.insert(key, value.to_owned());
            i += 1;
            proof {
                assert(all.take(i as int).drop_last() =~= all.take(i - 1));
                assert(all.take(i as int).last() == (key@, value@));
                assert(resolved@.map_values(|value: String| value@) =~= so_far.insert(
                    key@,
                    value@,
                ));
            }
        }
        assert(all.take(all.len() as int) =~= all);
        self.resolved = resolved;
        self
    }

    /// View the section a single service owns. Keys inside are read relative to
    /// the namespace, so a service never sees, or collides with, another's.
    pub fn section<'a>(&'a self, namespace: &str) -> (section: Section<'a>)
        ensures
            section.settings() == self@,
            section.namespace() == namespace@,
    {
        let prefix = namespace.to_owned().concat(".");
        proof {
            reveal_strlit(".");
            assert(prefix@.drop_last() =~= namespace@);
        }
        Section { config: self, prefix }
    }
}

impl Default for Config {
    fn default() -> (config: Self)
        ensures
            config@ == Map::<Seq<char>, Seq<char>>::empty(),
    {
        Config::new()
    }
}

/// A read view scoped to one namespace. Constructed via [`Config::section`].
pub struct Section<'a> {
    config: &'a Config,
    prefix: String,
}

impl<'a> Section<'a> {
    #[verifier::type_invariant]
    spec fn ends_in_separator(self) -> bool {
        self.prefix@ == self.namespace() + "."@
    }

    /// All settings, in every namespace.
    pub closed spec fn settings(self) -> Map<Seq<char>, Seq<char>> {
        self.config@
    }

    /// The namespace of the section.
    pub closed spec fn namespace(self) -> Seq<char> {
        self.prefix@.drop_last()
    }

    /// The resolved value for `key` within this section, if present.
    pub fn get(&self, key: &str) -> (value: Option<&str>)
        ensures
            ({
                let name = qualified(self.namespace(), key@);
                match value {
                    Some(text) => self.settings().contains_key(name) && text@
                        == self.settings()[name],
                    None => !self.settings().contains_key(name),
                }
            }),
    {
        proof {
            use_type_invariant(self);
        }
        let name = self.prefix.clone().concat(key);
        match self.config.resolved.get(name.as_str()) {
            Some(value) => Some(value.as_str()),
            None => None,
        }
    }

    /// The resolved value for `key`, or [`ConfigError::Missing`] (fail closed: an
    /// absent required key is an error, never a silent default).
    pub fn require(&self, key: &str) -> (r: Result<&str, ConfigError>)
        ensures
            ({
                let name = qualified(self.namespace(), key@);
                match r {
                    Ok(text) => self.settings().contains_key(name) && text@
                        == self.settings()[name],
                    Err(error) => !self.settings().contains_key(name) && error.key() == name,
                }
            }),
    {
        proof {
            use_type_invariant(self);
        }
        match self.get(key) {
            Some(value) => Ok(value),
            None => Err(ConfigError::Missing(self.prefix.clone().concat(key))),
        }
    }
}

/// Later layers win: what the last layer says of a key counts, whatever was said
/// before; and what a layer does not mention stays.
pub proof fn later_layers_win(
    settings: Map<Seq<char>, Seq<char>>,
    entries: Seq<(Seq<char>, Seq<char>)>,
    key: Seq<char>,
)
    ensures
        forall|other: Map<Seq<char>, Seq<char>>|
            (exists|i: int| 0 <= i < entries.len() && (#[trigger] entries[i]).0 == key)
                ==> #[trigger] layered(other, entries).contains_key(key) && layered(
                other,
                entries,
            )[key] == layered(settings, entries)[key],
        (forall|i: int| 0 <= i < entries.len() ==> (#[trigger] entries[i]).0 != key) ==> layered(
            settings,
            entries,
        ).contains_key(key) == settings.contains_key(key) && layered(settings, entries)[key]
            == settings[key],
    decreases entries.len(),
{
    if entries.len() > 0 {
        let rest = entries.drop_last();
        later_layers_win(settings, rest, key);
        assert(forall|i: int| 0 <= i < rest.len() ==> #[trigger] rest[i] == entries[i]);
        assert forall|other: Map<Seq<char>, Seq<char>>|
            (exists|i: int| 0 <= i < entries.len() && (#[trigger] entries[i]).0 == key) implies
            #[trigger] layered(other, entries).contains_key(key) && layered(
            other,
            entries,
        )[key] == layered(settings, entries)[key] by {
            if entries.last().0 != key {
                let i = choose|i: int| 0 <= i < entries.len() && (#[trigger] entries[i]).0 == key;
                assert(rest[i].0 == key);
                assert(layered(other, rest).contains_key(key));
            }
        }
        if forall|i: int| 0 <= i < entries.len() ==> (#[trigger] entries[i]).0 != key {
            assert forall|i: int| 0 <= i < rest.len() implies (#[trigger] rest[i]).0 != key by {
                assert(rest[i] == entries[i]);
            }
            assert(entries[entries.len() - 1].0 != key);
        }
    }
}

/// Namespaces isolate services: two namespaces without a dot never name the same
/// setting, whatever their keys.
pub proof fn namespaces_do_not_collide(
    one: Seq<char>,
    other: Seq<char>,
    key: Seq<char>,
    other_key: Seq<char>,
)
    requires
        one != other,
        !one.contains('.'),
        !other.contains('.'),
    ensures
        qualified(one, key) != qualified(other, other_key),
{
    reveal_strlit(".");
    let a = qualified(one, key);
    let b = qualified(other, other_key);
    if a == b {
        assert(a[one.len() as int] == '.');
        assert(b[other.len() as int] == '.');
        if one.len() < other.len() {
            assert(other[one.len() as int] == b[one.len() as int]);
            assert(other.contains('.'));
        } else if other.len() < one.len() {
            assert(one[other.len() as int] == a[other.len() as int]);
            assert(one.contains('.'));
        } else {
            assert(one =~= a.take(one.len() as int));
            assert(other =~= b.take(other.len() as int));
        }
    }
}

} // verus!
