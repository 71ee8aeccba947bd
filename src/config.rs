//! The options and icon rules that the rename logic reads.
use vstd::prelude::*;
use indexmap::IndexMap;
use crate::text::has_substring;

verus! {

/// `indexmap::IndexMap`, an ordered map; opaque here, read through
/// `rules_of` and the two functions below.
#[verifier::external_type_specification]
#[verifier::external_body]
#[verifier::reject_recursive_types(K)]
#[verifier::reject_recursive_types(V)]
#[verifier::reject_recursive_types(S)]
pub struct ExIndexMap<K, V, S>(IndexMap<K, V, S>);

/// The entries of an ordered map of patterns to icons, in insertion order.
pub uninterp spec fn rules_of(m: IndexMap<String, String>) -> Seq<(Seq<char>, Seq<char>)>;

/// Relies on `IndexMap::len`: the number of entries.
#[verifier::external_body]
fn rule_count(m: &IndexMap<String, String>) -> (r: usize)
    ensures
        r == rules_of(*m).len(),
{
    m.len()
}

/// Relies on `IndexMap::get_index`: the entry at position `i` in insertion
/// order, or `None` past the end.
#[verifier::external_body]
fn rule_at(m: &IndexMap<String, String>, i: usize) -> (r: Option<(&String, &String)>)
    ensures
        match r {
            Some((k, v)) => i < rules_of(*m).len() && rules_of(*m)[i as int] == (k@, v@),
            None => i >= rules_of(*m).len(),
        },
{
    m.get_index(i)
}

/// The number of rules of a configuration.
pub(crate) fn rule_count_of(c: &Config) -> (r: usize)
    ensures
        r == c.rules().len(),
{
    rule_count(&c.mappings)
}

/// The rule at position `i` of a configuration, or `None` past the end.
pub(crate) fn rule_at_of(c: &Config, i: usize) -> (r: Option<(&String, &String)>)
    ensures
        match r {
            Some((k, v)) => i < c.rules().len() && c.rules()[i as int] == (k@, v@),
            None => i >= c.rules().len(),
        },
{
    rule_at(&c.mappings, i)
}

/// Options besides the icon rules.
#[derive(Debug, Default)]
pub struct Other {
    /// Icon for a window that no rule matches.
    pub fallback_icon: Option<String>,
    /// Text between a workspace's ordinal and its icons.
    pub separator: Option<String>,
    /// Show each icon once per workspace.
    pub deduplicate_icons: bool,
}

/// Icon rules, first match wins, and the other options.
#[derive(Debug, Default)]
pub struct Config {
    /// Pattern to icon, in the order of declaration.
    pub mappings: IndexMap<String, String>,
    pub other: Other,
}

/// The fallback icon when none is configured.
pub open spec fn default_fallback_icon() -> Seq<char> {
    seq!['-']
}

/// The separator when none is configured, or the configured one is unusable.
pub open spec fn default_separator() -> Seq<char> {
    seq![':', ' ']
}

/// The icon for windows that no rule matches.
pub open spec fn fallback_of(o: Other) -> Seq<char> {
    match o.fallback_icon {
        Some(s) => s@,
        None => default_fallback_icon(),
    }
}

/// Some icon of `rules` holds `sep`.
pub open spec fn some_icon_holds(rules: Seq<(Seq<char>, Seq<char>)>, sep: Seq<char>) -> bool {
    exists|i: int| 0 <= i < rules.len() && has_substring(#[trigger] rules[i].1, sep)
}

/// The separator in use: the configured one, unless an icon or the fallback
/// icon holds it (it could not be told apart from them), else the default.
pub open spec fn separator_of(c: Config) -> Seq<char> {
    match c.other.separator {
        Some(sep) => if some_icon_holds(rules_of(c.mappings), sep@) || has_substring(
            fallback_of(c.other),
            sep@,
        ) {
            default_separator()
        } else {
            sep@
        },
        None => default_separator(),
    }
}

impl Config {
    /// The icon rules as (pattern, icon) pairs, in order.
    pub open spec fn rules(&self) -> Seq<(Seq<char>, Seq<char>)> {
        rules_of(self.mappings)
    }

    pub fn fallback_icon(&self) -> (r: &str)
        ensures
            r@ == fallback_of(self.other),
    {
        match &self.other.fallback_icon {
            Some(s) => s.as_str(),
            None => {
                proof {
                    reveal_strlit("-");
                }
                "-"
            },
        }
    }

    pub fn separator(&self) -> (r: &str)
        ensures
            r@ == separator_of(*self),
    {
        proof {
            reveal_strlit(": ");
        }
        match &self.other.separator {
            Some(sep) => {
                let n = rule_count(&self.mappings);
                let mut i: usize = 0;
                while i < n
                    invariant
                        i <= n,
                        n == self.rules().len(),
                        self.other.separator == Some(*sep),
                        forall|j: int| 0 <= j < i ==> !has_substring(#[trigger] self.rules()[j].1, sep@),
                    decreases n - i,
                {
                    if let Some((_, icon)) = rule_at(&self.mappings, i) {
                        if crate::text::contains(icon.as_str(), sep.as_str()) {
                            proof {
                                assert(has_substring(self.rules()[i as int].1, sep@));
                                reveal_strlit(": ");
                            }
                            return ": ";
                        }
                    }
                    i += 1;
                }
                if crate::text::contains(self.fallback_icon(), sep.as_str()) {
                    ": "
                } else {
                    sep.as_str()
                }
            },
            None => ": ",
        }
    }
}

} // verus!
