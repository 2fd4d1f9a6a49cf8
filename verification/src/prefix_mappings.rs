//! The table that maps each logical prefix to its canonical code.
//!
//! The table is built once, from YAML text or from a list of pairs, and is
//! only read afterwards.

use vstd::hash_map::StringHashMap;
use vstd::prelude::*;

verus! {

/// The error of the YAML parser, carried through unread.
#[verifier::external_type_specification]
#[verifier::external_body]
pub struct ExYamlError(serde_yaml::Error);

/// The error of a failed read, carried through unread.
#[verifier::external_type_specification]
#[verifier::external_body]
pub struct ExIoError(std::io::Error);

/// Why no table could be loaded.
#[derive(Debug)]
pub enum LoadError {
    /// The YAML file could not be read. The library reads no file: this
    /// variant is for the caller that does.
    ReadError(std::io::Error),
    /// The text is not a YAML mapping from strings to strings.
    ParseError(serde_yaml::Error),
}

impl LoadError {
    /// The text that describes the error.
    pub fn message(&self) -> (text: String)
        ensures
            self is ReadError ==> text@ == "failed to read the YAML file"@,
            self is ParseError ==> text@ == "failed to parse the YAML file"@,
    {
        match self {
            LoadError::ReadError(_) => "failed to read the YAML file".to_owned(),
            LoadError::ParseError(_) => "failed to parse the YAML file".to_owned(),
        }
    }
}

/// What `serde_yaml::from_str` makes of `text` when it is asked for a map from
/// strings to strings: the map, or `None` where it reports an error.
pub uninterp spec fn yaml_mappings(text: Seq<char>) -> Option<Map<Seq<char>, Seq<char>>>;

/// The map that a list of pairs stands for. Of two pairs with the same key the
/// later one counts.
pub open spec fn entries_map(entries: Seq<(String, String)>) -> Map<Seq<char>, Seq<char>>
    decreases entries.len(),
{
    if entries.len() == 0 {
        Map::empty()
    } else {
        entries_map(entries.drop_last()).insert(entries.last().0@, entries.last().1@)
    }
}

/// Calls `serde_yaml::from_str` for a `HashMap<String, String>` and hands out
/// its pairs, in the order in which the map is walked. Trusted: the pairs
/// stand for the map that `yaml_mappings` names, and an error is returned
/// exactly where that name is `None`. A hash map holds each key once, so the
/// map that the pairs stand for does not depend on their order.
#[verifier::external_body]
fn parse_yaml(yaml_content: &str) -> (parsed: Result<Vec<(String, String)>, serde_yaml::Error>)
    ensures
        match parsed {
            Ok(entries) => yaml_mappings(yaml_content@) == Some(entries_map(entries@)),
            Err(_) => yaml_mappings(yaml_content@) is None,
        },
{
    match serde_yaml::from_str::<std::collections::HashMap<String, String>>(yaml_content) {
        Ok(mappings) => Ok(mappings.into_iter().collect()),
        Err(error) => Err(error),
    }
}

/// The prefix table.
pub struct PrefixMappings {
    mappings: StringHashMap<String>,
}

impl View for PrefixMappings {
    type V = Map<Seq<char>, Seq<char>>;

    closed spec fn view(&self) -> Map<Seq<char>, Seq<char>> {
        self.mappings@.map_values(|code: String| code@)
    }
}

impl PrefixMappings {
    /// The table that holds the given pairs. Of two pairs with the same prefix
    /// the later one counts.
    pub fn from_entries(entries: Vec<(String, String)>) -> (table: Self)
        ensures
            table@ == entries_map(entries@),
    {
        let mut mappings: StringHashMap<String> = StringHashMap::new();
        let mut i: usize = 0;
        assert(entries@.take(0) =~= Seq::empty());
        assert(mappings@.map_values(|code: String| code@) =~= Map::empty());
        while i < entries.len()
            invariant
                i <= entries@.len(),
                mappings@.map_values(|code: String| code@) == entries_map(entries@.take(i as int)),
            decreases entries@.len() - i,
        {
            let prefix = entries[i].0.clone();
            let code = entries[i].1.clone();
            let ghost before = mappings@;
            mappings.insert(prefix, code);
            proof {
                let next = entries@.take(i + 1);
                assert(next.drop_last() =~= entries@.take(i as int));
                assert(next.last() == entries@[i as int]);
                assert(mappings@.map_values(|code: String| code@) =~= before.map_values(
                    |code: String| code@,
                ).insert(prefix@, code@));
            }
            i += 1;
        }
        assert(entries@.take(i as int) =~= entries@);
        PrefixMappings { mappings }
    }

    /// Parses the YAML text of a prefix table: a mapping from each logical
    /// prefix to its canonical code. The table is what the YAML parser makes
    /// of the text, and the text is rejected exactly where the parser rejects
    /// it.
    pub fn new(yaml_content: &str) -> (loaded: Result<Self, LoadError>)
        ensures
            match loaded {
                Ok(table) => yaml_mappings(yaml_content@) == Some(table@),
                Err(error) => error is ParseError && yaml_mappings(yaml_content@) is None,
            },
    {
        match parse_yaml(yaml_content) {
            Ok(entries) => Ok(PrefixMappings::from_entries(entries)),
            Err(error) => Err(LoadError::ParseError(error)),
        }
    }

    /// The canonical code of `key`, or `None` where the table has no such
    /// prefix.
    pub fn get(&self, key: &str) -> (code: Option<&String>)
        ensures
            match code {
                Some(code) => self@.contains_key(key@) && code@ == self@[key@],
                None => !self@.contains_key(key@),
            },
    {
        self.mappings.get(key)
    }
}

} // verus!
