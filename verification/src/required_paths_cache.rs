//! We provide an in-memory cache that maps commands to vectors of absolute paths.
//! - This mapping is populated when a command is executed and the arguments which "look like paths"
//!   are checked.
//! - The entries in this map are not updated once they have been created.
//! - When the user selects a command from the history, if we have a cache hit, then we only check
//!   those absolute paths.
//!
//! When the user runs a command `ls rel /abs` we detect that `rel` and `/abs` look like paths, and look for
//! them in the background. The cache then gets the command and the absolute paths of those that are there.
use crate::text::{clone_strings, texts};
use vstd::hash_map::StringHashMap;
use vstd::prelude::*;

verus! {

/// The absolute paths of the files that commands were seen to use.
pub struct RequiredPathsCache {
    entries: StringHashMap<Vec<String>>,
}

impl View for RequiredPathsCache {
    type V = Map<Seq<char>, Seq<Seq<char>>>;

    closed spec fn view(&self) -> Map<Seq<char>, Seq<Seq<char>>> {
        self.entries@.map_values(|paths: Vec<String>| texts(paths@))
    }
}

impl RequiredPathsCache {
    /// A cache without entries.
    pub fn new() -> (cache: Self)
        ensures
            cache@ == Map::<Seq<char>, Seq<Seq<char>>>::empty(),
    {
        let cache = RequiredPathsCache { entries: StringHashMap::new() };
        assert(cache@ =~= Map::empty());
        cache
    }
}

/// The entries once the paths of a command were noted.
pub open spec fn noted(
    entries: Map<Seq<char>, Seq<Seq<char>>>,
    command: Seq<char>,
    paths: Seq<Seq<char>>,
) -> Map<Seq<char>, Seq<Seq<char>>> {
    if entries.contains_key(command) {
        entries
    } else {
        entries.insert(command, paths)
    }
}

/// Once a command has an entry, it is not updated: what was noted first stays. Other entries do not change.
pub proof fn what_was_noted_first_stays(
    entries: Map<Seq<char>, Seq<Seq<char>>>,
    command: Seq<char>,
    paths: Seq<Seq<char>>,
    later: Seq<Seq<char>>,
    other: Seq<char>,
)
    requires
        other != command,
    ensures
        noted(entries, command, paths).contains_key(command),
        !entries.contains_key(command) ==> noted(entries, command, paths)[command] == paths,
        entries.contains_key(command) ==> noted(entries, command, paths)[command]
            == entries[command],
        noted(noted(entries, command, paths), command, later) == noted(entries, command, paths),
        noted(entries, command, paths).contains_key(other) == entries.contains_key(other),
        entries.contains_key(other) ==> noted(entries, command, paths)[other] == entries[other],
{
}

/// Notes the paths of a command, unless it has an entry already.
pub fn insert(cache: &mut RequiredPathsCache, s: String, paths: Vec<String>)
    ensures
        final(cache)@ == if old(cache)@.contains_key(s@) {
            old(cache)@
        } else {
            old(cache)@.insert(s@, texts(paths@))
        },
        final(cache)@ == noted(old(cache)@, s@, texts(paths@)),
{
    if !cache.entries.contains_key(s.as_str()) {
        let ghost before = cache@;
        let ghost key = s@;
        let ghost value = texts(paths@);
        cache.entries.insert(s, paths);
        assert(cache@ =~= before.insert(key, value));
    }
}

/// The paths of a command, if they were noted.
pub fn get(cache: &RequiredPathsCache, s: &str) -> (paths: Option<Vec<String>>)
    ensures
        paths is Some == cache@.contains_key(s@),
        paths is Some ==> texts(paths->0@) == cache@[s@],
{
    match cache.entries.get(s) {
        Some(paths) => Some(clone_strings(paths)),
        None => None,
    }
}

} // verus!
