//! Which history a session uses, and private mode.
use crate::text::opt_text;
use vstd::hash_map::StringHashMap;
use vstd::prelude::*;

verus! {

/// This is the history session ID we use by default if the user has not set env var fish_history.
pub const DFLT_FISH_HISTORY_SESSION_ID: &'static str = "fish";

/// The variables of a session, each with its value as one string.
pub struct EnvVars {
    values: StringHashMap<String>,
}

impl View for EnvVars {
    type V = Map<Seq<char>, Seq<char>>;

    closed spec fn view(&self) -> Map<Seq<char>, Seq<char>> {
        self.values@.map_values(|value: String| value@)
    }
}

/// The variables that a list of names and values sets, one after the other.
pub open spec fn vars_of(pairs: Seq<(String, String)>) -> Map<Seq<char>, Seq<char>>
    decreases pairs.len(),
{
    if pairs.len() == 0 {
        Map::empty()
    } else {
        vars_of(pairs.drop_last()).insert(pairs.last().0@, pairs.last().1@)
    }
}

/// The value of a variable, if it is set.
pub open spec fn value_of(vars: Map<Seq<char>, Seq<char>>, name: Seq<char>) -> Option<Seq<char>> {
    if vars.contains_key(name) {
        Some(vars[name])
    } else {
        None
    }
}

impl EnvVars {
    /// The variables with the given names and values.
    pub fn new(pairs: Vec<(String, String)>) -> (vars: Self)
        ensures
            vars@ == vars_of(pairs@),
    {
        let mut vars = EnvVars { values: StringHashMap::new() };
        assert(vars@ =~= vars_of(pairs@.take(0)));
        for pair in it: pairs
            invariant
                it.seq() == pairs@,
                vars@ == vars_of(pairs@.take(it.index())),
        {
            let ghost i = it.index();
            assert(pairs@.take(i + 1).drop_last() =~= pairs@.take(i));
            vars.set_one(pair.0, pair.1);
        }
        assert(pairs@.take(pairs@.len() as int) =~= pairs@);
        vars
    }

    fn set_one(&mut self, name: String, value: String)
        ensures
            final(self)@ == old(self)@.insert(name@, value@),
    {
        let ghost before = self@;
        self.values.insert(name, value);
        assert(self@ =~= before.insert(name@, value@));
    }

    /// The value of a variable.
    pub fn get(&self, name: &str) -> (value: Option<String>)
        ensures
            value is Some == value_of(self@, name@) is Some,
            value is Some ==> value->0@ == value_of(self@, name@)->0,
    {
        match self.values.get(name) {
            Some(value) => Some(value.clone()),
            None => None,
        }
    }
}

/// `id` is the session ID that a value of the variable stands for, as `valid_var_name` judges it: the
/// default for no value and for one that would not do as the name of a variable, the value otherwise.
pub open spec fn is_session_id<F: Fn(&str) -> bool>(
    value: Option<Seq<char>>,
    valid_var_name: F,
    id: Seq<char>,
) -> bool {
    match value {
        None => id == DFLT_FISH_HISTORY_SESSION_ID@,
        Some(value) => if value.len() == 0 {
            id == value
        } else {
            exists|name: &str, valid: bool|
                name@ == value && #[trigger] call_ensures(valid_var_name, (name,), valid) && id
                    == if valid {
                    value
                } else {
                    DFLT_FISH_HISTORY_SESSION_ID@
                }
        },
    }
}

/// Return the prefix for the files to be used for command and read history.
pub fn history_session_id<F: Fn(&str) -> bool>(vars: &EnvVars, valid_var_name: F) -> (id: String)
    requires
        forall|name: &str| call_requires(valid_var_name, (name,)),
    ensures
        is_session_id(value_of(vars@, "fish_history"@), valid_var_name, id@),
{
    history_session_id_from_var(vars.get("fish_history"), valid_var_name)
}

/// The session ID for the value of the variable `fish_history`. An empty value stands for itself, and
/// so does one that would do as the name of a variable; otherwise we fall back to the default.
pub fn history_session_id_from_var<F: Fn(&str) -> bool>(
    history_name_var: Option<String>,
    valid_var_name: F,
) -> (id: String)
    requires
        forall|name: &str| call_requires(valid_var_name, (name,)),
    ensures
        is_session_id(opt_text(history_name_var), valid_var_name, id@),
{
    match history_name_var {
        None => DFLT_FISH_HISTORY_SESSION_ID.to_owned(),
        Some(session_id) => {
            if session_id.as_str().is_empty() || valid_var_name(session_id.as_str()) {
                session_id
            } else {
                DFLT_FISH_HISTORY_SESSION_ID.to_owned()
            }
        },
    }
}

/// The variables once private mode was started: the history has no name, and `fish_private_mode` is
/// set.
pub open spec fn private_vars(vars: Map<Seq<char>, Seq<char>>) -> Map<Seq<char>, Seq<char>> {
    vars.insert("fish_history"@, ""@).insert("fish_private_mode"@, "1"@)
}

/// The variables say that the session is private.
pub open spec fn is_private(vars: Map<Seq<char>, Seq<char>>) -> bool {
    value_of(vars, "fish_private_mode"@) is Some && value_of(vars, "fish_private_mode"@)->0.len() > 0
}

/// Sets private mode on. Once in private mode, it cannot be turned off.
pub fn start_private_mode(vars: &mut EnvVars)
    ensures
        final(vars)@ == private_vars(old(vars)@),
{
    vars.set_one("fish_history".to_owned(), "".to_owned());
    vars.set_one("fish_private_mode".to_owned(), "1".to_owned());
}

/// Queries private mode status.
pub fn in_private_mode(vars: &EnvVars) -> (private: bool)
    ensures
        private == is_private(vars@),
{
    match vars.get("fish_private_mode") {
        Some(value) => !value.as_str().is_empty(),
        None => false,
    }
}

/// Starting private mode leads into it, whatever the variables were, and nothing but the two variables
/// that it is made of changes.
pub proof fn private_mode_is_on_once_started(vars: Map<Seq<char>, Seq<char>>)
    ensures
        is_private(private_vars(vars)),
        forall|name: Seq<char>|
            name != "fish_history"@ && name != "fish_private_mode"@ ==> #[trigger] value_of(
                private_vars(vars),
                name,
            ) == value_of(vars, name),
{
    reveal_strlit("1");
}

/// In private mode the session ID is empty, so that there is no history file, whatever is taken for
/// the name of a variable.
pub proof fn private_sessions_have_no_name<F: Fn(&str) -> bool>(
    vars: Map<Seq<char>, Seq<char>>,
    valid_var_name: F,
    id: Seq<char>,
)
    requires
        is_session_id(value_of(private_vars(vars), "fish_history"@), valid_var_name, id),
    ensures
        id.len() == 0,
{
    reveal_strlit("");
    reveal_strlit("fish_history");
    reveal_strlit("fish_private_mode");
    assert("fish_history"@[5] != "fish_private_mode"@[5]);
}

/// A variable is set just if it has a place in the list, and has the value of its last place.
pub proof fn the_last_value_counts(pairs: Seq<(String, String)>, name: Seq<char>, i: int)
    ensures
        vars_of(pairs).contains_key(name) <==> exists|k: int|
            0 <= k < pairs.len() && (#[trigger] pairs[k]).0@ == name,
        0 <= i < pairs.len() && pairs[i].0@ == name && (forall|k: int|
            i < k < pairs.len() ==> (#[trigger] pairs[k]).0@ != name) ==> vars_of(pairs)[name]
            == pairs[i].1@,
    decreases pairs.len(),
{
    if pairs.len() > 0 {
        let less = pairs.drop_last();
        let last = pairs.len() - 1;
        the_last_value_counts(less, name, i);
        if vars_of(less).contains_key(name) {
            let k = choose|k: int| 0 <= k < less.len() && (#[trigger] less[k]).0@ == name;
            assert(pairs[k].0@ == name);
        }
        if exists|k: int| 0 <= k < pairs.len() && (#[trigger] pairs[k]).0@ == name {
            let k = choose|k: int| 0 <= k < pairs.len() && (#[trigger] pairs[k]).0@ == name;
            if k < last {
                assert(less[k].0@ == name);
            }
        }
        if 0 <= i < last && pairs[i].0@ == name && (forall|k: int|
            i < k < pairs.len() ==> (#[trigger] pairs[k]).0@ != name) {
            assert(pairs[last].0@ != name);
            assert forall|k: int| i < k < less.len() implies (#[trigger] less[k]).0@ != name by {
                assert(pairs[k].0@ != name);
            }
            assert(less[i] == pairs[i]);
        }
        if vars_of(pairs).contains_key(name) && !vars_of(less).contains_key(name) {
            assert(pairs[last].0@ == name);
        }
    }
}

/// Without a value the session ID is the default. An empty value stands for itself, and so does one that is
/// found valid; one that is found invalid gives the default.
pub proof fn a_session_is_named_by_a_valid_value<F: Fn(&str) -> bool>(
    value: Seq<char>,
    valid_var_name: F,
    id: Seq<char>,
    valid: bool,
)
    requires
        forall|name: &str, answer: bool|
            name@ == value && #[trigger] call_ensures(valid_var_name, (name,), answer) ==> answer
                == valid,
    ensures
        is_session_id(None, valid_var_name, id) ==> id == "fish"@,
        is_session_id(Some(value), valid_var_name, id) && value.len() == 0 ==> id.len() == 0,
        is_session_id(Some(value), valid_var_name, id) && value.len() > 0 && valid ==> id == value,
        is_session_id(Some(value), valid_var_name, id) && value.len() > 0 && !valid ==> id
            == "fish"@,
{
}

/// A session is private just if `fish_private_mode` is set, and not to nothing.
pub proof fn a_session_is_private_if_the_variable_is_set(vars: Map<Seq<char>, Seq<char>>)
    ensures
        is_private(vars) <==> vars.contains_key("fish_private_mode"@)
            && vars["fish_private_mode"@].len() > 0,
        private_vars(vars).contains_key("fish_history"@),
        private_vars(vars)["fish_history"@].len() == 0,
        private_vars(vars)["fish_private_mode"@] == "1"@,
{
    reveal_strlit("");
    reveal_strlit("fish_history");
    reveal_strlit("fish_private_mode");
    assert("fish_history"@[5] != "fish_private_mode"@[5]);
}

} // verus!
