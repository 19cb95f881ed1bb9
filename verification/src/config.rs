//! The service's configuration and the rules by which it is read from a list
//! of environment variables.

use vstd::prelude::*;
use vstd::string::*;
use crate::port::{parse_port, port_of};

verus! {

/// What the service needs to come up.
#[derive(Debug, Clone, PartialEq, Eq)]
pub struct Config {
    /// The TCP port on which the service listens.
    pub port: u16,
    /// The connection string of the datastore.
    pub database_url: String,
}

/// The mathematical value of a [`Config`].
pub struct ConfigView {
    pub port: u16,
    pub database_url: Seq<char>,
}

impl View for Config {
    type V = ConfigView;

    open spec fn view(&self) -> ConfigView {
        ConfigView { port: self.port, database_url: self.database_url@ }
    }
}

/// Why a list of variables gives no configuration.
#[derive(Debug, Clone, Copy, PartialEq, Eq)]
pub enum ConfigError {
    /// No variable names the port.
    MissingPort,
    /// Two or more variables name the port.
    DuplicatePort,
    /// The port's value is not a number from 0 to 65535.
    InvalidPort,
    /// No variable names the datastore.
    MissingDatabaseUrl,
    /// Two or more variables name the datastore.
    DuplicateDatabaseUrl,
}

/// Where, in a list of variables, a field's value is found.
#[derive(Debug, Clone, Copy, PartialEq, Eq)]
pub enum Binding {
    /// No variable names the field.
    Absent,
    /// Exactly one does: the one at this index.
    Sole(usize),
    /// Two or more do.
    Repeated,
}

/// The field that holds the port.
pub open spec fn port_field() -> Seq<char> {
    "port"@
}

/// The field that holds the datastore's connection string.
pub open spec fn database_url_field() -> Seq<char> {
    "database_url"@
}

/// Whether `c` is `lower` or the ASCII capital of `lower`.
pub open spec fn folds_to(c: char, lower: char) -> bool {
    c == lower || (65 <= c as u32 && c as u32 <= 90 && c as u32 + 32 == lower as u32)
}

/// Whether a variable called `name` sets the field `field`: the two are equal
/// up to the case of ASCII letters, the field's name being in lower case.
pub open spec fn names_field(name: Seq<char>, field: Seq<char>) -> bool {
    &&& name.len() == field.len()
    &&& forall|i: int| 0 <= i < name.len() ==> folds_to(#[trigger] name[i], field[i])
}

/// Whether the variable at index `i` sets `field`.
pub open spec fn binds(vars: Seq<(String, String)>, i: int, field: Seq<char>) -> bool {
    0 <= i < vars.len() && names_field(vars[i].0@, field)
}

/// Whether no variable sets `field`.
pub open spec fn unbound(vars: Seq<(String, String)>, field: Seq<char>) -> bool {
    forall|i: int| !#[trigger] binds(vars, i, field)
}

/// Whether the variable at index `i` sets `field` and no other does.
pub open spec fn sole_binding(vars: Seq<(String, String)>, field: Seq<char>, i: int) -> bool {
    &&& binds(vars, i, field)
    &&& forall|j: int| #[trigger] binds(vars, j, field) ==> j == i
}

/// Where `field` is set in `vars`.
pub open spec fn binding_of(vars: Seq<(String, String)>, field: Seq<char>) -> Binding {
    if unbound(vars, field) {
        Binding::Absent
    } else if exists|i: int| sole_binding(vars, field, i) {
        Binding::Sole((choose|i: int| sole_binding(vars, field, i)) as usize)
    } else {
        Binding::Repeated
    }
}

/// What a list of variables amounts to: the configuration, or the first
/// reason, in the order of the fields, why there is none.
pub open spec fn loaded(vars: Seq<(String, String)>) -> Result<ConfigView, ConfigError> {
    match binding_of(vars, port_field()) {
        Binding::Absent => Err(ConfigError::MissingPort),
        Binding::Repeated => Err(ConfigError::DuplicatePort),
        Binding::Sole(p) => match port_of(vars[p as int].1@) {
            None => Err(ConfigError::InvalidPort),
            Some(port) => match binding_of(vars, database_url_field()) {
                Binding::Absent => Err(ConfigError::MissingDatabaseUrl),
                Binding::Repeated => Err(ConfigError::DuplicateDatabaseUrl),
                Binding::Sole(u) => Ok(ConfigView { port, database_url: vars[u as int].1@ }),
            },
        },
    }
}

/// Tells whether a variable called `name` sets the field `field`.
pub fn matches_field(name: &str, field: &str) -> (m: bool)
    ensures
        m == names_field(name@, field@),
{
    let n: usize = name.unicode_len();
    if n != field.unicode_len() {
        return false;
    }
    let mut i: usize = 0;
    while i < n
        invariant
            n == name@.len(),
            n == field@.len(),
            i <= n,
            forall|j: int| 0 <= j < i ==> folds_to(#[trigger] name@[j], field@[j]),
        decreases n - i,
    {
        let c: char = name.get_char(i);
        let f: char = field.get_char(i);
        let code: u32 = c as u32;
        let same: bool = c == f || (65 <= code && code <= 90 && code + 32 == f as u32);
        if !same {
            assert(!folds_to(name@[i as int], field@[i as int]));
            return false;
        }
        i += 1;
    }
    true
}

/// Finds where `field` is set in `vars`.
pub fn find_binding(vars: &Vec<(String, String)>, field: &str) -> (b: Binding)
    ensures
        b == binding_of(vars@, field@),
{
    let mut found: Binding = Binding::Absent;
    let ghost mut first: int = 0;
    let ghost mut second: int = 0;
    let mut i: usize = 0;
    while i < vars.len()
        invariant
            i <= vars.len(),
            found is Absent ==> forall|j: int| 0 <= j < i ==> !#[trigger] binds(vars@, j, field@),
            found matches Binding::Sole(k) ==> k < i && binds(vars@, k as int, field@) && forall|j: int|
                0 <= j < i && #[trigger] binds(vars@, j, field@) ==> j == k,
            found is Repeated ==> first != second && binds(vars@, first, field@) && binds(
                vars@,
                second,
                field@,
            ),
        decreases vars.len() - i,
    {
        let hit: bool = matches_field(vars[i].0.as_str(), field);
        assert(hit == binds(vars@, i as int, field@));
        if hit {
            match found {
                Binding::Absent => {
                    found = Binding::Sole(i);
                },
                Binding::Sole(k) => {
                    proof {
                        first = k as int;
                        second = i as int;
                    }
                    found = Binding::Repeated;
                },
                Binding::Repeated => {},
            }
        }
        i += 1;
    }
    proof {
        match found {
            Binding::Absent => {
                assert(unbound(vars@, field@));
            },
            Binding::Sole(k) => {
                assert(sole_binding(vars@, field@, k as int));
                let chosen = choose|c: int| sole_binding(vars@, field@, c);
                assert(sole_binding(vars@, field@, chosen));
                assert(chosen == k);
            },
            Binding::Repeated => {
                assert(!unbound(vars@, field@));
                assert forall|c: int| !sole_binding(vars@, field@, c) by {
                    if sole_binding(vars@, field@, c) {
                        assert(first == c);
                        assert(second == c);
                    }
                }
            },
        }
    }
    found
}

impl Config {
    /// Reads the configuration from the variables of an environment, each a
    /// name and a value. The port is the value of the one variable called
    /// `PORT`, in any case of letters, read as a decimal number; the
    /// datastore's connection string is the value of the one called
    /// `DATABASE_URL`, taken as it is. Other variables are passed over.
    pub fn from_vars(vars: &Vec<(String, String)>) -> (r: Result<Config, ConfigError>)
        ensures
            match r {
                Ok(config) => loaded(vars@) == Ok::<ConfigView, ConfigError>(config@),
                Err(e) => loaded(vars@) == Err::<ConfigView, ConfigError>(e),
            },
    {
        let port: u16 = match find_binding(vars, "port") {
            Binding::Absent => {
                return Err(ConfigError::MissingPort);
            },
            Binding::Repeated => {
                return Err(ConfigError::DuplicatePort);
            },
            Binding::Sole(p) => match parse_port(vars[p].1.as_str()) {
                None => {
                    return Err(ConfigError::InvalidPort);
                },
                Some(port) => port,
            },
        };
        match find_binding(vars, "database_url") {
            Binding::Absent => Err(ConfigError::MissingDatabaseUrl),
            Binding::Repeated => Err(ConfigError::DuplicateDatabaseUrl),
            Binding::Sole(u) => Ok(Config { port, database_url: vars[u].1.clone() }),
        }
    }
}

/// Without a variable that names the port there is no configuration.
pub proof fn lemma_absent_port_is_rejected(vars: Seq<(String, String)>)
    requires
        unbound(vars, port_field()),
    ensures
        loaded(vars) == Err::<ConfigView, ConfigError>(ConfigError::MissingPort),
{
}

/// Without a variable that names the datastore there is no configuration.
pub proof fn lemma_absent_database_url_is_rejected(vars: Seq<(String, String)>)
    requires
        unbound(vars, database_url_field()),
    ensures
        loaded(vars) is Err,
{
}

/// A port variable whose value is no number from 0 to 65535 gives no
/// configuration, whatever the other variables hold.
pub proof fn lemma_malformed_port_is_rejected(vars: Seq<(String, String)>, i: int)
    requires
        vars.len() <= usize::MAX,
        binds(vars, i, port_field()),
        port_of(vars[i].1@) is None,
    ensures
        loaded(vars) is Err,
{
    if sole_binding(vars, port_field(), i) {
        let chosen = choose|c: int| sole_binding(vars, port_field(), c);
        assert(chosen == i);
    } else if exists|c: int| sole_binding(vars, port_field(), c) {
        let chosen = choose|c: int| sole_binding(vars, port_field(), c);
        assert(binds(vars, i, port_field()));
        assert(chosen == i);
    }
}

/// A configuration is read exactly when each of the two fields is set by one
/// variable and the port's value is a number from 0 to 65535; it then holds
/// that number and the datastore's value unchanged.
pub proof fn lemma_loaded_exactly(vars: Seq<(String, String)>, p: int, u: int)
    requires
        vars.len() <= usize::MAX,
        sole_binding(vars, port_field(), p),
        sole_binding(vars, database_url_field(), u),
        port_of(vars[p].1@) is Some,
    ensures
        loaded(vars) == Ok::<ConfigView, ConfigError>(
            ConfigView { port: port_of(vars[p].1@).unwrap(), database_url: vars[u].1@ },
        ),
{
    let cp = choose|c: int| sole_binding(vars, port_field(), c);
    let cu = choose|c: int| sole_binding(vars, database_url_field(), c);
    assert(cp == p);
    assert(cu == u);
    assert(!unbound(vars, port_field()));
    assert(!unbound(vars, database_url_field()));
}

} // verus!
