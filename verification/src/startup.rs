//! The order in which the service comes up, as a state machine: the caller
//! does the work that a state asks for and reports how it went.

use crate::config::{Config, ConfigError};
use vstd::prelude::*;

verus! {

/// The most connections that the pool may hold at a time.
pub const MAX_CONNECTIONS: u32 = 5;

/// The address that stands for every network interface of the machine.
pub const ALL_INTERFACES: [u8; 4] = [0, 0, 0, 0];

/// Why the service did not come up.
#[derive(Debug, Clone, Copy, PartialEq, Eq)]
pub enum StartupError {
    /// The environment gave no configuration.
    Configuration(ConfigError),
    /// The datastore could not be reached, or refused the connection.
    PoolConnection,
    /// The listener could not be bound to the port.
    Bind,
}

/// How far the service has come.
#[derive(Debug, Clone, PartialEq, Eq)]
pub enum Startup {
    /// Nothing has been done.
    Uninitialized,
    /// The configuration has been read.
    ConfigLoaded(Config),
    /// The log subscriber is installed.
    LoggingReady(Config),
    /// The pool is connected to the datastore.
    PoolOpen(Config),
    /// The listener is bound and requests are served.
    Serving(Config),
    /// A step failed; nothing further is done.
    Aborted(StartupError),
}

/// How a piece of work went.
#[derive(Debug, PartialEq, Eq)]
pub enum Event {
    /// The environment was read, with this result.
    ConfigRead(Result<Config, ConfigError>),
    /// The log subscriber was installed.
    LoggingInstalled,
    /// The pool connected to the datastore.
    PoolConnected,
    /// The pool could not connect.
    PoolRefused,
    /// The listener was bound.
    ListenerBound,
    /// The listener could not be bound.
    BindRefused,
}

/// The work that a state asks for.
#[derive(Debug, Clone, PartialEq, Eq)]
pub enum Action {
    /// Read the configuration from the environment.
    ReadConfig,
    /// Install the log subscriber.
    InstallLogging,
    /// Connect a pool of at most `max_connections` to the datastore.
    ConnectPool { database_url: String, max_connections: u32 },
    /// Bind a listener at `port` on the interface with the address `interface`.
    BindListener { interface: [u8; 4], port: u16 },
    /// Serve requests until the process is stopped.
    Serve,
    /// Leave, reporting the error.
    Exit(StartupError),
}

/// The state that follows `state` when `event` is reported. A step that
/// succeeds leads to the next state and one that fails to `Aborted`; a report
/// that the state did not ask for changes nothing.
pub open spec fn next_state(state: Startup, event: Event) -> Startup {
    match (state, event) {
        (Startup::Uninitialized, Event::ConfigRead(Ok(config))) => Startup::ConfigLoaded(config),
        (Startup::Uninitialized, Event::ConfigRead(Err(e))) => Startup::Aborted(
            StartupError::Configuration(e),
        ),
        (Startup::ConfigLoaded(config), Event::LoggingInstalled) => Startup::LoggingReady(config),
        (Startup::LoggingReady(config), Event::PoolConnected) => Startup::PoolOpen(config),
        (Startup::LoggingReady(_), Event::PoolRefused) => Startup::Aborted(
            StartupError::PoolConnection,
        ),
        (Startup::PoolOpen(config), Event::ListenerBound) => Startup::Serving(config),
        (Startup::PoolOpen(_), Event::BindRefused) => Startup::Aborted(StartupError::Bind),
        (state, _) => state,
    }
}

/// The work that `state` asks for.
pub open spec fn action_of(state: Startup) -> Action {
    match state {
        Startup::Uninitialized => Action::ReadConfig,
        Startup::ConfigLoaded(_) => Action::InstallLogging,
        Startup::LoggingReady(config) => Action::ConnectPool {
            database_url: config.database_url,
            max_connections: MAX_CONNECTIONS,
        },
        Startup::PoolOpen(config) => Action::BindListener {
            interface: ALL_INTERFACES,
            port: config.port,
        },
        Startup::Serving(_) => Action::Serve,
        Startup::Aborted(e) => Action::Exit(e),
    }
}

/// The state reached from `state` when `events` are reported one after another.
pub open spec fn run(state: Startup, events: Seq<Event>) -> Startup
    decreases events.len(),
{
    if events.len() == 0 {
        state
    } else {
        next_state(run(state, events.drop_last()), events.last())
    }
}

/// How many steps of the startup have succeeded in `state`.
pub open spec fn progress(state: Startup) -> nat {
    match state {
        Startup::Uninitialized | Startup::Aborted(_) => 0,
        Startup::ConfigLoaded(_) => 1,
        Startup::LoggingReady(_) => 2,
        Startup::PoolOpen(_) => 3,
        Startup::Serving(_) => 4,
    }
}

/// The configuration that `state` holds, if it holds one.
pub open spec fn config_of(state: Startup) -> Option<Config> {
    match state {
        Startup::Uninitialized | Startup::Aborted(_) => None,
        Startup::ConfigLoaded(config)
        | Startup::LoggingReady(config)
        | Startup::PoolOpen(config)
        | Startup::Serving(config) => Some(config),
    }
}

impl Startup {
    /// The state in which nothing has been done.
    pub fn new() -> (state: Startup)
        ensures
            state == Startup::Uninitialized,
    {
        Startup::Uninitialized
    }

    /// The work to do next.
    pub fn action(&self) -> (action: Action)
        ensures
            action == action_of(*self),
    {
        match self {
            Startup::Uninitialized => Action::ReadConfig,
            Startup::ConfigLoaded(_) => Action::InstallLogging,
            Startup::LoggingReady(config) => Action::ConnectPool {
                database_url: config.database_url.clone(),
                max_connections: MAX_CONNECTIONS,
            },
            Startup::PoolOpen(config) => Action::BindListener {
                interface: ALL_INTERFACES,
                port: config.port,
            },
            Startup::Serving(_) => Action::Serve,
            Startup::Aborted(e) => Action::Exit(*e),
        }
    }

    /// Takes the report of a piece of work and moves on.
    pub fn step(self, event: Event) -> (next: Startup)
        ensures
            next == next_state(self, event),
    {
        match self {
            Startup::Uninitialized => match event {
                Event::ConfigRead(Ok(config)) => Startup::ConfigLoaded(config),
                Event::ConfigRead(Err(e)) => Startup::Aborted(StartupError::Configuration(e)),
                _ => Startup::Uninitialized,
            },
            Startup::ConfigLoaded(config) => match event {
                Event::LoggingInstalled => Startup::LoggingReady(config),
                _ => Startup::ConfigLoaded(config),
            },
            Startup::LoggingReady(config) => match event {
                Event::PoolConnected => Startup::PoolOpen(config),
                Event::PoolRefused => Startup::Aborted(StartupError::PoolConnection),
                _ => Startup::LoggingReady(config),
            },
            Startup::PoolOpen(config) => match event {
                Event::ListenerBound => Startup::Serving(config),
                Event::BindRefused => Startup::Aborted(StartupError::Bind),
                _ => Startup::PoolOpen(config),
            },
            Startup::Serving(config) => Startup::Serving(config),
            Startup::Aborted(e) => Startup::Aborted(e),
        }
    }
}

/// Once the startup is aborted or the service is serving, no report changes
/// the state: there is no retry and no way back.
pub proof fn lemma_final_states_stay(state: Startup, events: Seq<Event>)
    requires
        state is Aborted || state is Serving,
    ensures
        run(state, events) == state,
    decreases events.len(),
{
    if events.len() > 0 {
        lemma_final_states_stay(state, events.drop_last());
    }
}

/// The startup that goes well: from the start, a configuration read, the
/// subscriber installed, the pool connected and the listener bound, reported
/// in this order, lead to serving with that configuration. On the way a pool
/// of at most five connections to the configured datastore is asked for,
/// then a listener on every interface at the configured port.
pub proof fn lemma_successful_startup(config: Config)
    ensures
        run(
            Startup::Uninitialized,
            seq![
                Event::ConfigRead(Ok(config)),
                Event::LoggingInstalled,
                Event::PoolConnected,
                Event::ListenerBound,
            ],
        ) == Startup::Serving(config),
        action_of(
            run(
                Startup::Uninitialized,
                seq![Event::ConfigRead(Ok(config)), Event::LoggingInstalled],
            ),
        ) == (Action::ConnectPool { database_url: config.database_url, max_connections: 5 }),
        action_of(
            run(
                Startup::Uninitialized,
                seq![
                    Event::ConfigRead(Ok(config)),
                    Event::LoggingInstalled,
                    Event::PoolConnected,
                ],
            ),
        ) == (Action::BindListener { interface: ALL_INTERFACES, port: config.port }),
        action_of(Startup::Serving(config)) == Action::Serve,
{
    let e1 = Event::ConfigRead(Ok(config));
    let none = Seq::<Event>::empty();
    let one = seq![e1];
    let two = seq![e1, Event::LoggingInstalled];
    let three = seq![e1, Event::LoggingInstalled, Event::PoolConnected];
    let four = seq![e1, Event::LoggingInstalled, Event::PoolConnected, Event::ListenerBound];
    assert(one.drop_last() =~= none);
    assert(two.drop_last() =~= one);
    assert(three.drop_last() =~= two);
    assert(four.drop_last() =~= three);
    assert(run(Startup::Uninitialized, none) == Startup::Uninitialized);
    assert(run(Startup::Uninitialized, one) == Startup::ConfigLoaded(config));
    assert(run(Startup::Uninitialized, two) == Startup::LoggingReady(config));
    assert(run(Startup::Uninitialized, three) == Startup::PoolOpen(config));
}

/// After the configuration was rejected, whatever is reported, the only work
/// ever asked for is to leave: no pool is connected and no listener bound.
pub proof fn lemma_rejected_config_opens_nothing(e: ConfigError, later: Seq<Event>)
    ensures
        action_of(run(next_state(Startup::Uninitialized, Event::ConfigRead(Err(e))), later))
            == Action::Exit(StartupError::Configuration(e)),
{
    lemma_final_states_stay(Startup::Aborted(StartupError::Configuration(e)), later);
}

/// After the pool could not connect, whatever is reported, the only work
/// ever asked for is to leave: no listener is bound.
pub proof fn lemma_refused_pool_binds_nothing(config: Config, later: Seq<Event>)
    ensures
        action_of(run(next_state(Startup::LoggingReady(config), Event::PoolRefused), later))
            == Action::Exit(StartupError::PoolConnection),
{
    lemma_final_states_stay(Startup::Aborted(StartupError::PoolConnection), later);
}

/// A report moves the startup forward by exactly one step, aborts it, or
/// leaves it as it is: no step is skipped.
pub proof fn lemma_one_step_at_a_time(state: Startup, event: Event)
    ensures
        next_state(state, event) == state || next_state(state, event) is Aborted || progress(
            next_state(state, event),
        ) == progress(state) + 1,
{
}

/// The configuration is read once: a state that holds one keeps it, whatever
/// is reported, until the startup is aborted. A later reading changes nothing.
pub proof fn lemma_configuration_is_kept(state: Startup, events: Seq<Event>)
    requires
        config_of(state) is Some,
    ensures
        run(state, events) is Aborted || config_of(run(state, events)) == config_of(state),
    decreases events.len(),
{
    if events.len() > 0 {
        lemma_configuration_is_kept(state, events.drop_last());
    }
}

/// A pool is asked for only with the configured datastore and the fixed
/// limit, and a listener only on the configured port and only once the pool
/// is open.
pub proof fn lemma_work_follows_configuration(state: Startup)
    ensures
        action_of(state) matches Action::ConnectPool { database_url, max_connections } ==> state
            matches Startup::LoggingReady(config) && database_url == config.database_url
            && max_connections == 5,
        action_of(state) matches Action::BindListener { interface, port } ==> state
            matches Startup::PoolOpen(config) && port == config.port
            && interface@ == seq![0u8, 0u8, 0u8, 0u8],
{
}

/// Whatever is reported from the start, no step is taken before a
/// configuration was read with success.
pub proof fn lemma_progress_needs_configuration(events: Seq<Event>)
    ensures
        progress(run(Startup::Uninitialized, events)) > 0 ==> exists|i: int|
            0 <= i < events.len() && #[trigger] events[i] is ConfigRead && events[i]->ConfigRead_0
                is Ok,
    decreases events.len(),
{
    if events.len() > 0 {
        let before = events.drop_last();
        lemma_progress_needs_configuration(before);
        let reached = run(Startup::Uninitialized, before);
        if progress(reached) > 0 {
            let i = choose|i: int|
                0 <= i < before.len() && #[trigger] before[i] is ConfigRead
                    && before[i]->ConfigRead_0 is Ok;
            assert(events[i] == before[i]);
        } else if progress(run(Startup::Uninitialized, events)) > 0 {
            assert(reached is Uninitialized);
            assert(events[events.len() - 1] is ConfigRead);
        }
    }
}

/// Whatever is reported from the start, a listener is asked for, and the
/// service serves, only after the pool was reported as connected.
pub proof fn lemma_listener_needs_pool(events: Seq<Event>)
    ensures
        progress(run(Startup::Uninitialized, events)) >= 3 ==> exists|i: int|
            0 <= i < events.len() && #[trigger] events[i] is PoolConnected,
    decreases events.len(),
{
    if events.len() > 0 {
        let before = events.drop_last();
        lemma_listener_needs_pool(before);
        let reached = run(Startup::Uninitialized, before);
        if progress(reached) >= 3 {
            let i = choose|i: int| 0 <= i < before.len() && #[trigger] before[i] is PoolConnected;
            assert(events[i] == before[i]);
        } else if progress(run(Startup::Uninitialized, events)) >= 3 {
            assert(reached is LoggingReady);
            assert(events[events.len() - 1] is PoolConnected);
        }
    }
}

} // verus!
