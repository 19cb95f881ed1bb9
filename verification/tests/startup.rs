use service_bootstrap::config::{Config, ConfigError};
use service_bootstrap::route::root;
use service_bootstrap::startup::{
    Action, Event, Startup, StartupError, ALL_INTERFACES, MAX_CONNECTIONS,
};

fn config() -> Config {
    Config { port: 8080, database_url: "postgres://localhost/app".to_string() }
}

#[test]
fn startup_runs_in_order() {
    let env = vec![
        ("PORT".to_string(), "8080".to_string()),
        ("DATABASE_URL".to_string(), "postgres://localhost/app".to_string()),
    ];
    let state = Startup::new();
    assert_eq!(state, Startup::Uninitialized);
    assert_eq!(state.action(), Action::ReadConfig);

    let state = state.step(Event::ConfigRead(Config::from_vars(&env)));
    assert_eq!(state, Startup::ConfigLoaded(config()));
    assert_eq!(state.action(), Action::InstallLogging);

    let state = state.step(Event::LoggingInstalled);
    assert_eq!(state, Startup::LoggingReady(config()));
    assert_eq!(
        state.action(),
        Action::ConnectPool {
            database_url: "postgres://localhost/app".to_string(),
            max_connections: 5,
        }
    );

    let state = state.step(Event::PoolConnected);
    assert_eq!(state, Startup::PoolOpen(config()));
    assert_eq!(state.action(), Action::BindListener { interface: [0, 0, 0, 0], port: 8080 });

    let state = state.step(Event::ListenerBound);
    assert_eq!(state, Startup::Serving(config()));
    assert_eq!(state.action(), Action::Serve);

    let reply = root();
    assert_eq!(reply.status, 200);
    assert_eq!(reply.body, "Hello, World!");
}

#[test]
fn limits_are_fixed() {
    assert_eq!(MAX_CONNECTIONS, 5);
    assert_eq!(ALL_INTERFACES, [0, 0, 0, 0]);
}

#[test]
fn rejected_configuration_aborts_before_any_resource() {
    let env = vec![("DATABASE_URL".to_string(), "postgres://localhost/app".to_string())];
    let mut state = Startup::new().step(Event::ConfigRead(Config::from_vars(&env)));
    let error = StartupError::Configuration(ConfigError::MissingPort);
    assert_eq!(state, Startup::Aborted(error));
    assert_eq!(state.action(), Action::Exit(error));
    for event in [
        Event::LoggingInstalled,
        Event::PoolConnected,
        Event::ListenerBound,
        Event::ConfigRead(Ok(config())),
        Event::PoolRefused,
        Event::BindRefused,
    ] {
        state = state.step(event);
        assert_eq!(state.action(), Action::Exit(error));
    }
}

#[test]
fn refused_pool_aborts_before_the_listener() {
    let mut state = Startup::LoggingReady(config()).step(Event::PoolRefused);
    assert_eq!(state, Startup::Aborted(StartupError::PoolConnection));
    for event in [Event::PoolConnected, Event::ListenerBound, Event::LoggingInstalled] {
        state = state.step(event);
        assert_eq!(state.action(), Action::Exit(StartupError::PoolConnection));
    }
}

#[test]
fn refused_bind_aborts() {
    let state = Startup::PoolOpen(config()).step(Event::BindRefused);
    assert_eq!(state, Startup::Aborted(StartupError::Bind));
    assert_eq!(state.action(), Action::Exit(StartupError::Bind));
}

#[test]
fn reports_out_of_turn_change_nothing() {
    assert_eq!(Startup::new().step(Event::PoolConnected), Startup::Uninitialized);
    assert_eq!(Startup::new().step(Event::ListenerBound), Startup::Uninitialized);
    assert_eq!(
        Startup::ConfigLoaded(config()).step(Event::PoolConnected),
        Startup::ConfigLoaded(config())
    );
    assert_eq!(
        Startup::ConfigLoaded(config()).step(Event::ConfigRead(Err(ConfigError::InvalidPort))),
        Startup::ConfigLoaded(config())
    );
    assert_eq!(
        Startup::LoggingReady(config()).step(Event::ListenerBound),
        Startup::LoggingReady(config())
    );
    assert_eq!(
        Startup::PoolOpen(config()).step(Event::PoolRefused),
        Startup::PoolOpen(config())
    );
}

#[test]
fn serving_is_final() {
    let mut state = Startup::Serving(config());
    for event in [
        Event::BindRefused,
        Event::PoolRefused,
        Event::ConfigRead(Err(ConfigError::MissingPort)),
        Event::ListenerBound,
    ] {
        state = state.step(event);
        assert_eq!(state, Startup::Serving(config()));
        assert_eq!(state.action(), Action::Serve);
    }
}
