use semantic_editor::options::{
    console_method, log_filter, sink_plan, ConsoleMethod, Level, LogFilter, Options,
};

fn with_verbosity(verbose: u8, quiet: u8) -> Options {
    Options { verbose, quiet, ..Options::default() }
}

#[test]
fn the_verbosity_difference_picks_the_level() {
    assert_eq!(log_filter(&with_verbosity(0, 4)), LogFilter::Nothing);
    assert_eq!(log_filter(&with_verbosity(0, 3)), LogFilter::AtMost(Level::Critical));
    assert_eq!(log_filter(&with_verbosity(0, 2)), LogFilter::AtMost(Level::Error));
    assert_eq!(log_filter(&with_verbosity(0, 1)), LogFilter::AtMost(Level::Warning));
    assert_eq!(log_filter(&with_verbosity(0, 0)), LogFilter::AtMost(Level::Info));
    assert_eq!(log_filter(&with_verbosity(1, 0)), LogFilter::AtMost(Level::Debug));
    assert_eq!(log_filter(&with_verbosity(2, 0)), LogFilter::AtMost(Level::Trace));
    assert_eq!(log_filter(&with_verbosity(255, 0)), LogFilter::AtMost(Level::Trace));
}

#[test]
fn debug_mode_lets_everything_through() {
    let options = Options { debug: true, quiet: 200, ..Options::default() };
    assert_eq!(log_filter(&options), LogFilter::Everything);
}

#[test]
fn silent_mode_drops_only_the_terminal_sink() {
    let options = Options { silent: true, syslog: true, journald: false, ..Options::default() };
    let plan = sink_plan(&options);
    assert!(!plan.term);
    assert!(plan.syslog);
    assert!(!plan.journald);

    let loud = Options::default();
    assert!(sink_plan(&loud).term);
}

#[test]
fn severities_route_to_their_console_methods() {
    assert_eq!(console_method(Level::Critical), ConsoleMethod::Error);
    assert_eq!(console_method(Level::Error), ConsoleMethod::Error);
    assert_eq!(console_method(Level::Warning), ConsoleMethod::Warn);
    assert_eq!(console_method(Level::Info), ConsoleMethod::Info);
    assert_eq!(console_method(Level::Debug), ConsoleMethod::Log);
    assert_eq!(console_method(Level::Trace), ConsoleMethod::Log);
}
