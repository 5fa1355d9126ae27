use daily_logger::{admits, Level, LevelFilter};

const LEVELS: [Level; 5] = [Level::Error, Level::Warn, Level::Info, Level::Debug, Level::Trace];

const FILTERS: [LevelFilter; 6] = [
    LevelFilter::Off,
    LevelFilter::Error,
    LevelFilter::Warn,
    LevelFilter::Info,
    LevelFilter::Debug,
    LevelFilter::Trace,
];

fn facade_level(level: Level) -> log::Level {
    match level {
        Level::Error => log::Level::Error,
        Level::Warn => log::Level::Warn,
        Level::Info => log::Level::Info,
        Level::Debug => log::Level::Debug,
        Level::Trace => log::Level::Trace,
    }
}

fn facade_filter(filter: LevelFilter) -> log::LevelFilter {
    match filter {
        LevelFilter::Off => log::LevelFilter::Off,
        LevelFilter::Error => log::LevelFilter::Error,
        LevelFilter::Warn => log::LevelFilter::Warn,
        LevelFilter::Info => log::LevelFilter::Info,
        LevelFilter::Debug => log::LevelFilter::Debug,
        LevelFilter::Trace => log::LevelFilter::Trace,
    }
}

#[test]
fn admits_records_at_least_as_severe_as_the_threshold() {
    assert!(admits(Level::Error, LevelFilter::Info));
    assert!(admits(Level::Warn, LevelFilter::Info));
    assert!(admits(Level::Info, LevelFilter::Info));
    assert!(!admits(Level::Debug, LevelFilter::Info));
    assert!(!admits(Level::Trace, LevelFilter::Info));
}

#[test]
fn off_admits_nothing_and_trace_admits_everything() {
    for level in LEVELS {
        assert!(!admits(level, LevelFilter::Off));
        assert!(admits(level, LevelFilter::Trace));
    }
}

#[test]
fn admits_agrees_with_the_facade_on_every_pair() {
    for level in LEVELS {
        for filter in FILTERS {
            assert_eq!(admits(level, filter), facade_level(level) <= facade_filter(filter));
        }
    }
}

#[test]
fn verbosity_ranks_run_from_error_to_trace() {
    assert_eq!(Level::Error.verbosity(), 1);
    assert_eq!(Level::Warn.verbosity(), 2);
    assert_eq!(Level::Info.verbosity(), 3);
    assert_eq!(Level::Debug.verbosity(), 4);
    assert_eq!(Level::Trace.verbosity(), 5);
    assert_eq!(LevelFilter::Off.verbosity(), 0);
    assert_eq!(LevelFilter::Error.verbosity(), 1);
    assert_eq!(LevelFilter::Trace.verbosity(), 5);
}

#[test]
fn level_names_are_those_of_the_facade() {
    assert_eq!(Level::Error.as_str(), "ERROR");
    assert_eq!(Level::Warn.as_str(), "WARN");
    assert_eq!(Level::Info.as_str(), "INFO");
    assert_eq!(Level::Debug.as_str(), "DEBUG");
    assert_eq!(Level::Trace.as_str(), "TRACE");
    for level in LEVELS {
        assert_eq!(level.as_str(), facade_level(level).as_str());
        assert_eq!(level.as_str(), format!("{}", facade_level(level)));
    }
}

#[test]
fn color_codes_follow_the_severity() {
    assert_eq!(Level::Error.color_code(), "\x1b[31m");
    assert_eq!(Level::Warn.color_code(), "\x1b[33m");
    assert_eq!(Level::Info.color_code(), "\x1b[32m");
    assert_eq!(Level::Debug.color_code(), "\x1b[37m");
    assert_eq!(Level::Trace.color_code(), "\x1b[90m");
}

#[test]
fn max_is_the_more_verbose_threshold() {
    assert_eq!(LevelFilter::Off.max(LevelFilter::Trace), LevelFilter::Trace);
    assert_eq!(LevelFilter::Trace.max(LevelFilter::Off), LevelFilter::Trace);
    assert_eq!(LevelFilter::Warn.max(LevelFilter::Info), LevelFilter::Info);
    assert_eq!(LevelFilter::Off.max(LevelFilter::Off), LevelFilter::Off);
    for a in FILTERS {
        for b in FILTERS {
            assert_eq!(facade_filter(a.max(b)), facade_filter(a).max(facade_filter(b)));
        }
    }
}

#[test]
fn a_record_passes_the_max_exactly_when_it_passes_one_threshold() {
    for level in LEVELS {
        for a in FILTERS {
            for b in FILTERS {
                assert_eq!(admits(level, a.max(b)), admits(level, a) || admits(level, b));
            }
        }
    }
}
